//! The entries of a folder as they are read from the disk.

use vstd::prelude::*;

verus! {

/// A moment: whole seconds since 1970-01-01 00:00 UTC, negative before it,
/// and the nanoseconds that follow them.
#[derive(Debug, Clone, Copy, PartialEq, Eq, Structural)]
pub struct Timestamp {
    pub secs: i64,
    pub nanos: u32,
}

impl Timestamp {
    /// `self` lies after `other`.
    pub open spec fn later_than(self, other: Timestamp) -> bool {
        self.secs > other.secs || (self.secs == other.secs && self.nanos > other.nanos)
    }

    /// The whole seconds since the epoch, 0 for a moment before it.
    pub open spec fn seconds_since_epoch(self) -> int {
        if self.secs >= 0 {
            self.secs as int
        } else {
            0
        }
    }

    /// 1970-01-01 00:00 UTC.
    pub fn epoch() -> (r: Timestamp)
        ensures
            r.secs == 0,
            r.nanos == 0,
    {
        Timestamp { secs: 0, nanos: 0 }
    }

    /// The nanoseconds since the epoch, negative before it.
    pub open spec fn nanoseconds(self) -> int {
        self.secs * 1_000_000_000 + self.nanos
    }

    /// The moment this long after the epoch.
    pub fn after_epoch(secs: i64, nanos: u32) -> (r: Timestamp)
        requires
            secs >= 0,
            nanos < 1_000_000_000,
        ensures
            r.nanoseconds() == secs * 1_000_000_000 + nanos,
            r.secs * 1_000_000_000 + r.nanos == secs * 1_000_000_000 + nanos,
            r.nanos < 1_000_000_000,
    {
        Timestamp { secs, nanos }
    }

    /// The moment this long before the epoch.
    pub fn before_epoch(secs: i64, nanos: u32) -> (r: Timestamp)
        requires
            secs >= 0,
            nanos < 1_000_000_000,
        ensures
            r.nanoseconds() == -(secs * 1_000_000_000 + nanos),
            r.secs * 1_000_000_000 + r.nanos == -(secs * 1_000_000_000 + nanos),
            r.nanos < 1_000_000_000,
    {
        if nanos == 0 {
            Timestamp { secs: -secs, nanos: 0 }
        } else {
            Timestamp { secs: -secs - 1, nanos: 1_000_000_000 - nanos }
        }
    }

    /// Whether `self` lies after `other`.
    pub fn is_after(&self, other: &Timestamp) -> (r: bool)
        ensures
            r == self.later_than(*other),
            self.secs > other.secs ==> r,
            self.secs < other.secs ==> !r,
            self.secs == other.secs ==> r == (self.nanos > other.nanos),
    {
        self.secs > other.secs || (self.secs == other.secs && self.nanos > other.nanos)
    }

    /// The whole seconds since the epoch, 0 for a moment before it.
    pub fn epoch_seconds(&self) -> (r: i64)
        ensures
            r == self.seconds_since_epoch(),
            self.secs >= 0 ==> r == self.secs,
            self.secs < 0 ==> r == 0,
    {
        if self.secs >= 0 {
            self.secs
        } else {
            0
        }
    }
}

/// Of two moments the later one is the one with more nanoseconds since the epoch.
pub proof fn later_has_more_nanoseconds(a: Timestamp, b: Timestamp)
    requires
        a.nanos < 1_000_000_000,
        b.nanos < 1_000_000_000,
    ensures
        a.later_than(b) <==> a.nanoseconds() > b.nanoseconds(),
{
}

/// What the disk tells of an entry, a link itself rather than its target.
#[derive(Debug)]
pub struct Metadata {
    pub is_symlink: bool,
    pub is_dir: bool,
    /// Whether the target of a link is a folder, where there is a target.
    pub target_is_dir: Option<bool>,
    /// When it was modified, where the system keeps that.
    pub mtime: Option<Timestamp>,
    pub size: u64,
    /// Type and permission bits.
    pub mode: u32,
    pub nlink: u64,
    pub uid: u32,
    pub gid: u32,
    /// The name of the owner, where the system knows one.
    pub owner: Option<String>,
    /// The name of the group, where the system knows one.
    pub group: Option<String>,
    /// The modification time as the user's clock shows it.
    pub date: String,
}

/// One entry of a folder.
#[derive(Debug)]
pub struct RawEntry {
    pub name: String,
    pub mtime: Timestamp,
    /// Whether it can be entered. A link to a folder can.
    pub is_dir: bool,
    pub size: u64,
    pub mode: u32,
    pub nlink: u64,
    pub uid: u32,
    pub gid: u32,
    pub owner: Option<String>,
    pub group: Option<String>,
    pub date: String,
}

/// An entry can be entered if it is a folder or a link that leads to one. A
/// broken link leads nowhere.
pub open spec fn can_enter(is_symlink: bool, is_dir: bool, target_is_dir: Option<bool>) -> bool {
    if is_symlink {
        target_is_dir == Some(true)
    } else {
        is_dir
    }
}

/// The entry with this name and metadata.
pub open spec fn raw_entry(name: String, meta: Metadata) -> RawEntry {
    RawEntry {
        name,
        mtime: match meta.mtime {
            Some(at) => at,
            None => Timestamp { secs: 0, nanos: 0 },
        },
        is_dir: can_enter(meta.is_symlink, meta.is_dir, meta.target_is_dir),
        size: meta.size,
        mode: meta.mode,
        nlink: meta.nlink,
        uid: meta.uid,
        gid: meta.gid,
        owner: meta.owner,
        group: meta.group,
        date: meta.date,
    }
}

/// The entries whose metadata could be read, in the order they were found.
pub open spec fn raw_entries(found: Seq<(String, Option<Metadata>)>) -> Seq<RawEntry>
    decreases found.len(),
{
    if found.len() == 0 {
        Seq::empty()
    } else {
        let before = raw_entries(found.drop_last());
        match found.last().1 {
            Some(meta) => before.push(raw_entry(found.last().0, meta)),
            None => before,
        }
    }
}

/// Whether an entry can be entered, looking through a link.
pub fn is_navigable(is_symlink: bool, is_dir: bool, target_is_dir: Option<bool>) -> (r: bool)
    ensures
        r == can_enter(is_symlink, is_dir, target_is_dir),
        !is_symlink ==> r == is_dir,
        is_symlink ==> r == (target_is_dir == Some(true)),
{
    if is_symlink {
        match target_is_dir {
            Some(is_dir) => is_dir,
            None => false,
        }
    } else {
        is_dir
    }
}

/// The entries of a folder from the names found in it, none if it could not be
/// listed. One that vanished before its metadata was read is left out.
pub fn collect_raw_entries(found: Option<Vec<(String, Option<Metadata>)>>) -> (entries: Vec<
    RawEntry,
>)
    ensures
        entries@ == (match found {
            Some(found) => raw_entries(found@),
            None => Seq::empty(),
        }),
        found is None ==> entries@.len() == 0,
        found is Some ==> entries@.len() == readable_count(found->0@),
        found is Some ==> forall|k: int|
            0 <= k < found->0@.len() && (#[trigger] found->0@[k]).1 is Some ==> {
                let j = readable_count(found->0@.take(k)) as int;
                j < entries@.len() && tells(entries@[j], found->0@[k].0, found->0@[k].1->0)
            },
{
    let mut entries: Vec<RawEntry> = Vec::new();
    let found = match found {
        Some(found) => found,
        None => {
            return entries;
        },
    };
    proof {
        assert(found@.take(0) =~= Seq::empty());
    }
    for item in it: found
        invariant
            it.seq() == found@,
            entries@ == raw_entries(found@.take(it.index())),
    {
        proof {
            let k = it.index();
            assert(found@.take(k + 1).drop_last() =~= found@.take(k));
        }
        let (name, meta) = item;
        match meta {
            Some(meta) => {
                entries.push(
                    RawEntry {
                        name,
                        mtime: match meta.mtime {
                            Some(at) => at,
                            None => Timestamp::epoch(),
                        },
                        is_dir: is_navigable(meta.is_symlink, meta.is_dir, meta.target_is_dir),
                        size: meta.size,
                        mode: meta.mode,
                        nlink: meta.nlink,
                        uid: meta.uid,
                        gid: meta.gid,
                        owner: meta.owner,
                        group: meta.group,
                        date: meta.date,
                    },
                );
            },
            None => {},
        }
    }
    proof {
        assert(found@.take(found@.len() as int) =~= found@);
        entries_are_counted(found@);
        assert forall|k: int| 0 <= k < found@.len() && (#[trigger] found@[k]).1 is Some implies {
            let j = readable_count(found@.take(k)) as int;
            j < entries@.len() && tells(entries@[j], found@[k].0, found@[k].1->0)
        } by {
            each_found_name_has_its_entry(found@, k);
        }
    }
    entries
}

/// How many of the names were found with metadata.
pub open spec fn readable_count(found: Seq<(String, Option<Metadata>)>) -> nat
    decreases found.len(),
{
    if found.len() == 0 {
        0
    } else if found.last().1 is Some {
        readable_count(found.drop_last()) + 1
    } else {
        readable_count(found.drop_last())
    }
}

/// `entry` is what `name` and `meta` tell, each in its own place: a link can be
/// entered if its target is a folder, and a time that is not known is the epoch.
pub open spec fn tells(entry: RawEntry, name: String, meta: Metadata) -> bool {
    &&& entry.name@ == name@
    &&& entry.size == meta.size
    &&& entry.mode == meta.mode
    &&& entry.nlink == meta.nlink
    &&& entry.uid == meta.uid
    &&& entry.gid == meta.gid
    &&& entry.owner == meta.owner
    &&& entry.group == meta.group
    &&& entry.date@ == meta.date@
    &&& meta.mtime is Some ==> entry.mtime == meta.mtime->0
    &&& meta.mtime is None ==> entry.mtime.secs == 0 && entry.mtime.nanos == 0
    &&& !meta.is_symlink ==> entry.is_dir == meta.is_dir
    &&& meta.is_symlink && meta.target_is_dir == Some(true) ==> entry.is_dir
    &&& meta.is_symlink && meta.target_is_dir != Some(true) ==> !entry.is_dir
}

/// There is an entry for each name found with metadata, in the order they were
/// found, and no other; each field of it is the field of the metadata with its name.
pub proof fn each_found_name_has_its_entry(found: Seq<(String, Option<Metadata>)>, k: int)
    requires
        0 <= k < found.len(),
    ensures
        raw_entries(found).len() == readable_count(found),
        readable_count(found.take(k)) <= readable_count(found),
        found[k].1 is Some ==> {
            let entries = raw_entries(found);
            let j = readable_count(found.take(k)) as int;
            let meta = found[k].1->0;
            &&& j < entries.len()
            &&& entries[j].name@ == found[k].0@
            &&& entries[j].owner == meta.owner
            &&& entries[j].group == meta.group
            &&& entries[j].size == meta.size
            &&& entries[j].mode == meta.mode
            &&& entries[j].nlink == meta.nlink
            &&& entries[j].uid == meta.uid
            &&& entries[j].gid == meta.gid
            &&& entries[j].date@ == meta.date@
            &&& meta.mtime is Some ==> entries[j].mtime == meta.mtime->0
            &&& meta.mtime is None ==> entries[j].mtime.secs == 0 && entries[j].mtime.nanos == 0
            &&& !meta.is_symlink ==> entries[j].is_dir == meta.is_dir
            &&& meta.is_symlink ==> entries[j].is_dir == (meta.target_is_dir == Some(true))
        },
    decreases found.len(),
{
    let shorter = found.drop_last();
    entries_are_counted(found);
    entries_are_counted(shorter);
    if k < found.len() - 1 {
        each_found_name_has_its_entry(shorter, k);
        assert(shorter.take(k) =~= found.take(k));
        assert(shorter[k] == found[k]);
        let j = readable_count(found.take(k)) as int;
        if found[k].1 is Some {
            assert(raw_entries(found)[j] == raw_entries(shorter)[j]);
        }
    } else {
        assert(found.take(k) =~= shorter);
    }
}

/// There are as many entries as names found with metadata.
proof fn entries_are_counted(found: Seq<(String, Option<Metadata>)>)
    ensures
        raw_entries(found).len() == readable_count(found),
    decreases found.len(),
{
    if found.len() > 0 {
        entries_are_counted(found.drop_last());
    }
}

}
