//! The properties of an entry in the manner of `ls -l`.

use crate::entry::{RawEntry, Timestamp};
use crate::text::{
    align_left, align_right, columns_hold_their_text, decimal, decimal_text, is_column,
    is_left_column, left_aligned, right_aligned,
};
use vstd::prelude::*;
use vstd::string::*;

verus! {

/// The bits of a mode that tell the type.
pub const S_IFMT: u32 = 0o170000;

pub const S_IFDIR: u32 = 0o040000;

pub const S_IFLNK: u32 = 0o120000;

pub const S_IRUSR: u32 = 0o400;

pub const S_IWUSR: u32 = 0o200;

pub const S_IXUSR: u32 = 0o100;

pub const S_IRGRP: u32 = 0o040;

pub const S_IWGRP: u32 = 0o020;

pub const S_IXGRP: u32 = 0o010;

pub const S_IROTH: u32 = 0o004;

pub const S_IWOTH: u32 = 0o002;

pub const S_IXOTH: u32 = 0o001;

/// How long a modification counts as recent: six months of thirty days, in seconds.
pub const RECENT_SECONDS: i64 = 15_552_000;

/// The letter of the type: a folder, a link, or anything else.
pub open spec fn type_letter(mode: u32) -> char {
    if mode & S_IFMT == S_IFDIR {
        'd'
    } else if mode & S_IFMT == S_IFLNK {
        'l'
    } else {
        '-'
    }
}

/// `letter` where `bit` is set in `mode`.
pub open spec fn flag(mode: u32, bit: u32, letter: char) -> char {
    if mode & bit != 0 {
        letter
    } else {
        '-'
    }
}

/// The type and who may read, write and execute, in ten letters.
pub open spec fn permissions(mode: u32) -> Seq<char> {
    seq![
        type_letter(mode),
        flag(mode, S_IRUSR, 'r'),
        flag(mode, S_IWUSR, 'w'),
        flag(mode, S_IXUSR, 'x'),
        flag(mode, S_IRGRP, 'r'),
        flag(mode, S_IWGRP, 'w'),
        flag(mode, S_IXGRP, 'x'),
        flag(mode, S_IROTH, 'r'),
        flag(mode, S_IWOTH, 'w'),
        flag(mode, S_IXOTH, 'x'),
    ]
}

/// The name of a user or group, or the number where there is no name.
pub open spec fn name_or_number(name: Option<String>, id: u32) -> Seq<char> {
    match name {
        Some(name) => name@,
        None => decimal(id as nat),
    }
}

/// Permissions, links, owner, group, size and date in columns, each followed by a space.
pub open spec fn long_properties(e: RawEntry) -> Seq<char> {
    permissions(e.mode) + seq![' '] + right_aligned(decimal(e.nlink as nat), 2, ' ') + seq![' ']
        + left_aligned(name_or_number(e.owner, e.uid), 8) + seq![' '] + left_aligned(
        name_or_number(e.group, e.gid),
        8,
    ) + seq![' '] + right_aligned(decimal(e.size as nat), 5, ' ') + seq![' '] + e.date@ + seq![' ']
}

/// A modification less than six months of thirty days before `now`, or after it.
pub open spec fn is_recent(now: i64, mtime: Timestamp) -> bool {
    now - mtime.seconds_since_epoch() < RECENT_SECONDS
}

/// The text `yes` where `bit` is set in `mode`.
fn flag_text(mode: u32, bit: u32, yes: &'static str) -> (r: &'static str)
    requires
        yes@.len() == 1,
    ensures
        r@ == seq![flag(mode, bit, yes@[0])],
{
    proof {
        reveal_strlit("-");
    }
    if mode & bit != 0 {
        yes
    } else {
        "-"
    }
}

/// The letter of the type.
fn type_text(mode: u32) -> (r: &'static str)
    ensures
        r@ == seq![type_letter(mode)],
{
    proof {
        reveal_strlit("d");
        reveal_strlit("l");
        reveal_strlit("-");
    }
    if mode & S_IFMT == S_IFDIR {
        "d"
    } else if mode & S_IFMT == S_IFLNK {
        "l"
    } else {
        "-"
    }
}

/// The type and who may read, write and execute.
pub fn permission_string(mode: u32) -> (r: String)
    ensures
        r@ == permissions(mode),
{
    proof {
        reveal_strlit("r");
        reveal_strlit("w");
        reveal_strlit("x");
    }
    let mut r = type_text(mode).to_owned();
    r.append(flag_text(mode, S_IRUSR, "r"));
    r.append(flag_text(mode, S_IWUSR, "w"));
    r.append(flag_text(mode, S_IXUSR, "x"));
    r.append(flag_text(mode, S_IRGRP, "r"));
    r.append(flag_text(mode, S_IWGRP, "w"));
    r.append(flag_text(mode, S_IXGRP, "x"));
    r.append(flag_text(mode, S_IROTH, "r"));
    r.append(flag_text(mode, S_IWOTH, "w"));
    r.append(flag_text(mode, S_IXOTH, "x"));
    r
}

/// The name of a user or group, or the number where there is no name.
pub fn name_or_id(name: &Option<String>, id: u32) -> (r: String)
    ensures
        r@ == name_or_number(*name, id),
        name is Some ==> r@ == name->0@,
        name is None ==> r@ == decimal(id as nat),
{
    match name {
        Some(name) => name.clone(),
        None => decimal_text(id as u64),
    }
}

/// The pattern in which a modification time is written: with the time of day
/// while it is recent, with the year later on.
pub fn date_pattern(now: i64, mtime: &Timestamp) -> (r: &'static str)
    ensures
        r@ == (if is_recent(now, *mtime) {
            "%b %e %H:%M"@
        } else {
            "%b %e  %Y"@
        }),
{
    let age: i128 = now as i128 - mtime.epoch_seconds() as i128;
    if age < (RECENT_SECONDS as i128) {
        "%b %e %H:%M"
    } else {
        "%b %e  %Y"
    }
}

/// Permissions, links, owner, group, size and date of an entry.
pub fn format_properties(e: &RawEntry) -> (r: String)
    ensures
        r@ == long_properties(*e),
{
    proof {
        reveal_strlit(" ");
        assert(" "@ =~= seq![' ']);
    }
    let mut r = permission_string(e.mode);
    r.append(" ");
    r.append(align_right(decimal_text(e.nlink).as_str(), 2, " ").as_str());
    r.append(" ");
    r.append(align_left(name_or_id(&e.owner, e.uid).as_str(), 8).as_str());
    r.append(" ");
    r.append(align_left(name_or_id(&e.group, e.gid).as_str(), 8).as_str());
    r.append(" ");
    r.append(align_right(decimal_text(e.size).as_str(), 5, " ").as_str());
    r.append(" ");
    r.append(e.date.as_str());
    r.append(" ");
    r
}

/// Ten letters tell what an entry is and who may do what with it: `d` for a
/// folder, `l` for a link, and for owner, group and others in turn `r`, `w` and
/// `x` exactly where the bit is set.
pub proof fn permission_letters(mode: u32)
    ensures
        permissions(mode).len() == 10,
        mode & 0xf000 == 0x4000 ==> permissions(mode)[0] == 'd',
        mode & 0xf000 == 0xa000 ==> permissions(mode)[0] == 'l',
        mode & 0xf000 != 0x4000 && mode & 0xf000 != 0xa000 ==> permissions(mode)[0] == '-',
        permissions(mode)[1] == (if mode & 256 != 0 { 'r' } else { '-' }),
        permissions(mode)[2] == (if mode & 128 != 0 { 'w' } else { '-' }),
        permissions(mode)[3] == (if mode & 64 != 0 { 'x' } else { '-' }),
        permissions(mode)[4] == (if mode & 32 != 0 { 'r' } else { '-' }),
        permissions(mode)[5] == (if mode & 16 != 0 { 'w' } else { '-' }),
        permissions(mode)[6] == (if mode & 8 != 0 { 'x' } else { '-' }),
        permissions(mode)[7] == (if mode & 4 != 0 { 'r' } else { '-' }),
        permissions(mode)[8] == (if mode & 2 != 0 { 'w' } else { '-' }),
        permissions(mode)[9] == (if mode & 1 != 0 { 'x' } else { '-' }),
{
}

/// `text` is these columns, each followed by a space.
pub open spec fn is_row_of(text: Seq<char>, columns: Seq<Seq<char>>) -> bool
    decreases columns.len(),
{
    if columns.len() == 0 {
        text.len() == 0
    } else {
        let last = columns.last();
        let before = text.len() - 1 - last.len();
        &&& before >= 0
        &&& text.last() == ' '
        &&& text.subrange(before, text.len() - 1) == last
        &&& is_row_of(text.take(before), columns.drop_last())
    }
}

/// One column more at the end of a row.
proof fn one_column_more(text: Seq<char>, columns: Seq<Seq<char>>, column: Seq<char>)
    requires
        is_row_of(text, columns),
    ensures
        is_row_of(text + column + seq![' '], columns.push(column)),
{
    let longer = text + column + seq![' '];
    assert(longer.subrange(text.len() as int, longer.len() - 1) =~= column);
    assert(longer.take(text.len() as int) =~= text);
    assert(columns.push(column).drop_last() =~= columns);
}

/// The long properties are six columns in this order: the permissions, the
/// number of links, the owner, the group, the size and the date. Numbers stand
/// at the right of their column, names at the left. An owner or a group is
/// written as its name, and as its number only where it has no name.
pub proof fn long_properties_are_columns(e: RawEntry)
    ensures
        exists|columns: Seq<Seq<char>>| #[trigger]
            is_row_of(long_properties(e), columns) && {
                &&& columns.len() == 6
                &&& columns[0] == permissions(e.mode)
                &&& is_column(columns[1], decimal(e.nlink as nat), 2, ' ')
                &&& e.owner is Some ==> is_left_column(columns[2], e.owner->0@, 8)
                &&& e.owner is None ==> is_left_column(columns[2], decimal(e.uid as nat), 8)
                &&& e.group is Some ==> is_left_column(columns[3], e.group->0@, 8)
                &&& e.group is None ==> is_left_column(columns[3], decimal(e.gid as nat), 8)
                &&& is_column(columns[4], decimal(e.size as nat), 5, ' ')
                &&& columns[5] == e.date@
            },
{
    let space = seq![' '];
    let owner_name = name_or_number(e.owner, e.uid);
    let group_name = name_or_number(e.group, e.gid);
    let links = right_aligned(decimal(e.nlink as nat), 2, ' ');
    let owner = left_aligned(owner_name, 8);
    let group = left_aligned(group_name, 8);
    let size = right_aligned(decimal(e.size as nat), 5, ' ');
    columns_hold_their_text(decimal(e.nlink as nat), 2, ' ');
    columns_hold_their_text(owner_name, 8, ' ');
    columns_hold_their_text(group_name, 8, ' ');
    columns_hold_their_text(decimal(e.size as nat), 5, ' ');
    let none = Seq::<Seq<char>>::empty();
    let empty = Seq::<char>::empty();
    let c1 = none.push(permissions(e.mode));
    let c2 = c1.push(links);
    let c3 = c2.push(owner);
    let c4 = c3.push(group);
    let c5 = c4.push(size);
    let t1 = empty + permissions(e.mode) + space;
    let t2 = t1 + links + space;
    let t3 = t2 + owner + space;
    let t4 = t3 + group + space;
    let t5 = t4 + size + space;
    assert(is_row_of(empty, none));
    one_column_more(empty, none, permissions(e.mode));
    one_column_more(t1, c1, links);
    one_column_more(t2, c2, owner);
    one_column_more(t3, c3, group);
    one_column_more(t4, c4, size);
    one_column_more(t5, c5, e.date@);
    assert(t5 + e.date@ + space =~= long_properties(e));
    assert(is_row_of(long_properties(e), c5.push(e.date@)));
}

/// The time of day is told of a moment less than 180 days ago and of one to come,
/// the year of an older one. A moment before the epoch counts as the epoch.
pub proof fn recent_is_half_a_year(now: i64, mtime: Timestamp)
    ensures
        mtime.secs >= 0 ==> (is_recent(now, mtime) <==> now - mtime.secs < 180 * 24 * 3600),
        mtime.secs < 0 ==> (is_recent(now, mtime) <==> now < 180 * 24 * 3600),
{
}

}
