//! The extended search: everything below a folder, the nearest first.

use crate::entry::RawEntry;
use crate::listing::{is_arrangement, is_shown, SortMode};
use crate::path::{is_verbatim, join_entry, join_on, joins_behind, starts_anew, System};
use crate::text::starts_with_dot;
use std::collections::VecDeque;
use vstd::prelude::*;
use vstd::string::*;

verus! {

/// How many results a search gives at most.
pub const MAX_ITEMS: usize = 50_000;

/// What a folder's line in the results starts with.
pub const FOLDER_MARK: &'static str = "+ ";

/// What the line of anything else starts with.
pub const FILE_MARK: &'static str = "- ";

/// What follows each folder in a breadcrumb.
pub const CRUMB_END: &'static str = " > ";

/// A result of the search.
#[derive(Debug)]
pub struct SearchResult {
    pub label: String,
    /// The folders that lead to it from where the search began.
    pub breadcrumb: String,
    pub nav_path: String,
}

/// A result of the search, as values.
pub struct Hit {
    pub label: Seq<char>,
    pub breadcrumb: Seq<char>,
    pub nav_path: Seq<char>,
}

impl View for SearchResult {
    type V = Hit;

    open spec fn view(&self) -> Hit {
        Hit { label: self.label@, breadcrumb: self.breadcrumb@, nav_path: self.nav_path@ }
    }
}

/// A folder to look into. `place` is where the disk has it, and `path` how the
/// system writes that.
#[derive(Debug)]
pub struct Folder<P> {
    pub system: System,
    pub place: P,
    pub path: String,
    pub breadcrumb: String,
}

/// A folder to look into, as values.
pub struct Stop<P> {
    pub system: System,
    pub place: P,
    pub path: Seq<char>,
    pub breadcrumb: Seq<char>,
}

impl<P> View for Folder<P> {
    type V = Stop<P>;

    open spec fn view(&self) -> Stop<P> {
        Stop {
            system: self.system,
            place: self.place,
            path: self.path@,
            breadcrumb: self.breadcrumb@,
        }
    }
}

/// An entry of a folder that the search looks into.
#[derive(Debug)]
pub struct Found<P> {
    pub name: String,
    pub place: P,
    /// How the system writes the place.
    pub path: String,
    /// Whether it is a folder itself; a link is none. Nothing if it vanished.
    pub is_dir: Option<bool>,
}

/// The search finds an entry that is still there, unless it is hidden and
/// hidden ones are not shown.
pub open spec fn is_found<P>(show_hidden: bool, entry: Found<P>) -> bool {
    is_shown(show_hidden, entry.name@) && entry.is_dir is Some
}

/// The entries of a folder that become results, in order, as far as there is room.
pub open spec fn kept<P>(show_hidden: bool, entries: Seq<Found<P>>, room: int) -> Seq<Found<P>> {
    first_of(entries.filter(|entry: Found<P>| is_found(show_hidden, entry)), room)
}

/// The first `n` items, or all if there are fewer.
pub open spec fn first_of<A>(items: Seq<A>, n: int) -> Seq<A> {
    items.take(if n <= 0 {
        0
    } else if n < items.len() {
        n
    } else {
        items.len() as int
    })
}

/// The path of an entry of a folder: its name joined to the folder's path, and
/// where the system does more than write it behind, what the system wrote.
pub open spec fn entry_path<P>(folder: Stop<P>, entry: Found<P>) -> Seq<char> {
    if joins_behind(folder.system, folder.path, entry.name@) {
        join_on(folder.system, folder.path, entry.name@)
    } else {
        entry.path@
    }
}

/// The result for an entry of a folder.
pub open spec fn hit<P>(folder: Stop<P>, entry: Found<P>) -> Hit {
    Hit {
        label: (if entry.is_dir == Some(true) {
            FOLDER_MARK@
        } else {
            FILE_MARK@
        }) + entry.name@,
        breadcrumb: folder.breadcrumb,
        nav_path: entry_path(folder, entry),
    }
}

/// A folder found in a folder.
pub open spec fn inner<P>(folder: Stop<P>, entry: Found<P>) -> Stop<P> {
    Stop {
        system: folder.system,
        place: entry.place,
        path: entry_path(folder, entry),
        breadcrumb: folder.breadcrumb + entry.name@ + CRUMB_END@,
    }
}

/// The results for entries of a folder.
pub open spec fn hits<P>(folder: Stop<P>, entries: Seq<Found<P>>) -> Seq<Hit> {
    entries.map_values(|entry: Found<P>| hit(folder, entry))
}

/// The folders among entries of a folder.
pub open spec fn inner_folders<P>(folder: Stop<P>, entries: Seq<Found<P>>) -> Seq<Stop<P>> {
    entries.filter(|entry: Found<P>| entry.is_dir == Some(true)).map_values(
        |entry: Found<P>| inner(folder, entry),
    )
}

/// How far a search has come: the folders still to look into, and the results.
pub struct Progress<P> {
    pub waiting: Seq<Stop<P>>,
    pub found: Seq<Hit>,
}

/// What was found in `folder` is taken in: a result for each entry as long as
/// there is room, and each folder among them to look into later.
pub open spec fn take_in<P>(
    show_hidden: bool,
    at: Progress<P>,
    folder: Stop<P>,
    entries: Seq<Found<P>>,
) -> Progress<P> {
    let new = kept(show_hidden, entries, MAX_ITEMS - at.found.len());
    Progress {
        waiting: at.waiting + inner_folders(folder, new),
        found: at.found + hits(folder, new),
    }
}

/// The path of the folder or file that names lead to from `root`, each joined
/// to the path before it.
pub open spec fn path_down(system: System, root: Seq<char>, names: Seq<Seq<char>>) -> Seq<char>
    decreases names.len(),
{
    if names.len() == 0 {
        root
    } else {
        join_on(system, path_down(system, root, names.drop_last()), names.last())
    }
}

/// On the way down from `root` the system writes every name behind the path so far.
pub open spec fn joins_all_behind(
    system: System,
    root: Seq<char>,
    names: Seq<Seq<char>>,
) -> bool
    decreases names.len(),
{
    names.len() > 0 ==> {
        let before = names.drop_last();
        joins_all_behind(system, root, before) && joins_behind(
            system,
            path_down(system, root, before),
            names.last(),
        )
    }
}

/// The breadcrumb of the folders that lead somewhere.
pub open spec fn crumbs(names: Seq<Seq<char>>) -> Seq<char>
    decreases names.len(),
{
    if names.len() == 0 {
        Seq::empty()
    } else {
        crumbs(names.drop_last()) + names.last() + CRUMB_END@
    }
}

/// Every one of the names is shown.
pub open spec fn all_shown(show_hidden: bool, names: Seq<Seq<char>>) -> bool {
    forall|i: int| 0 <= i < names.len() ==> is_shown(show_hidden, #[trigger] names[i])
}

/// The names lead from `root` to this folder, and every one of them is shown.
pub open spec fn leads_to<P>(
    system: System,
    root: Seq<char>,
    show_hidden: bool,
    names: Seq<Seq<char>>,
    folder: Stop<P>,
) -> bool {
    &&& folder.system == system
    &&& joins_all_behind(system, root, names) ==> folder.path == path_down(system, root, names)
    &&& folder.breadcrumb == crumbs(names)
    &&& all_shown(show_hidden, names)
}

/// Names that are shown lead from `root` to this folder.
pub open spec fn is_reached<P>(
    system: System,
    root: Seq<char>,
    show_hidden: bool,
    folder: Stop<P>,
) -> bool {
    exists|names: Seq<Seq<char>>| leads_to(system, root, show_hidden, names, folder)
}

/// The result stands for what the names lead to from `root`, every one of them
/// is shown, and all but the last make up its breadcrumb.
pub open spec fn stands_for(
    system: System,
    root: Seq<char>,
    show_hidden: bool,
    names: Seq<Seq<char>>,
    result: Hit,
) -> bool {
    &&& names.len() > 0
    &&& all_shown(show_hidden, names)
    &&& result.label == FOLDER_MARK@ + names.last() || result.label == FILE_MARK@ + names.last()
    &&& result.breadcrumb == crumbs(names.drop_last())
    &&& joins_all_behind(system, root, names) ==> result.nav_path == path_down(
        system,
        root,
        names,
    )
}

/// The result stands for something that names that are shown lead to from `root`.
pub open spec fn is_below(
    system: System,
    root: Seq<char>,
    show_hidden: bool,
    result: Hit,
) -> bool {
    exists|names: Seq<Seq<char>>| stands_for(system, root, show_hidden, names, result)
}

/// A folder, and what was seen in it and below: `seen` tells whether an entry was
/// seen at a place.
#[verifier::reject_recursive_types(P)]
pub struct Tree<P> {
    pub root: Stop<P>,
    pub seen: spec_fn(P, Found<P>) -> bool,
}

/// Where a way down from the root ends.
pub open spec fn end_of<P>(tree: Tree<P>, way: Seq<Found<P>>) -> P {
    if way.len() == 0 {
        tree.root.place
    } else {
        way.last().place
    }
}

/// The entries lead down from the root: each was seen where the way before it
/// ends, is there, and all but the last are folders. None is hidden, unless
/// hidden ones are shown.
pub open spec fn is_way<P>(tree: Tree<P>, show_hidden: bool, way: Seq<Found<P>>) -> bool
    decreases way.len(),
{
    way.len() > 0 ==> {
        let before = way.drop_last();
        let name = way.last().name@;
        &&& is_way(tree, show_hidden, before)
        &&& before.len() > 0 ==> before.last().is_dir == Some(true)
        &&& (tree.seen)(end_of(tree, before), way.last())
        &&& way.last().is_dir is Some
        &&& show_hidden || name.len() == 0 || name[0] != '.'
    }
}

/// The names along a way.
pub open spec fn names_of<P>(way: Seq<Found<P>>) -> Seq<Seq<char>> {
    way.map_values(|entry: Found<P>| entry.name@)
}

/// A way down from the root ends at this folder.
pub open spec fn ends_at<P>(
    tree: Tree<P>,
    show_hidden: bool,
    way: Seq<Found<P>>,
    folder: Stop<P>,
) -> bool {
    &&& is_way(tree, show_hidden, way)
    &&& way.len() > 0 ==> way.last().is_dir == Some(true)
    &&& folder.system == tree.root.system
    &&& folder.place == end_of(tree, way)
    &&& folder.breadcrumb == crumbs(names_of(way))
    &&& joins_all_behind(tree.root.system, tree.root.path, names_of(way)) ==> folder.path
        == path_down(tree.root.system, tree.root.path, names_of(way))
}

/// The result tells of the entry at the end of a way down from the root: its mark
/// whether the entry is a folder, and behind it the entry's name; the folders
/// before the entry; and the path of the entry.
pub open spec fn tells_of<P>(
    tree: Tree<P>,
    show_hidden: bool,
    way: Seq<Found<P>>,
    result: Hit,
) -> bool {
    &&& way.len() > 0
    &&& is_way(tree, show_hidden, way)
    &&& way.last().is_dir == Some(true) ==> result.label == "+ "@ + way.last().name@
    &&& way.last().is_dir != Some(true) ==> result.label == "- "@ + way.last().name@
    &&& result.breadcrumb == crumbs(names_of(way.drop_last()))
    &&& joins_all_behind(tree.root.system, tree.root.path, names_of(way)) ==> result.nav_path
        == path_down(tree.root.system, tree.root.path, names_of(way))
}

/// The folder is at the end of a way down from the root.
pub open spec fn is_seen<P>(tree: Tree<P>, show_hidden: bool, folder: Stop<P>) -> bool {
    exists|way: Seq<Found<P>>| ends_at(tree, show_hidden, way, folder)
}

/// The result tells of an entry at the end of a way down from the root.
pub open spec fn is_told<P>(tree: Tree<P>, show_hidden: bool, result: Hit) -> bool {
    exists|way: Seq<Found<P>>| tells_of(tree, show_hidden, way, result)
}

/// A search under way: the folders still to look into, and the results so far.
#[derive(Debug)]
pub struct ExtendedSearch<P> {
    pub show_hidden: bool,
    pub queue: VecDeque<Folder<P>>,
    pub results: Vec<SearchResult>,
}

impl<P> ExtendedSearch<P> {
    /// The folders still to look into, in order.
    pub open spec fn waiting(self) -> Seq<Stop<P>> {
        self.queue@.map_values(|folder: Folder<P>| folder@)
    }

    /// The results so far, in order.
    pub open spec fn found(self) -> Seq<Hit> {
        self.results@.map_values(|result: SearchResult| result@)
    }

    /// How far the search has come.
    pub open spec fn progress(self) -> Progress<P> {
        Progress { waiting: self.waiting(), found: self.found() }
    }

    /// Whatever the search has found or will look into lies below `root`, and
    /// neither it nor a folder on the way to it is hidden, unless hidden ones
    /// are shown.
    pub open spec fn stays_below(self, system: System, root: Seq<char>) -> bool {
        &&& forall|i: int|
            0 <= i < self.waiting().len() ==> is_reached(
                system,
                root,
                self.show_hidden,
                #[trigger] self.waiting()[i],
            )
        &&& forall|i: int|
            0 <= i < self.found().len() ==> is_below(
                system,
                root,
                self.show_hidden,
                #[trigger] self.found()[i],
            )
    }

    /// Every folder still to look into is one that was seen on a way down from the
    /// root, and every result tells of an entry that was.
    pub open spec fn is_true_to(self, tree: Tree<P>) -> bool {
        &&& forall|i: int|
            0 <= i < self.waiting().len() ==> is_seen(
                tree,
                self.show_hidden,
                #[trigger] self.waiting()[i],
            )
        &&& forall|i: int|
            0 <= i < self.found().len() ==> is_told(
                tree,
                self.show_hidden,
                #[trigger] self.found()[i],
            )
    }

    /// A search from the folder at `place`, whose path the system writes `path`.
    pub fn new(system: System, place: P, path: String, show_hidden: bool) -> (r: Self)
        ensures
            r.show_hidden == show_hidden,
            r.waiting() == seq![Stop { system, place, path: path@, breadcrumb: Seq::empty() }],
            r.found() == Seq::<Hit>::empty(),
            r.stays_below(system, path@),
            forall|tree: Tree<P>|
                tree.root == (Stop { system, place, path: path@, breadcrumb: Seq::<char>::empty() })
                    ==> #[trigger] r.is_true_to(tree),
    {
        let breadcrumb = String::new();
        let folder = Folder { system, place, path, breadcrumb };
        let mut queue: VecDeque<Folder<P>> = VecDeque::new();
        queue.push_back(folder);
        let search = ExtendedSearch { show_hidden, queue, results: Vec::new() };
        proof {
            assert(breadcrumb@ =~= Seq::empty());
            assert(search.waiting() =~= seq![folder@]);
            assert(search.found() =~= Seq::empty());
            assert(leads_to(system, path@, show_hidden, Seq::empty(), folder@));
            assert forall|tree: Tree<P>| tree.root == folder@ implies #[trigger] search.is_true_to(
                tree,
            ) by {
                let way = Seq::<Found<P>>::empty();
                assert(names_of(way) =~= Seq::<Seq<char>>::empty());
                assert(ends_at(tree, show_hidden, way, folder@));
            }
        }
        search
    }

    /// The folder to look into next: the one that waited longest, none once
    /// there are as many results as there may be.
    pub fn next_folder(&mut self) -> (r: Option<Folder<P>>)
        ensures
            final(self).show_hidden == old(self).show_hidden,
            final(self).found() == old(self).found(),
            match r {
                Some(folder) => {
                    &&& old(self).waiting().len() > 0
                    &&& old(self).found().len() < MAX_ITEMS
                    &&& folder@ == old(self).waiting()[0]
                    &&& final(self).waiting() == old(self).waiting().skip(1)
                },
                None => {
                    &&& old(self).waiting().len() == 0 || old(self).found().len() >= MAX_ITEMS
                    &&& final(self).waiting() == old(self).waiting()
                },
            },
            forall|system: System, root: Seq<char>| #[trigger]
                old(self).stays_below(system, root) ==> final(self).stays_below(system, root) && (r is Some
                    ==> is_reached(system, root, old(self).show_hidden, r->0@)),
            forall|tree: Tree<P>| #[trigger]
                old(self).is_true_to(tree) ==> final(self).is_true_to(tree) && (r is Some
                    ==> is_seen(tree, old(self).show_hidden, r->0@)),
    {
        if self.results.len() >= MAX_ITEMS {
            return None;
        }
        let folder = self.queue.pop_front();
        proof {
            if folder is Some {
                assert(self.waiting() =~= old(self).waiting().skip(1));
                assert forall|system: System, root: Seq<char>| #[trigger]
                    old(self).stays_below(system, root) implies self.stays_below(system, root) && is_reached(
                    system,
                    root,
                    self.show_hidden,
                    folder->0@,
                ) by {
                    assert(folder->0@ == old(self).waiting()[0]);
                    assert forall|i: int| 0 <= i < self.waiting().len() implies is_reached(
                        system,
                        root,
                        self.show_hidden,
                        #[trigger] self.waiting()[i],
                    ) by {
                        assert(self.waiting()[i] == old(self).waiting()[i + 1]);
                    }
                }
                assert forall|tree: Tree<P>| #[trigger]
                    old(self).is_true_to(tree) implies self.is_true_to(tree) && is_seen(
                    tree,
                    self.show_hidden,
                    folder->0@,
                ) by {
                    assert(folder->0@ == old(self).waiting()[0]);
                    assert forall|i: int| 0 <= i < self.waiting().len() implies is_seen(
                        tree,
                        self.show_hidden,
                        #[trigger] self.waiting()[i],
                    ) by {
                        assert(self.waiting()[i] == old(self).waiting()[i + 1]);
                    }
                }
            }
        }
        folder
    }

    /// Take in what was found in `folder`: a result for each entry as long as
    /// there is room, and each folder among them to look into later.
    pub fn visit(&mut self, folder: Folder<P>, entries: Vec<Found<P>>)
        ensures
            final(self).show_hidden == old(self).show_hidden,
            final(self).progress() == take_in(
                old(self).show_hidden,
                old(self).progress(),
                folder@,
                entries@,
            ),
            old(self).found().len() <= MAX_ITEMS ==> final(self).found().len() <= MAX_ITEMS,
            forall|system: System, root: Seq<char>| #[trigger]
                old(self).stays_below(system, root) && is_reached(system, root, old(self).show_hidden, folder@)
                    ==> final(self).stays_below(system, root),
            forall|tree: Tree<P>| #[trigger]
                old(self).is_true_to(tree) && is_seen(tree, old(self).show_hidden, folder@) && (
                forall|i: int|
                    0 <= i < entries@.len() ==> (tree.seen)(folder.place, #[trigger] entries@[i]))
                    ==> final(self).is_true_to(tree),
    {
        let ghost found_before = self.found();
        let ghost waiting_before = self.waiting();
        let ghost room = MAX_ITEMS - found_before.len();
        let ghost show = self.show_hidden;
        proof {
            assert(entries@.take(0) =~= Seq::empty());
            none_kept(show, room, folder@);
        }
        for entry in it: entries
            invariant
                it.seq() == entries@,
                self.show_hidden == show,
                room == MAX_ITEMS - found_before.len(),
                self.found() == found_before + hits(
                    folder@,
                    kept(show, entries@.take(it.index()), room),
                ),
                self.waiting() == waiting_before + inner_folders(
                    folder@,
                    kept(show, entries@.take(it.index()), room),
                ),
        {
            let ghost so_far = kept(show, entries@.take(it.index()), room);
            proof {
                let k = it.index();
                assert(entries@.take(k + 1) =~= entries@.take(k).push(entry));
                keep_next(show, entries@.take(k), entry, room);
                grow(folder@, so_far, entry);
            }
            let ghost results_before = self.results@;
            let ghost queue_before = self.queue@;
            if self.results.len() < MAX_ITEMS && (self.show_hidden || !starts_with_dot(
                entry.name.as_str(),
            )) {
                match entry.is_dir {
                    Some(is_dir) => {
                        let mark = if is_dir {
                            FOLDER_MARK
                        } else {
                            FILE_MARK
                        };
                        let label = mark.to_owned().concat(entry.name.as_str());
                        let path = match join_entry(
                            folder.system,
                            folder.path.as_str(),
                            entry.name.as_str(),
                        ) {
                            Some(path) => path,
                            None => entry.path.clone(),
                        };
                        let result = SearchResult {
                            label,
                            breadcrumb: folder.breadcrumb.clone(),
                            nav_path: path.clone(),
                        };
                        proof {
                            assert(result@ == hit(folder@, entry));
                        }
                        self.results.push(result);
                        proof {
                            assert(self.found() =~= results_before.map_values(
                                |result: SearchResult| result@,
                            ).push(result@));
                        }
                        if is_dir {
                            let breadcrumb = folder.breadcrumb.clone().concat(
                                entry.name.as_str(),
                            ).concat(CRUMB_END);
                            let next = Folder {
                                system: folder.system,
                                place: entry.place,
                                path,
                                breadcrumb,
                            };
                            proof {
                                assert(next@ == inner(folder@, entry));
                            }
                            self.queue.push_back(next);
                            proof {
                                assert(self.waiting() =~= queue_before.map_values(
                                    |folder: Folder<P>| folder@,
                                ).push(next@));
                            }
                        }
                    },
                    None => {},
                }
            }
        }
        proof {
            assert(entries@.take(entries@.len() as int) =~= entries@);
            let new = kept(show, entries@, room);
            assert(room >= 0 ==> new.len() <= room);
            assert forall|system: System, root: Seq<char>| #[trigger]
                old(self).stays_below(system, root) && is_reached(system, root, show, folder@) implies
                self.stays_below(system, root) by {
                kept_are_below(system, root, show, folder@, entries@, room);
                assert forall|i: int| 0 <= i < self.waiting().len() implies is_reached(
                    system,
                    root,
                    show,
                    #[trigger] self.waiting()[i],
                ) by {
                    if i < waiting_before.len() {
                        assert(self.waiting()[i] == waiting_before[i]);
                    } else {
                        assert(self.waiting()[i] == inner_folders(folder@, new)[i
                            - waiting_before.len()]);
                    }
                }
                assert forall|i: int| 0 <= i < self.found().len() implies is_below(
                    system,
                    root,
                    show,
                    #[trigger] self.found()[i],
                ) by {
                    if i < found_before.len() {
                        assert(self.found()[i] == found_before[i]);
                    } else {
                        assert(self.found()[i] == hits(folder@, new)[i - found_before.len()]);
                    }
                }
            }
            assert forall|tree: Tree<P>| #[trigger]
                old(self).is_true_to(tree) && is_seen(tree, show, folder@) && (forall|i: int|
                    0 <= i < entries@.len() ==> (tree.seen)(
                        folder.place,
                        #[trigger] entries@[i],
                    )) implies self.is_true_to(tree) by {
                kept_are_seen(tree, show, folder@, entries@, room);
                assert forall|i: int| 0 <= i < self.waiting().len() implies is_seen(
                    tree,
                    show,
                    #[trigger] self.waiting()[i],
                ) by {
                    if i < waiting_before.len() {
                        assert(self.waiting()[i] == waiting_before[i]);
                        assert(old(self).waiting()[i] == self.waiting()[i]);
                    } else {
                        assert(self.waiting()[i] == inner_folders(folder@, new)[i
                            - waiting_before.len()]);
                    }
                }
                assert forall|i: int| 0 <= i < self.found().len() implies is_told(
                    tree,
                    show,
                    #[trigger] self.found()[i],
                ) by {
                    if i < found_before.len() {
                        assert(self.found()[i] == found_before[i]);
                        assert(old(self).found()[i] == self.found()[i]);
                    } else {
                        assert(self.found()[i] == hits(folder@, new)[i - found_before.len()]);
                    }
                }
            }
        }
    }

    /// What the search found.
    pub fn into_results(self) -> (r: Vec<SearchResult>)
        ensures
            r@ == self.results@,
    {
        self.results
    }
}

/// Nothing is kept of no entries.
proof fn none_kept<P>(show_hidden: bool, room: int, folder: Stop<P>)
    ensures
        kept(show_hidden, Seq::<Found<P>>::empty(), room) == Seq::<Found<P>>::empty(),
        hits(folder, Seq::empty()) == Seq::<Hit>::empty(),
        inner_folders(folder, Seq::empty()) == Seq::<Stop<P>>::empty(),
{
    reveal(Seq::filter);
    assert(kept(show_hidden, Seq::<Found<P>>::empty(), room) =~= Seq::empty());
    assert(hits(folder, Seq::empty()) =~= Seq::<Hit>::empty());
    assert(inner_folders(folder, Seq::empty()) =~= Seq::<Stop<P>>::empty());
}

/// What is kept of the entries of a folder below `root` lies below it too.
proof fn kept_are_below<P>(
    system: System,
    root: Seq<char>,
    show_hidden: bool,
    folder: Stop<P>,
    entries: Seq<Found<P>>,
    room: int,
)
    requires
        is_reached(system, root, show_hidden, folder),
    ensures
        forall|i: int|
            0 <= i < hits(folder, kept(show_hidden, entries, room)).len() ==> is_below(
                system,
                root,
                show_hidden,
                #[trigger] hits(folder, kept(show_hidden, entries, room))[i],
            ),
        forall|i: int|
            0 <= i < inner_folders(folder, kept(show_hidden, entries, room)).len() ==> is_reached(
                system,
                root,
                show_hidden,
                #[trigger] inner_folders(folder, kept(show_hidden, entries, room))[i],
            ),
{
    let names = choose|names: Seq<Seq<char>>| leads_to(system, root, show_hidden, names, folder);
    let new = kept(show_hidden, entries, room);
    let found = |entry: Found<P>| is_found(show_hidden, entry);
    assert forall|i: int| 0 <= i < new.len() implies is_found(show_hidden, #[trigger] new[i]) by {
        entries.lemma_filter_pred(found, i);
    }
    assert forall|i: int| 0 <= i < hits(folder, new).len() implies is_below(
        system,
        root,
        show_hidden,
        #[trigger] hits(folder, new)[i],
    ) by {
        let longer = names.push(new[i].name@);
        assert(longer.drop_last() =~= names);
        assert(stands_for(system, root, show_hidden, longer, hits(folder, new)[i]));
    }
    let is_folder = |entry: Found<P>| entry.is_dir == Some(true);
    let folders = new.filter(is_folder);
    assert forall|i: int| 0 <= i < inner_folders(folder, new).len() implies is_reached(
        system,
        root,
        show_hidden,
        #[trigger] inner_folders(folder, new)[i],
    ) by {
        filter_takes_from(new, is_folder, i);
        let longer = names.push(folders[i].name@);
        assert(longer.drop_last() =~= names);
        assert(leads_to(system, root, show_hidden, longer, inner_folders(folder, new)[i]));
    }
}

/// What is kept of the entries seen in a folder is on a way down from the root.
proof fn kept_are_seen<P>(
    tree: Tree<P>,
    show_hidden: bool,
    folder: Stop<P>,
    entries: Seq<Found<P>>,
    room: int,
)
    requires
        is_seen(tree, show_hidden, folder),
        forall|i: int|
            0 <= i < entries.len() ==> (tree.seen)(folder.place, #[trigger] entries[i]),
    ensures
        forall|i: int|
            0 <= i < hits(folder, kept(show_hidden, entries, room)).len() ==> is_told(
                tree,
                show_hidden,
                #[trigger] hits(folder, kept(show_hidden, entries, room))[i],
            ),
        forall|i: int|
            0 <= i < inner_folders(folder, kept(show_hidden, entries, room)).len() ==> is_seen(
                tree,
                show_hidden,
                #[trigger] inner_folders(folder, kept(show_hidden, entries, room))[i],
            ),
{
    let way = choose|way: Seq<Found<P>>| ends_at(tree, show_hidden, way, folder);
    let new = kept(show_hidden, entries, room);
    let found = |entry: Found<P>| is_found(show_hidden, entry);
    assert forall|i: int| 0 <= i < new.len() implies is_found(show_hidden, #[trigger] new[i]) && (
    tree.seen)(folder.place, new[i]) by {
        entries.lemma_filter_pred(found, i);
        filter_takes_from(entries, found, i);
    }
    assert forall|i: int| 0 <= i < hits(folder, new).len() implies is_told(
        tree,
        show_hidden,
        #[trigger] hits(folder, new)[i],
    ) by {
        let longer = way.push(new[i]);
        assert(longer.drop_last() =~= way);
        assert(names_of(longer).drop_last() =~= names_of(way));
        assert(names_of(longer).last() == new[i].name@);
        assert(is_way(tree, show_hidden, longer));
        assert(tells_of(tree, show_hidden, longer, hits(folder, new)[i]));
    }
    let is_folder = |entry: Found<P>| entry.is_dir == Some(true);
    let folders = new.filter(is_folder);
    assert forall|i: int| 0 <= i < inner_folders(folder, new).len() implies is_seen(
        tree,
        show_hidden,
        #[trigger] inner_folders(folder, new)[i],
    ) by {
        filter_takes_from(new, is_folder, i);
        new.lemma_filter_pred(is_folder, i);
        let longer = way.push(folders[i]);
        assert(longer.drop_last() =~= way);
        assert(names_of(longer).drop_last() =~= names_of(way));
        assert(names_of(longer).last() == folders[i].name@);
        assert(is_way(tree, show_hidden, longer));
        assert(ends_at(tree, show_hidden, longer, inner_folders(folder, new)[i]));
    }
}

/// What a filter leaves was there before.
proof fn filter_takes_from<A>(items: Seq<A>, pred: spec_fn(A) -> bool, i: int)
    requires
        0 <= i < items.filter(pred).len(),
    ensures
        exists|j: int| 0 <= j < items.len() && #[trigger] items[j] == items.filter(pred)[i],
    decreases items.len(),
{
    reveal(Seq::filter);
    let shorter = items.drop_last();
    if i < shorter.filter(pred).len() {
        filter_takes_from(shorter, pred, i);
        let j = choose|j: int|
            0 <= j < shorter.len() && #[trigger] shorter[j] == shorter.filter(pred)[i];
        assert(items[j] == items.filter(pred)[i]);
    } else {
        assert(items[items.len() - 1] == items.filter(pred)[i]);
    }
}

/// One entry more is kept if it is found and there is room.
proof fn keep_next<P>(show_hidden: bool, entries: Seq<Found<P>>, entry: Found<P>, room: int)
    ensures
        kept(show_hidden, entries.push(entry), room) == if is_found(show_hidden, entry) && kept(
            show_hidden,
            entries,
            room,
        ).len() < room {
            kept(show_hidden, entries, room).push(entry)
        } else {
            kept(show_hidden, entries, room)
        },
{
    reveal(Seq::filter);
    assert(entries.push(entry).drop_last() =~= entries);
    let all = entries.filter(|entry: Found<P>| is_found(show_hidden, entry));
    if is_found(show_hidden, entry) {
        if kept(show_hidden, entries, room).len() < room {
            assert(first_of(all.push(entry), room) =~= first_of(all, room).push(entry));
        } else {
            assert(first_of(all.push(entry), room) =~= first_of(all, room));
        }
    }
}

/// One entry more gives one result more, and one folder more if it is one.
proof fn grow<P>(folder: Stop<P>, entries: Seq<Found<P>>, entry: Found<P>)
    ensures
        hits(folder, entries.push(entry)) == hits(folder, entries).push(hit(folder, entry)),
        inner_folders(folder, entries.push(entry)) == if entry.is_dir == Some(true) {
            inner_folders(folder, entries).push(inner(folder, entry))
        } else {
            inner_folders(folder, entries)
        },
{
    reveal(Seq::filter);
    assert(entries.push(entry).drop_last() =~= entries);
    assert(hits(folder, entries.push(entry)) =~= hits(folder, entries).push(hit(folder, entry)));
    if entry.is_dir == Some(true) {
        assert(inner_folders(folder, entries.push(entry)) =~= inner_folders(folder, entries).push(
            inner(folder, entry),
        ));
    }
}

/// Where there is room, the search finds in a folder what its listing shows.
pub proof fn search_agrees_with_listing<P>(
    mode: SortMode,
    show_hidden: bool,
    listed: Seq<RawEntry>,
    places: Seq<usize>,
    entries: Seq<Found<P>>,
)
    requires
        is_arrangement(mode, show_hidden, listed, places),
        listed.len() == entries.len(),
        forall|i: int|
            0 <= i < entries.len() ==> (#[trigger] entries[i]).name@ == listed[i].name@
                && entries[i].is_dir is Some,
    ensures
        forall|i: usize|
            i < listed.len() ==> (#[trigger] places.contains(i) <==> kept(
                show_hidden,
                entries,
                entries.len() as int,
            ).contains(entries[i as int])),
{
    let found = |entry: Found<P>| is_found(show_hidden, entry);
    let all = entries.filter(found);
    entries.lemma_filter_len(found);
    assert(kept(show_hidden, entries, entries.len() as int) =~= all);
    assert forall|i: usize| i < listed.len() implies (#[trigger] places.contains(i)
        <==> all.contains(entries[i as int])) by {
        if found(entries[i as int]) {
            entries.lemma_filter_contains(found, i as int);
        }
        if all.contains(entries[i as int]) {
            let j = choose|j: int| 0 <= j < all.len() && all[j] == entries[i as int];
            entries.lemma_filter_pred(found, j);
        }
    }
}

/// A search looks into its next folder, of which `disk` tells the entries.
pub open spec fn step<P>(
    show_hidden: bool,
    disk: spec_fn(P) -> Seq<Found<P>>,
    at: Progress<P>,
) -> Progress<P> {
    if at.waiting.len() == 0 || at.found.len() >= MAX_ITEMS {
        at
    } else {
        take_in(
            show_hidden,
            Progress { waiting: at.waiting.skip(1), found: at.found },
            at.waiting[0],
            disk(at.waiting[0].place),
        )
    }
}

/// A search looks into its next `n` folders.
pub open spec fn steps<P>(
    show_hidden: bool,
    disk: spec_fn(P) -> Seq<Found<P>>,
    at: Progress<P>,
    n: nat,
) -> Progress<P>
    decreases n,
{
    if n == 0 {
        at
    } else {
        steps(show_hidden, disk, step(show_hidden, disk, at), (n - 1) as nat)
    }
}

/// The entries of a folder that a search with room for all of them finds.
pub open spec fn all_found<P>(show_hidden: bool, entries: Seq<Found<P>>) -> Seq<Found<P>> {
    entries.filter(|entry: Found<P>| is_found(show_hidden, entry))
}

/// What there is in some folders, one folder after the other.
pub open spec fn hits_in<P>(
    show_hidden: bool,
    disk: spec_fn(P) -> Seq<Found<P>>,
    folders: Seq<Stop<P>>,
) -> Seq<Hit>
    decreases folders.len(),
{
    if folders.len() == 0 {
        Seq::empty()
    } else {
        hits(folders[0], all_found(show_hidden, disk(folders[0].place))) + hits_in(
            show_hidden,
            disk,
            folders.skip(1),
        )
    }
}

/// The folders in some folders, one folder after the other.
pub open spec fn folders_in<P>(
    show_hidden: bool,
    disk: spec_fn(P) -> Seq<Found<P>>,
    folders: Seq<Stop<P>>,
) -> Seq<Stop<P>>
    decreases folders.len(),
{
    if folders.len() == 0 {
        Seq::empty()
    } else {
        inner_folders(folders[0], all_found(show_hidden, disk(folders[0].place))) + folders_in(
            show_hidden,
            disk,
            folders.skip(1),
        )
    }
}

/// The folders `depth` levels below `root`.
pub open spec fn level<P>(
    show_hidden: bool,
    disk: spec_fn(P) -> Seq<Found<P>>,
    root: Stop<P>,
    depth: nat,
) -> Seq<Stop<P>>
    decreases depth,
{
    if depth == 0 {
        seq![root]
    } else {
        folders_in(show_hidden, disk, level(show_hidden, disk, root, (depth - 1) as nat))
    }
}

/// What there is in the folders of the first `depth` levels, level by level.
pub open spec fn hits_above<P>(
    show_hidden: bool,
    disk: spec_fn(P) -> Seq<Found<P>>,
    root: Stop<P>,
    depth: nat,
) -> Seq<Hit>
    decreases depth,
{
    if depth == 0 {
        Seq::empty()
    } else {
        let above = (depth - 1) as nat;
        hits_above(show_hidden, disk, root, above) + hits_in(
            show_hidden,
            disk,
            level(show_hidden, disk, root, above),
        )
    }
}

/// How many folders the first `depth` levels have.
pub open spec fn folders_above<P>(
    show_hidden: bool,
    disk: spec_fn(P) -> Seq<Found<P>>,
    root: Stop<P>,
    depth: nat,
) -> nat
    decreases depth,
{
    if depth == 0 {
        0
    } else {
        let above = (depth - 1) as nat;
        folders_above(show_hidden, disk, root, above) + level(show_hidden, disk, root, above).len()
    }
}

/// Steps after steps are steps.
proof fn steps_add_up<P>(
    show_hidden: bool,
    disk: spec_fn(P) -> Seq<Found<P>>,
    at: Progress<P>,
    m: nat,
    n: nat,
)
    ensures
        steps(show_hidden, disk, at, m + n) == steps(
            show_hidden,
            disk,
            steps(show_hidden, disk, at, m),
            n,
        ),
    decreases m,
{
    if m > 0 {
        steps_add_up(show_hidden, disk, step(show_hidden, disk, at), (m - 1) as nat, n);
        assert((m + n - 1) as nat == (m - 1) as nat + n);
    }
}

/// A search that has as many results as there may be stays where it is.
proof fn full_search_rests<P>(
    show_hidden: bool,
    disk: spec_fn(P) -> Seq<Found<P>>,
    at: Progress<P>,
    n: nat,
)
    requires
        at.found.len() >= MAX_ITEMS,
    ensures
        steps(show_hidden, disk, at, n) == at,
    decreases n,
{
    if n > 0 {
        full_search_rests(show_hidden, disk, at, (n - 1) as nat);
    }
}

/// Once there are enough items, more behind them change nothing of the first.
proof fn first_of_enough<A>(items: Seq<A>, more: Seq<A>, n: int)
    requires
        0 <= n <= items.len(),
    ensures
        first_of(items + more, n) == first_of(items, n),
{
    assert(first_of(items + more, n) =~= first_of(items, n));
}

/// A search that has some folders to look into first adds what there is in
/// them, as far as there is room, and with room for more than that, the folders
/// in them behind all that wait already.
proof fn folders_in_turn<P>(
    show_hidden: bool,
    disk: spec_fn(P) -> Seq<Found<P>>,
    folders: Seq<Stop<P>>,
    behind: Seq<Stop<P>>,
    found: Seq<Hit>,
)
    requires
        found.len() <= MAX_ITEMS,
    ensures
        ({
            let after = steps(
                show_hidden,
                disk,
                Progress { waiting: folders + behind, found },
                folders.len(),
            );
            let all = found + hits_in(show_hidden, disk, folders);
            &&& after.found == first_of(all, MAX_ITEMS as int)
            &&& all.len() < MAX_ITEMS ==> after.waiting == behind + folders_in(
                show_hidden,
                disk,
                folders,
            )
        }),
    decreases folders.len(),
{
    let limit = MAX_ITEMS as int;
    let at = Progress { waiting: folders + behind, found };
    let total = found + hits_in(show_hidden, disk, folders);
    if folders.len() == 0 {
        assert(folders + behind =~= behind);
        assert(behind + folders_in(show_hidden, disk, folders) =~= behind);
        assert(first_of(total, limit) =~= found);
    } else if found.len() >= MAX_ITEMS {
        full_search_rests(show_hidden, disk, at, folders.len());
        assert(first_of(total, limit) =~= found);
    } else {
        let folder = folders[0];
        let rest = folders.skip(1);
        let all = all_found(show_hidden, disk(folder.place));
        let new = kept(show_hidden, disk(folder.place), MAX_ITEMS - found.len());
        let here = found + hits(folder, all);
        let after = step(show_hidden, disk, at);
        assert(at.waiting[0] == folder);
        assert(at.waiting.skip(1) =~= rest + behind);
        assert(after.found == found + hits(folder, new));
        assert(total =~= here + hits_in(show_hidden, disk, rest));
        assert(steps(show_hidden, disk, at, folders.len()) == steps(
            show_hidden,
            disk,
            after,
            rest.len(),
        ));
        if here.len() <= MAX_ITEMS {
            assert(new =~= all);
            assert(after.waiting =~= rest + (behind + inner_folders(folder, all)));
            folders_in_turn(
                show_hidden,
                disk,
                rest,
                behind + inner_folders(folder, all),
                here,
            );
            assert(behind + inner_folders(folder, all) + folders_in(show_hidden, disk, rest)
                =~= behind + folders_in(show_hidden, disk, folders));
        } else {
            assert(after.found =~= first_of(here, limit));
            full_search_rests(show_hidden, disk, after, rest.len());
            first_of_enough(here, hits_in(show_hidden, disk, rest), limit);
        }
    }
}

/// The search is breadth first: it finds what there is in the folders of one
/// level, folder by folder, before anything in a folder of the next, up to as
/// many results as there may be. As long as it has fewer, the folders of the
/// next level are those it looks into next.
pub proof fn search_is_breadth_first<P>(
    show_hidden: bool,
    disk: spec_fn(P) -> Seq<Found<P>>,
    root: Stop<P>,
    depth: nat,
)
    ensures
        ({
            let after = steps(
                show_hidden,
                disk,
                Progress { waiting: seq![root], found: Seq::empty() },
                folders_above(show_hidden, disk, root, depth),
            );
            let all = hits_above(show_hidden, disk, root, depth);
            &&& after.found == first_of(all, MAX_ITEMS as int)
            &&& all.len() < MAX_ITEMS ==> after.waiting == level(show_hidden, disk, root, depth)
        }),
    decreases depth,
{
    let limit = MAX_ITEMS as int;
    let start = Progress { waiting: seq![root], found: Seq::<Hit>::empty() };
    if depth == 0 {
        assert(first_of(Seq::<Hit>::empty(), limit) =~= Seq::<Hit>::empty());
    } else {
        let above = (depth - 1) as nat;
        let here = level(show_hidden, disk, root, above);
        let found = hits_above(show_hidden, disk, root, above);
        let before = steps(
            show_hidden,
            disk,
            start,
            folders_above(show_hidden, disk, root, above),
        );
        search_is_breadth_first(show_hidden, disk, root, above);
        steps_add_up(
            show_hidden,
            disk,
            start,
            folders_above(show_hidden, disk, root, above),
            here.len(),
        );
        if found.len() < MAX_ITEMS {
            assert(first_of(found, limit) =~= found);
            folders_in_turn(show_hidden, disk, here, Seq::empty(), found);
            assert(here + Seq::<Stop<P>>::empty() =~= here);
            assert(Seq::<Stop<P>>::empty() + folders_in(show_hidden, disk, here) =~= level(
                show_hidden,
                disk,
                root,
                depth,
            ));
        } else {
            full_search_rests(show_hidden, disk, before, here.len());
            first_of_enough(found, hits_in(show_hidden, disk, here), limit);
        }
    }
}

/// With slashes, the path of whatever a search finds is the names that lead to
/// it, joined one by one.
pub proof fn slashes_join_all(root: Seq<char>, names: Seq<Seq<char>>)
    ensures
        joins_all_behind(System::Slashes, root, names),
    decreases names.len(),
{
    if names.len() > 0 {
        slashes_join_all(root, names.drop_last());
    }
}

/// With drives too, from a folder whose path the system does not take literally
/// and that is no mere beginning of such a path. The names are those of entries,
/// which hold neither a separator nor a drive.
pub proof fn drives_join_all(root: Seq<char>, names: Seq<Seq<char>>)
    requires
        !is_verbatim(root),
        root.len() >= 4 || (root.len() > 0 && root[0] != '\\'),
        forall|i: int| 0 <= i < names.len() ==> !starts_anew(#[trigger] names[i]),
    ensures
        joins_all_behind(System::Drives, root, names),
        path_down(System::Drives, root, names).len() >= root.len(),
        path_down(System::Drives, root, names).take(root.len() as int) == root,
    decreases names.len(),
{
    if names.len() > 0 {
        let before = names.drop_last();
        assert forall|i: int| 0 <= i < before.len() implies !starts_anew(#[trigger] before[i]) by {
            assert(before[i] == names[i]);
        }
        drives_join_all(root, before);
        let path = path_down(System::Drives, root, before);
        assert(forall|i: int| 0 <= i < root.len() ==> path.take(root.len() as int)[i] == path[i]);
        assert(path[0] == root[0]);
        if root.len() >= 4 {
            assert(path[1] == root[1] && path[2] == root[2] && path[3] == root[3]);
        }
        assert(!is_verbatim(path));
        assert(!starts_anew(names.last()));
        assert(path_down(System::Drives, root, names).take(root.len() as int) =~= root);
    } else {
        assert(root.take(root.len() as int) =~= root);
    }
}

/// How many entries there are to find: those that are there, without the hidden
/// ones unless they are shown.
pub open spec fn count_found<P>(show_hidden: bool, entries: Seq<Found<P>>) -> nat
    decreases entries.len(),
{
    if entries.len() == 0 {
        0
    } else {
        let name = entries.last().name@;
        let before = count_found(show_hidden, entries.drop_last());
        if entries.last().is_dir is Some && (show_hidden || name.len() == 0 || name[0] != '.') {
            before + 1
        } else {
            before
        }
    }
}

/// How many of them are folders.
pub open spec fn count_folders<P>(show_hidden: bool, entries: Seq<Found<P>>) -> nat
    decreases entries.len(),
{
    if entries.len() == 0 {
        0
    } else {
        let name = entries.last().name@;
        let before = count_folders(show_hidden, entries.drop_last());
        if entries.last().is_dir == Some(true) && (show_hidden || name.len() == 0 || name[0]
            != '.') {
            before + 1
        } else {
            before
        }
    }
}

/// The counts are those of what is found, and of the folders in it.
proof fn counts_are_of_what_is_found<P>(show_hidden: bool, entries: Seq<Found<P>>)
    ensures
        all_found(show_hidden, entries).len() == count_found(show_hidden, entries),
        all_found(show_hidden, entries).filter(
            |entry: Found<P>| entry.is_dir == Some(true),
        ).len() == count_folders(show_hidden, entries),
    decreases entries.len(),
{
    reveal(Seq::filter);
    if entries.len() > 0 {
        let before = all_found(show_hidden, entries.drop_last());
        counts_are_of_what_is_found(show_hidden, entries.drop_last());
        if is_found(show_hidden, entries.last()) {
            assert(all_found(show_hidden, entries) == before.push(entries.last()));
            assert(before.push(entries.last()).drop_last() =~= before);
        }
    }
}

/// What is found splits where an entry is found.
proof fn found_in_its_place<P>(show_hidden: bool, entries: Seq<Found<P>>, k: int)
    requires
        0 <= k < entries.len(),
        is_found(show_hidden, entries[k]),
    ensures
        all_found(show_hidden, entries) == all_found(show_hidden, entries.take(k)) + seq![
            entries[k],
        ] + all_found(show_hidden, entries.skip(k + 1)),
{
    let found = |entry: Found<P>| is_found(show_hidden, entry);
    let one = seq![entries[k]];
    assert(one.filter(found) =~= one) by {
        reveal(Seq::filter);
        assert(one.drop_last() =~= Seq::empty());
        assert(one.drop_last().filter(found) =~= Seq::empty());
    }
    assert(entries =~= entries.take(k) + one + entries.skip(k + 1));
    Seq::filter_distributes_over_add(entries.take(k) + one, entries.skip(k + 1), found);
    Seq::filter_distributes_over_add(entries.take(k), one, found);
}

/// What a search takes in from a folder. There is a result for each entry that is
/// there and not left out as hidden, in the order of the entries, as long as there
/// are fewer than fifty thousand: at every depth it has the mark of a folder
/// exactly if the entry is one, behind it the entry's name, and the breadcrumb of
/// the folder. Each folder among these waits behind all that waited before, at its
/// place, with its name at the end of its breadcrumb. Results and folders from
/// before stay as they are.
pub proof fn each_entry_is_taken_in<P>(
    show_hidden: bool,
    at: Progress<P>,
    folder: Stop<P>,
    entries: Seq<Found<P>>,
    k: int,
)
    requires
        0 <= k < entries.len(),
    ensures
        ({
            let after = take_in(show_hidden, at, folder, entries);
            let entry = entries[k];
            let name = entry.name@;
            let j = at.found.len() + count_found(show_hidden, entries.take(k));
            let w = at.waiting.len() + count_folders(show_hidden, entries.take(k));
            let total = at.found.len() + count_found(show_hidden, entries);
            &&& after.found.take(at.found.len() as int) == at.found
            &&& after.waiting.take(at.waiting.len() as int) == at.waiting
            &&& total <= 50_000 ==> after.found.len() == total && after.waiting.len()
                == at.waiting.len() + count_folders(show_hidden, entries)
            &&& at.found.len() <= 50_000 < total ==> after.found.len() == 50_000
            &&& at.found.len() >= 50_000 ==> after == at
            &&& j < 50_000 && entry.is_dir is Some && (show_hidden || name.len() == 0 || name[0]
                != '.') ==> {
                &&& j < after.found.len()
                &&& after.found[j as int].label == (if entry.is_dir == Some(true) {
                    "+ "@
                } else {
                    "- "@
                }) + name
                &&& after.found[j as int].breadcrumb == folder.breadcrumb
                &&& joins_behind(folder.system, folder.path, name)
                    ==> after.found[j as int].nav_path == join_on(
                    folder.system,
                    folder.path,
                    name,
                )
                &&& !joins_behind(folder.system, folder.path, name)
                    ==> after.found[j as int].nav_path == entry.path@
                &&& entry.is_dir == Some(true) ==> {
                    &&& w < after.waiting.len()
                    &&& after.waiting[w as int].place == entry.place
                    &&& after.waiting[w as int].system == folder.system
                    &&& after.waiting[w as int].path == after.found[j as int].nav_path
                    &&& after.waiting[w as int].breadcrumb == folder.breadcrumb + name + " > "@
                }
            }
        }),
{
    let after = take_in(show_hidden, at, folder, entries);
    let is_folder = |entry: Found<P>| entry.is_dir == Some(true);
    let all = all_found(show_hidden, entries);
    let room = MAX_ITEMS - at.found.len();
    let new = kept(show_hidden, entries, room);
    let entry = entries[k];
    let before = all_found(show_hidden, entries.take(k));
    let n = before.len() as int;
    counts_are_of_what_is_found(show_hidden, entries);
    counts_are_of_what_is_found(show_hidden, entries.take(k));
    assert(after.found.take(at.found.len() as int) =~= at.found);
    assert(after.waiting.take(at.waiting.len() as int) =~= at.waiting);
    if all.len() <= room {
        assert(new =~= all);
    }
    if room <= 0 {
        assert(new =~= Seq::empty());
        none_kept(show_hidden, room, folder);
        assert(after.found =~= at.found);
        assert(after.waiting =~= at.waiting);
    }
    if is_found(show_hidden, entry) && n < room {
        found_in_its_place(show_hidden, entries, k);
        let one = seq![entry];
        let rest = new.skip(n + 1);
        assert(new =~= before + one + rest);
        assert(new[n] == entry);
        assert(hits(folder, new)[n] == hit(folder, entry));
        if entry.is_dir == Some(true) {
            assert(one.filter(is_folder) =~= one) by {
                reveal(Seq::filter);
                assert(one.drop_last() =~= Seq::empty());
                assert(one.drop_last().filter(is_folder) =~= Seq::empty());
            }
            Seq::filter_distributes_over_add(before + one, rest, is_folder);
            Seq::filter_distributes_over_add(before, one, is_folder);
            let m = before.filter(is_folder).len() as int;
            assert(new.filter(is_folder)[m] == entry);
            assert(inner_folders(folder, new)[m] == inner(folder, entry));
        }
    }
}

/// The breadcrumb of a way is its names, each with an arrow behind it: nothing at
/// the root, and one folder more adds its name to the end.
pub proof fn breadcrumbs_grow_by_name(names: Seq<Seq<char>>, name: Seq<char>)
    ensures
        crumbs(Seq::empty()).len() == 0,
        crumbs(names.push(name)) == crumbs(names) + name + " > "@,
{
    assert(names.push(name).drop_last() =~= names);
}

/// The path of a way is the root and its names, each joined to the path before it.
pub proof fn paths_grow_by_name(
    system: System,
    root: Seq<char>,
    names: Seq<Seq<char>>,
    name: Seq<char>,
)
    ensures
        path_down(system, root, Seq::empty()) == root,
        path_down(system, root, names.push(name)) == join_on(
            system,
            path_down(system, root, names),
            name,
        ),
{
    assert(names.push(name).drop_last() =~= names);
}

/// A result and a folder are what their texts are.
pub proof fn results_are_their_texts<P>(result: SearchResult, folder: Folder<P>)
    ensures
        result@.label == result.label@,
        result@.breadcrumb == result.breadcrumb@,
        result@.nav_path == result.nav_path@,
        folder@.system == folder.system,
        folder@.place == folder.place,
        folder@.path == folder.path@,
        folder@.breadcrumb == folder.breadcrumb@,
{
}

/// A search has found its results and waits for its folders, one by one and in
/// their order.
pub proof fn search_is_its_parts<P>(search: ExtendedSearch<P>, i: int)
    ensures
        search.found().len() == search.results@.len(),
        search.waiting().len() == search.queue@.len(),
        0 <= i < search.results@.len() ==> search.found()[i] == search.results@[i]@,
        0 <= i < search.queue@.len() ==> search.waiting()[i] == search.queue@[i]@,
        search.progress().found == search.found(),
        search.progress().waiting == search.waiting(),
{
}

}
