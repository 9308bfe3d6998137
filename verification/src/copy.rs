//! Copying a file, or a folder with all that is in it: what to copy next, and
//! whether all of it was copied.

use std::collections::VecDeque;
use vstd::prelude::*;

verus! {

/// Something to copy: where the disk has it, and where the copy goes.
#[derive(Debug)]
pub struct CopyItem<P> {
    pub src: P,
    pub dst: P,
}

/// What came of an item to copy.
#[derive(Debug)]
pub enum CopyOutcome<P> {
    /// It is no folder. Whether it was copied.
    File(bool),
    /// It is a folder, and the folder for the copy could not be made.
    FolderNotMade,
    /// It is a folder, and its entries could not be listed.
    FolderNotListed,
    /// It is a folder, the folder for the copy is there, and this is to go into it.
    Folder(Vec<CopyItem<P>>),
}

/// What comes of copying an item and all that is in it.
pub enum Attempt {
    File { copied: bool },
    Folder { made: bool, listed: bool, inside: Seq<Attempt> },
}

impl Attempt {
    /// It is copied with all that is in it.
    pub open spec fn succeeds(self) -> bool
        decreases self,
    {
        match self {
            Attempt::File { copied } => copied,
            Attempt::Folder { made, listed, inside } => made && listed && forall|i: int|
                0 <= i < inside.len() ==> (#[trigger] inside[i]).succeeds(),
        }
    }
}

/// All of the items are copied with all that is in them.
pub open spec fn all_succeed(items: Seq<Attempt>) -> bool {
    forall|i: int| 0 <= i < items.len() ==> (#[trigger] items[i]).succeeds()
}

/// `outcome` is how `attempt` begins, where `disk` tells what comes of an item.
pub open spec fn begins<P>(
    attempt: Attempt,
    outcome: CopyOutcome<P>,
    disk: spec_fn(CopyItem<P>) -> Attempt,
) -> bool {
    match outcome {
        CopyOutcome::File(copied) => attempt == (Attempt::File { copied }),
        CopyOutcome::FolderNotMade => attempt is Folder && !attempt->made,
        CopyOutcome::FolderNotListed => attempt is Folder && attempt->made && !attempt->listed,
        CopyOutcome::Folder(items) => attempt == (Attempt::Folder {
            made: true,
            listed: true,
            inside: items@.map_values(disk),
        }),
    }
}

/// A copy under way. It stops at the first item that cannot be copied.
#[derive(Debug)]
pub struct CopyWork<P> {
    pub todo: VecDeque<CopyItem<P>>,
    pub failed: bool,
}

/// The copy of what is at `src` to `dst`, before anything is done.
pub fn copy_recursive<P>(src: P, dst: P) -> (r: CopyWork<P>)
    ensures
        r.todo@ == seq![CopyItem { src, dst }],
        !r.failed,
        forall|disk: spec_fn(CopyItem<P>) -> Attempt| #[trigger]
            r.will_succeed(disk) == disk(CopyItem { src, dst }).succeeds(),
{
    let item = CopyItem { src, dst };
    let mut todo: VecDeque<CopyItem<P>> = VecDeque::new();
    todo.push_back(item);
    proof {
        assert(todo@ =~= seq![item]);
        assert forall|disk: spec_fn(CopyItem<P>) -> Attempt|
            all_succeed(#[trigger] todo@.map_values(disk)) == disk(item).succeeds() by {
            assert(todo@.map_values(disk)[0] == disk(item));
        }
    }
    CopyWork { todo, failed: false }
}

impl<P> CopyWork<P> {
    /// The copy will succeed, where `disk` tells what comes of an item: nothing
    /// has failed, and all that is to do is copied with all that is in it.
    pub open spec fn will_succeed(self, disk: spec_fn(CopyItem<P>) -> Attempt) -> bool {
        !self.failed && all_succeed(self.todo@.map_values(disk))
    }

    /// The item to copy next, if there is one and none has failed.
    pub fn next_item(&mut self) -> (r: Option<CopyItem<P>>)
        ensures
            final(self).failed == old(self).failed,
            match r {
                Some(item) => {
                    &&& !old(self).failed
                    &&& old(self).todo@.len() > 0
                    &&& item == old(self).todo@[0]
                    &&& final(self).todo@ == old(self).todo@.skip(1)
                },
                None => {
                    &&& old(self).failed || old(self).todo@.len() == 0
                    &&& final(self).todo@ == old(self).todo@
                },
            },
            r is Some ==> forall|disk: spec_fn(CopyItem<P>) -> Attempt| #[trigger]
                old(self).will_succeed(disk) == (disk(r->0).succeeds() && final(self).will_succeed(
                    disk,
                )),
    {
        if self.failed {
            return None;
        }
        let item = self.todo.pop_front();
        proof {
            if item is Some {
                let before = old(self).todo@;
                assert(self.todo@ =~= before.skip(1));
                assert forall|disk: spec_fn(CopyItem<P>) -> Attempt| #[trigger]
                    old(self).will_succeed(disk) == (disk(item->0).succeeds()
                        && self.will_succeed(disk)) by {
                    let first = seq![disk(item->0)];
                    assert(before.map_values(disk) =~= first + self.todo@.map_values(disk));
                    both_succeed(first, self.todo@.map_values(disk));
                    assert(first[0] == disk(item->0));
                    assert(all_succeed(first) == disk(item->0).succeeds());
                }
            }
        }
        item
    }

    /// Take in what came of an item: what goes into a folder is copied before
    /// anything else. The copy then succeeds if the item is copied with all
    /// that is in it, and what was to do besides succeeds.
    pub fn report(&mut self, outcome: CopyOutcome<P>)
        ensures
            match outcome {
                CopyOutcome::File(copied) => {
                    &&& final(self).todo@ == old(self).todo@
                    &&& final(self).failed == (old(self).failed || !copied)
                },
                CopyOutcome::FolderNotMade => {
                    &&& final(self).todo@ == old(self).todo@
                    &&& final(self).failed
                },
                CopyOutcome::FolderNotListed => {
                    &&& final(self).todo@ == old(self).todo@
                    &&& final(self).failed
                },
                CopyOutcome::Folder(inside) => {
                    &&& final(self).todo@ == inside@ + old(self).todo@
                    &&& final(self).failed == old(self).failed
                },
            },
            forall|attempt: Attempt, disk: spec_fn(CopyItem<P>) -> Attempt| #[trigger]
                begins(attempt, outcome, disk) ==> final(self).will_succeed(disk) == (
                attempt.succeeds() && old(self).will_succeed(disk)),
    {
        proof {
            if outcome is Folder {
                let inside = outcome->Folder_0@;
                let behind = self.todo@;
                assert forall|attempt: Attempt, disk: spec_fn(CopyItem<P>) -> Attempt| #[trigger]
                    begins(attempt, outcome, disk) implies all_succeed(
                    (inside + behind).map_values(disk),
                ) == (attempt.succeeds() && all_succeed(behind.map_values(disk))) by {
                    let attempts = inside.map_values(disk);
                    assert((inside + behind).map_values(disk) =~= attempts + behind.map_values(
                        disk,
                    ));
                    both_succeed(attempts, behind.map_values(disk));
                    folder_succeeds(attempts);
                }
            }
        }
        match outcome {
            CopyOutcome::File(copied) => {
                if !copied {
                    self.failed = true;
                }
            },
            CopyOutcome::FolderNotMade => {
                self.failed = true;
            },
            CopyOutcome::FolderNotListed => {
                self.failed = true;
            },
            CopyOutcome::Folder(mut inside) => {
                let ghost all = inside@;
                let ghost behind = self.todo@;
                proof {
                    assert(all.skip(all.len() as int) + behind =~= behind);
                }
                while inside.len() > 0
                    invariant
                        self.failed == old(self).failed,
                        inside@.len() <= all.len(),
                        inside@ == all.take(inside@.len() as int),
                        self.todo@ == all.skip(inside@.len() as int) + behind,
                    decreases inside@.len(),
                {
                    match inside.pop() {
                        Some(item) => {
                            self.todo.push_front(item);
                            proof {
                                let n = inside@.len() as int;
                                assert(item == all[n]);
                                assert(self.todo@ =~= all.skip(n) + behind);
                            }
                        },
                        None => {},
                    }
                }
                proof {
                    assert(all.skip(0) =~= all);
                }
            },
        }
    }

    /// Whether all was copied, once there is no next item.
    pub fn succeeded(&self) -> (r: bool)
        ensures
            r == !self.failed,
            self.failed || self.todo@.len() == 0 ==> forall|
                disk: spec_fn(CopyItem<P>) -> Attempt,
            | #[trigger] self.will_succeed(disk) == r,
    {
        !self.failed
    }
}

/// A folder that is made and listed succeeds if all that is in it does.
proof fn folder_succeeds(inside: Seq<Attempt>)
    ensures
        (Attempt::Folder { made: true, listed: true, inside }).succeeds() == all_succeed(inside),
{
    reveal_with_fuel(Attempt::succeeds, 2);
    let folder = Attempt::Folder { made: true, listed: true, inside };
    match folder {
        Attempt::Folder { made, listed, inside } => {
            assert(folder.succeeds() == (made && listed && all_succeed(inside)));
        },
        Attempt::File { copied } => {},
    }
}

/// All of two lists succeed if all of each do.
proof fn both_succeed(a: Seq<Attempt>, b: Seq<Attempt>)
    ensures
        all_succeed(a + b) == (all_succeed(a) && all_succeed(b)),
{
    if all_succeed(a + b) {
        assert forall|i: int| 0 <= i < a.len() implies (#[trigger] a[i]).succeeds() by {
            assert((a + b)[i] == a[i]);
        }
        assert forall|i: int| 0 <= i < b.len() implies (#[trigger] b[i]).succeeds() by {
            assert((a + b)[i + a.len()] == b[i]);
        }
    }
}

}
