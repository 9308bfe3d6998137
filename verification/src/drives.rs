//! Systems with drives: the list of drives stands where others have the root
//! folder.

use crate::element::Element;
use crate::markup::{in_field, INPUT_CLOSE, INPUT_OPEN};
use vstd::prelude::*;
use vstd::string::*;

verus! {

/// The letters of the drives, in order.
pub const LETTERS: &'static str = "ABCDEFGHIJKLMNOPQRSTUVWXYZ";

/// What follows a drive's letter in the path of its root.
pub const DRIVE_END: &'static str = ":\\";

/// The root of a drive: its letter, a colon and a separator.
pub open spec fn is_root_of_drive(path: Seq<char>) -> bool {
    &&& path.len() == 3
    &&& path[0] <= '\u{7f}'
    &&& path[1] == ':'
    &&& path[2] == '\\' || path[2] == '/'
}

/// Whether `path` is the root of a drive.
pub fn is_drive_root(path: &str) -> (r: bool)
    ensures
        r == is_root_of_drive(path@),
        r <==> path@.len() == 3 && path@[0] <= '\u{7f}' && path@[1] == ':' && (path@[2] == '\\'
            || path@[2] == '/'),
{
    if path.unicode_len() != 3 {
        return false;
    }
    let separator = path.get_char(2);
    path.get_char(0) <= '\u{7f}' && path.get_char(1) == ':' && (separator == '\\' || separator
        == '/')
}

/// The bit of drive number `i` is set.
pub open spec fn has_drive(mask: u32, i: int) -> bool {
    mask & (1u32 << i) != 0
}

/// The line of drive number `i`: the root of the drive in an input field.
pub open spec fn drive_line(i: int) -> Seq<char> {
    in_field(seq![LETTERS@[i]] + DRIVE_END@)
}

/// The lines of the drives before number `n` whose bits are set, in order.
pub open spec fn drive_lines(mask: u32, n: int) -> Seq<Seq<char>>
    decreases n,
{
    if n <= 0 {
        Seq::empty()
    } else if has_drive(mask, n - 1) {
        drive_lines(mask, n - 1).push(drive_line(n - 1))
    } else {
        drive_lines(mask, n - 1)
    }
}

/// The drives whose bits are set, each an item that can be entered.
pub fn list_drives(mask: u32) -> (out: Vec<Element>)
    ensures
        out@.len() == drive_lines(mask, 26).len(),
        forall|k: int|
            0 <= k < out@.len() ==> (#[trigger] out@[k]).is_branch(
                drive_lines(mask, 26)[k],
                Seq::empty(),
            ),
{
    let mut out: Vec<Element> = Vec::new();
    proof {
        reveal_strlit("ABCDEFGHIJKLMNOPQRSTUVWXYZ");
    }
    for i in 0u32..26
        invariant
            LETTERS@.len() == 26,
            out@.len() == drive_lines(mask, i as int).len(),
            forall|k: int|
                0 <= k < out@.len() ==> (#[trigger] out@[k]).is_branch(
                    drive_lines(mask, i as int)[k],
                    Seq::empty(),
                ),
    {
        if mask & (1u32 << i) != 0 {
            let letter = LETTERS.substring_char(i as usize, i as usize + 1);
            let line = INPUT_OPEN.to_owned().concat(letter).concat(DRIVE_END).concat(INPUT_CLOSE);
            proof {
                assert(letter@ =~= seq![LETTERS@[i as int]]);
                assert(line@ =~= drive_line(i as int));
            }
            out.push(Element::new_obj(line));
        }
    }
    out
}

/// A drive is listed exactly if its bit is set.
pub proof fn drive_is_listed(mask: u32, i: int)
    requires
        0 <= i < 26,
    ensures
        drive_lines(mask, 26).contains(drive_line(i)) <==> has_drive(mask, i),
{
    only_drives_before(mask, 26, i);
}

/// Only drives whose bits are set are listed.
proof fn only_drives_before(mask: u32, n: int, i: int)
    requires
        0 <= i < 26,
        0 <= n <= 26,
    ensures
        drive_lines(mask, n).contains(drive_line(i)) <==> i < n && has_drive(mask, i),
    decreases n,
{
    if n > 0 {
        let before = drive_lines(mask, n - 1);
        only_drives_before(mask, n - 1, i);
        if drive_line(n - 1) == drive_line(i) {
            letters_differ(n - 1, i);
        }
        if has_drive(mask, n - 1) {
            let after = before.push(drive_line(n - 1));
            if before.contains(drive_line(i)) {
                let k = choose|k: int| 0 <= k < before.len() && before[k] == drive_line(i);
                assert(after[k] == drive_line(i));
            }
            if i == n - 1 {
                assert(after[before.len() as int] == drive_line(i));
            }
            if after.contains(drive_line(i)) && !before.contains(drive_line(i)) {
                let k = choose|k: int| 0 <= k < after.len() && after[k] == drive_line(i);
                if k < before.len() {
                    assert(before[k] == drive_line(i));
                }
            }
        }
    }
}

/// Two drives with one line are one drive.
proof fn letters_differ(i: int, j: int)
    requires
        0 <= i < 26,
        0 <= j < 26,
        drive_line(i) == drive_line(j),
    ensures
        i == j,
{
    reveal_strlit("<input>");
    reveal_strlit("ABCDEFGHIJKLMNOPQRSTUVWXYZ");
    assert(drive_line(i)[7] == LETTERS@[i]);
    assert(drive_line(j)[7] == LETTERS@[j]);
    assert forall|k: int| 0 <= k < 26 implies LETTERS@[k] as int == 65 + k by {}
}

/// Where a step up leads.
#[derive(Debug, Clone, Copy, PartialEq, Eq, Structural)]
pub enum StepUp {
    /// To the list of drives.
    Drives,
    /// Nowhere: the list of drives is the top.
    Stay,
    /// To the folder above.
    Parent,
}

/// Where a step up leads from `path`, which is the list of drives if `at_drives`.
pub fn step_up(path: &str, at_drives: bool) -> (r: StepUp)
    ensures
        path@.len() == 3 && path@[0] <= '\u{7f}' && path@[1] == ':' && (path@[2] == '\\' || path@[2]
            == '/') ==> r == StepUp::Drives,
        !(path@.len() == 3 && path@[0] <= '\u{7f}' && path@[1] == ':' && (path@[2] == '\\'
            || path@[2] == '/')) ==> r == (if at_drives {
            StepUp::Stay
        } else {
            StepUp::Parent
        }),
        r == (if is_root_of_drive(path@) {
            StepUp::Drives
        } else if at_drives {
            StepUp::Stay
        } else {
            StepUp::Parent
        }),
{
    if is_drive_root(path) {
        StepUp::Drives
    } else if at_drives {
        StepUp::Stay
    } else {
        StepUp::Parent
    }
}

/// The drive that a step down from the list of drives leads to: `segment` as
/// it is. Elsewhere a step down goes into a folder.
pub fn drive_to_enter(at_drives: bool, segment: &str) -> (r: Option<String>)
    ensures
        r is Some <==> at_drives,
        r is Some ==> r->0@ == segment@,
{
    if at_drives {
        Some(segment.to_owned())
    } else {
        None
    }
}

/// The line of a drive is its letter, a colon and a backslash in an input field,
/// and the letters follow each other from A on.
pub proof fn drive_lines_read(i: int)
    requires
        0 <= i < 26,
    ensures
        drive_line(i) == "<input>"@ + seq![(65 + i) as char, ':', '\\'] + "</input>"@,
{
    reveal_strlit("ABCDEFGHIJKLMNOPQRSTUVWXYZ");
    reveal_strlit(":\\");
    assert(LETTERS@[i] as int == 65 + i);
    assert(seq![LETTERS@[i]] + DRIVE_END@ =~= seq![(65 + i) as char, ':', '\\']);
}

/// Drives are listed in the order of their letters: whatever the mask, the drives
/// before a letter come before it, and one drive more goes to the end.
pub proof fn drives_stand_in_order(mask: u32, n: int)
    requires
        0 <= n < 26,
    ensures
        drive_lines(mask, 0).len() == 0,
        mask & (1u32 << n) != 0 ==> drive_lines(mask, n + 1) == drive_lines(mask, n).push(
            drive_line(n),
        ),
        mask & (1u32 << n) == 0 ==> drive_lines(mask, n + 1) == drive_lines(mask, n),
{
}

}
