//! The natural order of names: `file2` before `file10`, capitals among small letters.

use vstd::prelude::*;

verus! {

/// What `natord::compare_ignore_case` finds of two names: negative where the
/// first comes before the second, positive where it comes after it, 0 where
/// neither does.
pub uninterp spec fn natural_order(left: Seq<char>, right: Seq<char>) -> int;

/// Compares two names with `natord::compare_ignore_case`, `-1`, `0` and `1`
/// standing for less, equal and greater.
///
/// Taken on trust: the result depends on the two names alone, the names the
/// other way round compare the other way round, and the order is consistent:
/// a name that comes no later than a second comes no later than whatever the
/// second comes no later than, and a name that comes before a second comes
/// before it all. (The function compares, item by item, what the names are
/// made of: numbers and single lower-case characters without white space.)
#[verifier::external_body]
pub(crate) fn compare_ignore_case(left: &str, right: &str) -> (r: i8)
    ensures
        r == natural_order(left@, right@),
        r == -natural_order(right@, left@),
        r <= 0 ==> forall|other: Seq<char>|
            natural_order(right@, other) <= 0 ==> natural_order(left@, other) <= 0,
        r > 0 ==> forall|other: Seq<char>|
            natural_order(left@, other) <= 0 ==> natural_order(right@, other) < 0 && natural_order(
                other,
                right@,
            ) > 0,
{
    match natord::compare_ignore_case(left, right) {
        std::cmp::Ordering::Less => -1,
        std::cmp::Ordering::Equal => 0,
        std::cmp::Ordering::Greater => 1,
    }
}

}
