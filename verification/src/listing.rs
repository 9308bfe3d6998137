//! A folder as a list: which entries it shows, in which order, and how each reads.

use crate::entry::RawEntry;
use crate::natural::{compare_ignore_case, natural_order};
use crate::text::{is_hidden, starts_with_dot};
use vstd::prelude::*;
use vstd::string::*;

verus! {

/// The order in which a folder's entries are listed.
#[derive(Debug, Clone, Copy, PartialEq, Eq, Structural)]
pub enum SortMode {
    /// By name, in the natural order.
    Alpha,
    /// By modification time, the newest first.
    Chrono,
}

impl Default for SortMode {
    fn default() -> (r: SortMode)
        ensures
            r == SortMode::Alpha,
    {
        SortMode::Alpha
    }
}

/// `a` is listed no later than `b`.
pub open spec fn not_after(mode: SortMode, a: RawEntry, b: RawEntry) -> bool {
    match mode {
        SortMode::Alpha => natural_order(a.name@, b.name@) <= 0,
        SortMode::Chrono => !b.mtime.later_than(a.mtime),
    }
}

/// Entry `i` is listed before entry `j`: its place in the order comes first,
/// or the order leaves it open and it was found first.
pub open spec fn listed_before(
    mode: SortMode,
    entries: Seq<RawEntry>,
    i: usize,
    j: usize,
) -> bool {
    not_after(mode, entries[i as int], entries[j as int]) && (not_after(
        mode,
        entries[j as int],
        entries[i as int],
    ) ==> i < j)
}

/// The entries at the positions in `places` are in order.
pub open spec fn in_order(mode: SortMode, entries: Seq<RawEntry>, places: Seq<usize>) -> bool {
    forall|a: int, b: int|
        #![trigger places[a], places[b]]
        0 <= a < b < places.len() ==> listed_before(mode, entries, places[a], places[b])
}

/// An entry is shown unless it is hidden and hidden ones are not shown.
pub open spec fn is_shown(show_hidden: bool, name: Seq<char>) -> bool {
    show_hidden || !is_hidden(name)
}

/// `places` are the positions of the entries that are shown, each once, in order.
pub open spec fn is_arrangement(
    mode: SortMode,
    show_hidden: bool,
    entries: Seq<RawEntry>,
    places: Seq<usize>,
) -> bool {
    &&& forall|i: usize| #[trigger]
        places.contains(i) <==> i < entries.len() && is_shown(show_hidden, entries[i as int].name@)
    &&& in_order(mode, entries, places)
}

/// Whether `a` is listed no later than `b`.
fn goes_first(mode: SortMode, a: &RawEntry, b: &RawEntry) -> (r: bool)
    ensures
        r == not_after(mode, *a, *b),
        !r ==> not_after(mode, *b, *a),
        r ==> forall|c: RawEntry| #[trigger] not_after(mode, *b, c) ==> not_after(mode, *a, c),
        !r ==> forall|c: RawEntry| #[trigger]
            not_after(mode, *a, c) ==> not_after(mode, *b, c) && !not_after(mode, c, *b),
{
    match mode {
        SortMode::Alpha => compare_ignore_case(a.name.as_str(), b.name.as_str()) <= 0,
        SortMode::Chrono => !b.mtime.is_after(&a.mtime),
    }
}

/// Positions in `entries`.
spec fn are_places(entries: Seq<RawEntry>, places: Seq<usize>) -> bool {
    forall|a: int| 0 <= a < places.len() ==> #[trigger] places[a] < entries.len()
}

/// Every place of `left` stands before every place of `right`.
spec fn all_before(
    mode: SortMode,
    entries: Seq<RawEntry>,
    left: Seq<usize>,
    right: Seq<usize>,
) -> bool {
    forall|a: int, b: int|
        #![trigger left[a], right[b]]
        0 <= a < left.len() && 0 <= b < right.len() ==> listed_before(
            mode,
            entries,
            left[a],
            right[b],
        )
}

/// What is left of two ordered lists after the first place of one has been taken.
proof fn take_first(
    mode: SortMode,
    entries: Seq<RawEntry>,
    out: Seq<usize>,
    rest: Seq<usize>,
    other: Seq<usize>,
)
    requires
        rest.len() > 0,
        in_order(mode, entries, out),
        in_order(mode, entries, rest),
        all_before(mode, entries, out, rest),
        all_before(mode, entries, out, other),
        forall|b: int|
            0 <= b < other.len() ==> listed_before(mode, entries, rest[0], #[trigger] other[b]),
    ensures
        in_order(mode, entries, out.push(rest[0])),
        all_before(mode, entries, out.push(rest[0]), rest.skip(1)),
        all_before(mode, entries, out.push(rest[0]), other),
{
    let longer = out.push(rest[0]);
    assert forall|a: int, b: int|
        #![trigger longer[a], rest.skip(1)[b]]
        0 <= a < longer.len() && 0 <= b < rest.skip(1).len() implies listed_before(
        mode,
        entries,
        longer[a],
        rest.skip(1)[b],
    ) by {
        assert(rest.skip(1)[b] == rest[b + 1]);
        if a < out.len() {
            assert(out[a] == longer[a]);
        } else {
            assert(longer[a] == rest[0]);
        }
    }
    assert forall|a: int, b: int|
        #![trigger longer[a], longer[b]]
        0 <= a < b < longer.len() implies listed_before(mode, entries, longer[a], longer[b]) by {
        assert(longer[a] == out[a]);
        if b < out.len() {
            assert(longer[b] == out[b]);
        } else {
            assert(longer[b] == rest[0]);
        }
    }
    assert forall|a: int, b: int|
        #![trigger longer[a], other[b]]
        0 <= a < longer.len() && 0 <= b < other.len() implies listed_before(
        mode,
        entries,
        longer[a],
        other[b],
    ) by {
        if a < out.len() {
            assert(out[a] == longer[a]);
        } else {
            assert(longer[a] == rest[0]);
        }
    }
}

/// One more place belongs to a list.
proof fn contains_after_push(places: Seq<usize>, place: usize)
    ensures
        forall|i: usize| #[trigger]
            places.push(place).contains(i) <==> places.contains(i) || i == place,
{
    assert forall|i: usize| #[trigger] places.push(place).contains(i) <==> places.contains(i) || i
        == place by {
        let longer = places.push(place);
        if places.contains(i) {
            let k = choose|k: int| 0 <= k < places.len() && places[k] == i;
            assert(longer[k] == i);
        }
        if i == place {
            assert(longer[places.len() as int] == i);
        }
        if longer.contains(i) {
            let k = choose|k: int| 0 <= k < longer.len() && longer[k] == i;
            assert(k < places.len() ==> places[k] == i);
        }
    }
}

/// Merges two ordered lists of places, all of the first found before all of the second.
fn merge(mode: SortMode, entries: &Vec<RawEntry>, left: &Vec<usize>, right: &Vec<usize>) -> (out:
    Vec<usize>)
    requires
        are_places(entries@, left@),
        are_places(entries@, right@),
        in_order(mode, entries@, left@),
        in_order(mode, entries@, right@),
        forall|a: int, b: int|
            #![trigger left@[a], right@[b]]
            0 <= a < left.len() && 0 <= b < right.len() ==> left@[a] < right@[b],
    ensures
        are_places(entries@, out@),
        in_order(mode, entries@, out@),
        forall|i: usize| #[trigger]
            out@.contains(i) <==> left@.contains(i) || right@.contains(i),
{
    let mut out: Vec<usize> = Vec::new();
    let mut i: usize = 0;
    let mut j: usize = 0;
    while i < left.len() || j < right.len()
        invariant
            are_places(entries@, left@),
            are_places(entries@, right@),
            in_order(mode, entries@, left@),
            in_order(mode, entries@, right@),
            forall|a: int, b: int|
                #![trigger left@[a], right@[b]]
                0 <= a < left.len() && 0 <= b < right.len() ==> left@[a] < right@[b],
            i <= left.len(),
            j <= right.len(),
            are_places(entries@, out@),
            in_order(mode, entries@, out@),
            all_before(mode, entries@, out@, left@.skip(i as int)),
            all_before(mode, entries@, out@, right@.skip(j as int)),
            forall|x: usize| #[trigger]
                out@.contains(x) <==> left@.take(i as int).contains(x) || right@.take(
                    j as int,
                ).contains(x),
        decreases left.len() - i + right.len() - j,
    {
        let from_left: bool = if i >= left.len() {
            false
        } else if j >= right.len() {
            true
        } else {
            goes_first(mode, &entries[left[i]], &entries[right[j]])
        };
        let ghost left_rest = left@.skip(i as int);
        let ghost right_rest = right@.skip(j as int);
        if from_left {
            proof {
                assert(left_rest[0] == left@[i as int]);
                take_first(mode, entries@, out@, left_rest, right_rest);
                assert(left_rest.skip(1) =~= left@.skip(i + 1));
                contains_after_push(out@, left@[i as int]);
                contains_after_push(left@.take(i as int), left@[i as int]);
                assert(left@.take(i as int).push(left@[i as int]) =~= left@.take(i + 1));
            }
            out.push(left[i]);
            i = i + 1;
        } else {
            proof {
                assert(right_rest[0] == right@[j as int]);
                take_first(mode, entries@, out@, right_rest, left_rest);
                assert(right_rest.skip(1) =~= right@.skip(j + 1));
                contains_after_push(out@, right@[j as int]);
                contains_after_push(right@.take(j as int), right@[j as int]);
                assert(right@.take(j as int).push(right@[j as int]) =~= right@.take(j + 1));
            }
            out.push(right[j]);
            j = j + 1;
        }
    }
    proof {
        assert(left@.take(left.len() as int) =~= left@);
        assert(right@.take(right.len() as int) =~= right@);
    }
    out
}

/// The two halves of `places`.
fn halves(places: &Vec<usize>) -> (r: (Vec<usize>, Vec<usize>))
    ensures
        r.0@ == places@.take(places.len() as int / 2),
        r.1@ == places@.skip(places.len() as int / 2),
{
    let mid: usize = places.len() / 2;
    let mut left: Vec<usize> = Vec::new();
    let mut right: Vec<usize> = Vec::new();
    for k in 0..places.len()
        invariant
            mid == places.len() / 2,
            left@ =~= places@.take(if k < mid { k as int } else { mid as int }),
            right@ =~= places@.subrange(mid as int, if k < mid { mid as int } else { k as int }),
    {
        if k < mid {
            left.push(places[k]);
        } else {
            right.push(places[k]);
        }
    }
    (left, right)
}

/// Puts places that are given in the order they were found in the order they are listed.
fn sort_places(mode: SortMode, entries: &Vec<RawEntry>, places: Vec<usize>) -> (out: Vec<usize>)
    requires
        are_places(entries@, places@),
        forall|a: int, b: int|
            #![trigger places@[a], places@[b]]
            0 <= a < b < places.len() ==> places@[a] < places@[b],
    ensures
        are_places(entries@, out@),
        in_order(mode, entries@, out@),
        forall|i: usize| #[trigger] out@.contains(i) <==> places@.contains(i),
    decreases places.len(),
{
    if places.len() <= 1 {
        return places;
    }
    let (left, right) = halves(&places);
    let ghost mid = places.len() as int / 2;
    let ghost (first, second) = (left@, right@);
    proof {
        assert forall|i: usize| #[trigger]
            places@.contains(i) <==> first.contains(i) || second.contains(i) by {
            if places@.contains(i) {
                let k = choose|k: int| 0 <= k < places.len() && places@[k] == i;
                if k < mid {
                    assert(first[k] == i);
                } else {
                    assert(second[k - mid] == i);
                }
            }
            if first.contains(i) {
                let k = choose|k: int| 0 <= k < first.len() && first[k] == i;
                assert(places@[k] == i);
            }
            if second.contains(i) {
                let k = choose|k: int| 0 <= k < second.len() && second[k] == i;
                assert(places@[k + mid] == i);
            }
        }
    }
    let left = sort_places(mode, entries, left);
    let right = sort_places(mode, entries, right);
    proof {
        assert forall|a: int, b: int|
            #![trigger left@[a], right@[b]]
            0 <= a < left.len() && 0 <= b < right.len() implies left@[a] < right@[b] by {
            assert(left@.contains(left@[a]));
            assert(right@.contains(right@[b]));
            let j = choose|j: int| 0 <= j < first.len() && first[j] == left@[a];
            let k = choose|k: int| 0 <= k < second.len() && second[k] == right@[b];
            assert(places@[j] < places@[k + mid]);
        }
    }
    merge(mode, entries, &left, &right)
}

/// The positions of the entries that are shown, in the order they are listed.
pub fn arrange(mode: SortMode, show_hidden: bool, entries: &Vec<RawEntry>) -> (places: Vec<usize>)
    ensures
        is_arrangement(mode, show_hidden, entries@, places@),
        forall|i: usize| #[trigger]
            places@.contains(i) <==> i < entries@.len() && (show_hidden
                || entries@[i as int].name@.len() == 0 || entries@[i as int].name@[0] != '.'),
        mode == SortMode::Alpha ==> forall|p: int, q: int|
            #![trigger places@[p], places@[q]]
            0 <= p < q < places@.len() ==> natural_order(
                entries@[places@[p] as int].name@,
                entries@[places@[q] as int].name@,
            ) <= 0,
        mode == SortMode::Chrono ==> forall|p: int, q: int|
            #![trigger places@[p], places@[q]]
            0 <= p < q < places@.len() ==> {
                let first = entries@[places@[p] as int].mtime;
                let second = entries@[places@[q] as int].mtime;
                first.secs > second.secs || (first.secs == second.secs && first.nanos
                    >= second.nanos)
            },
{
    let mut shown: Vec<usize> = Vec::new();
    for k in 0..entries.len()
        invariant
            are_places(entries@, shown@),
            forall|a: int| 0 <= a < shown.len() ==> #[trigger] shown@[a] < k,
            forall|a: int, b: int|
                #![trigger shown@[a], shown@[b]]
                0 <= a < b < shown.len() ==> shown@[a] < shown@[b],
            forall|i: usize| #[trigger]
                shown@.contains(i) <==> i < k && is_shown(show_hidden, entries@[i as int].name@),
    {
        if show_hidden || !starts_with_dot(entries[k].name.as_str()) {
            proof {
                contains_after_push(shown@, k);
            }
            shown.push(k);
        }
    }
    sort_places(mode, entries, shown)
}

/// A folder has one listing: the entries and the order leave nothing open.
pub proof fn arrangement_is_determined(
    mode: SortMode,
    show_hidden: bool,
    entries: Seq<RawEntry>,
    places: Seq<usize>,
    others: Seq<usize>,
)
    requires
        is_arrangement(mode, show_hidden, entries, places),
        is_arrangement(mode, show_hidden, entries, others),
    ensures
        places == others,
{
    same_up_to(mode, show_hidden, entries, places, others, places.len() as int);
    same_up_to(mode, show_hidden, entries, others, places, others.len() as int);
    assert(places =~= others);
}

/// The first places of two arrangements are the same.
proof fn same_up_to(
    mode: SortMode,
    show_hidden: bool,
    entries: Seq<RawEntry>,
    places: Seq<usize>,
    others: Seq<usize>,
    n: int,
)
    requires
        is_arrangement(mode, show_hidden, entries, places),
        is_arrangement(mode, show_hidden, entries, others),
        0 <= n <= places.len(),
    ensures
        n <= others.len(),
        forall|k: int| 0 <= k < n ==> places[k] == #[trigger] others[k],
    decreases n,
{
    if n > 0 {
        same_up_to(mode, show_hidden, entries, places, others, n - 1);
        let place = places[n - 1];
        assert(places.contains(place));
        assert(others.contains(place));
        let j = choose|j: int| 0 <= j < others.len() && others[j] == place;
        if j < n - 1 {
            assert(places[j] == others[j]);
            assert(listed_before(mode, entries, places[j], places[n - 1]));
        }
        if j > n - 1 {
            let other = others[n - 1];
            assert(listed_before(mode, entries, other, others[j]));
            assert(others.contains(other));
            assert(places.contains(other));
            let m = choose|m: int| 0 <= m < places.len() && places[m] == other;
            if m < n - 1 {
                assert(others[m] == places[m]);
                assert(listed_before(mode, entries, others[m], others[n - 1]));
            } else if m > n - 1 {
                assert(listed_before(mode, entries, places[n - 1], places[m]));
            }
        }
    }
}

/// Hiding hidden entries takes them off the listing and changes nothing else:
/// what is left stands in the same order.
pub proof fn hiding_only_takes_off(
    mode: SortMode,
    entries: Seq<RawEntry>,
    hiding: Seq<usize>,
    showing: Seq<usize>,
)
    requires
        is_arrangement(mode, false, entries, hiding),
        is_arrangement(mode, true, entries, showing),
    ensures
        hiding == showing.filter(|i: usize| !is_hidden(entries[i as int].name@)),
{
    let visible = |i: usize| !is_hidden(entries[i as int].name@);
    let left = showing.filter(visible);
    filter_stays_in_order(mode, entries, showing, visible);
    assert forall|i: usize| #[trigger]
        left.contains(i) <==> i < entries.len() && is_shown(false, entries[i as int].name@) by {
        if left.contains(i) {
            let k = choose|k: int| 0 <= k < left.len() && left[k] == i;
            showing.lemma_filter_pred(visible, k);
            assert(showing.contains(left[k]));
        }
        if i < entries.len() && is_shown(false, entries[i as int].name@) {
            assert(showing.contains(i));
            let k = choose|k: int| 0 <= k < showing.len() && showing[k] == i;
            showing.lemma_filter_contains(visible, k);
        }
    }
    arrangement_is_determined(mode, false, entries, hiding, left);
}

/// What a filter leaves of places in order was there before and is in order.
proof fn filter_stays_in_order(
    mode: SortMode,
    entries: Seq<RawEntry>,
    places: Seq<usize>,
    pred: spec_fn(usize) -> bool,
)
    requires
        in_order(mode, entries, places),
    ensures
        in_order(mode, entries, places.filter(pred)),
        forall|k: int|
            0 <= k < places.filter(pred).len() ==> places.contains(
                #[trigger] places.filter(pred)[k],
            ),
    decreases places.len(),
{
    reveal(Seq::filter);
    if places.len() > 0 {
        let shorter = places.drop_last();
        let last = places.last();
        assert forall|a: int, b: int|
            #![trigger shorter[a], shorter[b]]
            0 <= a < b < shorter.len() implies listed_before(
            mode,
            entries,
            shorter[a],
            shorter[b],
        ) by {
            assert(listed_before(mode, entries, places[a], places[b]));
        }
        filter_stays_in_order(mode, entries, shorter, pred);
        let kept = shorter.filter(pred);
        assert forall|k: int| 0 <= k < kept.len() implies places.contains(#[trigger] kept[k])
            && listed_before(mode, entries, kept[k], last) by {
            assert(shorter.contains(kept[k]));
            let j = choose|j: int| 0 <= j < shorter.len() && shorter[j] == kept[k];
            assert(places[j] == kept[k]);
            assert(listed_before(mode, entries, places[j], places[places.len() - 1]));
        }
        assert(places.contains(last));
    }
}

/// Sorted by name, the order of two entries depends on their names alone,
/// whatever else differs: of two that are listed, the later one does not come
/// before the earlier one by name, and of two that do not differ by name the one
/// found first comes first.
pub proof fn alphanumeric_order_is_by_name(
    show_hidden: bool,
    entries: Seq<RawEntry>,
    places: Seq<usize>,
    p: int,
    q: int,
)
    requires
        is_arrangement(SortMode::Alpha, show_hidden, entries, places),
        0 <= p < q < places.len(),
    ensures
        ({
            let first = entries[places[p] as int].name@;
            let second = entries[places[q] as int].name@;
            &&& natural_order(first, second) <= 0
            &&& natural_order(second, first) <= 0 ==> places[p] < places[q]
        }),
{
    assert(listed_before(SortMode::Alpha, entries, places[p], places[q]));
}

/// Of two entries that are listed by name, the one whose name comes before the
/// other's stands before it.
pub proof fn name_before_stands_before(
    show_hidden: bool,
    entries: Seq<RawEntry>,
    places: Seq<usize>,
    p: int,
    q: int,
)
    requires
        is_arrangement(SortMode::Alpha, show_hidden, entries, places),
        0 <= p < places.len(),
        0 <= q < places.len(),
        natural_order(entries[places[p] as int].name@, entries[places[q] as int].name@) < 0,
        natural_order(entries[places[q] as int].name@, entries[places[p] as int].name@) > 0,
    ensures
        p < q,
{
    if q < p {
        alphanumeric_order_is_by_name(show_hidden, entries, places, q, p);
    }
}

/// Sorted by time, no entry stands behind an older one, whatever their names,
/// and of two from the same moment the one found first comes first.
pub proof fn chronological_order_is_newest_first(
    show_hidden: bool,
    entries: Seq<RawEntry>,
    places: Seq<usize>,
    p: int,
    q: int,
)
    requires
        is_arrangement(SortMode::Chrono, show_hidden, entries, places),
        0 <= p < q < places.len(),
    ensures
        ({
            let first = entries[places[p] as int].mtime;
            let second = entries[places[q] as int].mtime;
            &&& first.secs > second.secs || (first.secs == second.secs && first.nanos
                >= second.nanos)
            &&& first.secs == second.secs && first.nanos == second.nanos ==> places[p] < places[q]
        }),
{
    assert(listed_before(SortMode::Chrono, entries, places[p], places[q]));
}

/// An entry is listed exactly if hidden ones are shown or its name does not
/// start with a dot, and it is listed once.
pub proof fn listed_unless_hidden(
    mode: SortMode,
    show_hidden: bool,
    entries: Seq<RawEntry>,
    places: Seq<usize>,
)
    requires
        is_arrangement(mode, show_hidden, entries, places),
    ensures
        forall|i: usize| #[trigger]
            places.contains(i) <==> i < entries.len() && (show_hidden || entries[i as int].name@.len()
                == 0 || entries[i as int].name@[0] != '.'),
        forall|p: int, q: int|
            0 <= p < q < places.len() ==> #[trigger] places[p] != #[trigger] places[q],
{
    assert forall|p: int, q: int| 0 <= p < q < places.len() implies #[trigger] places[p]
        != #[trigger] places[q] by {
        assert(listed_before(mode, entries, places[p], places[q]));
    }
}

}
