//! How a folder reads: a line for each entry that is shown, with the entry's
//! name in an input field so that it can be renamed in place.

use crate::calendar::date_of;
use crate::element::Element;
use crate::entry::RawEntry;
use crate::listing::{
    alphanumeric_order_is_by_name, arrange, chronological_order_is_newest_first, is_arrangement,
    listed_unless_hidden, SortMode,
};
use crate::long_properties::{self, long_properties, name_or_number, permissions};
use crate::markup::{
    has_tag, in_field, label_shows_name, no_bracket_no_tag, occurs_at, shown_name, tag_in_one_part,
    INPUT_CLOSE, INPUT_OPEN,
};
use crate::natural::natural_order;
use crate::path::is_entry_name;
use crate::short_properties::{self, padded, short_properties};
use crate::text::{decimal, digit, left_aligned, right_aligned, run_of, trim_separators};
use vstd::prelude::*;
use vstd::string::*;

verus! {

/// What the properties of an entry tell.
#[derive(Debug, Clone, Copy, PartialEq, Eq, Structural)]
pub enum PropertyView {
    /// Permissions, links, owner, group, size and date, where the system keeps them.
    Long,
    /// Size and date.
    Short,
}

/// What the line of an entry tells before its name.
pub open spec fn told(show_properties: bool, view: PropertyView, e: RawEntry) -> Seq<char> {
    if show_properties {
        match view {
            PropertyView::Long => long_properties(e),
            PropertyView::Short => short_properties(e),
        }
    } else {
        Seq::empty()
    }
}

/// The line of an entry.
pub open spec fn line(show_properties: bool, view: PropertyView, e: RawEntry) -> Seq<char> {
    told(show_properties, view, e) + in_field(e.name@)
}

/// `row` shows the entry: it can be entered if the entry can.
pub open spec fn shows(
    row: Element,
    show_properties: bool,
    view: PropertyView,
    e: RawEntry,
) -> bool {
    if e.is_dir {
        row.is_branch(line(show_properties, view, e), Seq::empty())
    } else {
        row.is_line(line(show_properties, view, e))
    }
}

/// The row of an entry.
pub fn row(show_properties: bool, view: PropertyView, e: &RawEntry) -> (r: Element)
    ensures
        shows(r, show_properties, view, *e),
{
    let mut text = if show_properties {
        match view {
            PropertyView::Long => long_properties::format_properties(e),
            PropertyView::Short => short_properties::format_properties(e),
        }
    } else {
        String::new()
    };
    text.append(INPUT_OPEN);
    text.append(e.name.as_str());
    text.append(INPUT_CLOSE);
    proof {
        assert(text@ =~= line(show_properties, view, *e));
    }
    if e.is_dir {
        Element::new_obj(text)
    } else {
        Element::Str(text)
    }
}

/// `rows` show the entries at `places`, in that order.
pub open spec fn rows_show(
    rows: Seq<Element>,
    show_properties: bool,
    view: PropertyView,
    entries: Seq<RawEntry>,
    places: Seq<usize>,
) -> bool {
    &&& rows.len() == places.len()
    &&& forall|k: int|
        0 <= k < rows.len() ==> shows(
            #[trigger] rows[k],
            show_properties,
            view,
            entries[places[k] as int],
        )
}

/// `rows` are the listing of a folder with these entries.
pub open spec fn is_listing(
    rows: Seq<Element>,
    mode: SortMode,
    show_hidden: bool,
    show_properties: bool,
    view: PropertyView,
    entries: Seq<RawEntry>,
) -> bool {
    exists|places: Seq<usize>|
        #![trigger is_arrangement(mode, show_hidden, entries, places)]
        is_arrangement(mode, show_hidden, entries, places) && rows_show(
            rows,
            show_properties,
            view,
            entries,
            places,
        )
}

/// The listing of a folder with these entries.
pub fn list_entries(
    mode: SortMode,
    show_hidden: bool,
    show_properties: bool,
    view: PropertyView,
    entries: &Vec<RawEntry>,
) -> (rows: Vec<Element>)
    ensures
        is_listing(rows@, mode, show_hidden, show_properties, view, entries@),
{
    let places = arrange(mode, show_hidden, entries);
    let mut rows: Vec<Element> = Vec::new();
    for k in 0..places.len()
        invariant
            is_arrangement(mode, show_hidden, entries@, places@),
            rows_show(rows@, show_properties, view, entries@, places@.take(k as int)),
    {
        assert(places@.contains(places@[k as int]));
        let next = row(show_properties, view, &entries[places[k]]);
        proof {
            assert(places@.take(k + 1) =~= places@.take(k as int).push(places@[k as int]));
        }
        rows.push(next);
    }
    proof {
        assert(places@.take(places@.len() as int) =~= places@);
    }
    rows
}

/// What the line tells before the name opens no input field: neither the owner
/// nor the group nor the date has an opening tag.
pub open spec fn tells_no_tag(view: PropertyView, e: RawEntry) -> bool {
    view == PropertyView::Long ==> {
        &&& e.owner is Some ==> !has_tag(e.owner->0@, INPUT_OPEN@)
        &&& e.group is Some ==> !has_tag(e.group->0@, INPUT_OPEN@)
        &&& !has_tag(e.date@, INPUT_OPEN@)
    }
}

/// Two texts without an opening bracket make one.
proof fn join_without_bracket(a: Seq<char>, b: Seq<char>)
    requires
        !a.contains('<'),
        !b.contains('<'),
    ensures
        !(a + b).contains('<'),
{
    assert forall|i: int| 0 <= i < (a + b).len() implies (a + b)[i] != '<' by {
        if i < a.len() {
            assert(a.contains(a[i]));
        } else {
            assert(b.contains(b[i - a.len()]));
        }
    }
}

/// A number has no bracket.
proof fn number_without_bracket(n: nat)
    ensures
        !decimal(n).contains('<'),
    decreases n,
{
    if n >= 10 {
        number_without_bracket(n / 10);
        assert(!seq![digit(n % 10)].contains('<'));
        join_without_bracket(decimal(n / 10), seq![digit(n % 10)]);
        assert(decimal(n) =~= decimal(n / 10) + seq![digit(n % 10)]);
    }
}

/// A column has no bracket if what stands in it has none.
proof fn column_without_bracket(s: Seq<char>, width: int, fill: char)
    requires
        !s.contains('<'),
        fill != '<',
    ensures
        !right_aligned(s, width, fill).contains('<'),
        !left_aligned(s, width).contains('<'),
{
    join_without_bracket(run_of(fill, width - s.len()), s);
    join_without_bracket(s, run_of(' ', width - s.len()));
}

/// A name or a number in a column opens no input field.
proof fn name_column_without_tag(name: Option<String>, id: u32)
    requires
        name is Some ==> !has_tag(name->0@, INPUT_OPEN@),
    ensures
        !has_tag(left_aligned(name_or_number(name, id), 8), INPUT_OPEN@),
{
    let text = name_or_number(name, id);
    let fill = run_of(' ', 8 - text.len());
    number_without_bracket(id as nat);
    if name is None {
        no_bracket_no_tag(text);
    }
    no_bracket_no_tag(fill);
    tag_in_one_part(text, fill);
}

/// What opens no input field, with a column and a space behind it, opens none.
proof fn next_column_without_tag(before: Seq<char>, column: Seq<char>)
    requires
        !has_tag(before, INPUT_OPEN@),
        before.len() == 0 || before.last() == ' ',
        !has_tag(column, INPUT_OPEN@),
    ensures
        !has_tag(before + column + seq![' '], INPUT_OPEN@),
{
    tag_in_one_part(before, column);
    no_bracket_no_tag(seq![' ']);
    tag_in_one_part(before + column, seq![' ']);
}

/// The properties open no input field, and end in a space.
proof fn properties_without_tag(view: PropertyView, e: RawEntry)
    requires
        tells_no_tag(view, e),
    ensures
        !has_tag(told(true, view, e), INPUT_OPEN@),
        told(true, view, e).len() > 0,
        told(true, view, e).last() == ' ',
{
    let space = seq![' '];
    number_without_bracket(e.size as nat);
    match view {
        PropertyView::Long => {
            number_without_bracket(e.nlink as nat);
            let links = right_aligned(decimal(e.nlink as nat), 2, ' ');
            let owner = left_aligned(name_or_number(e.owner, e.uid), 8);
            let group = left_aligned(name_or_number(e.group, e.gid), 8);
            let size = right_aligned(decimal(e.size as nat), 5, ' ');
            column_without_bracket(decimal(e.nlink as nat), 2, ' ');
            column_without_bracket(decimal(e.size as nat), 5, ' ');
            no_bracket_no_tag(permissions(e.mode));
            no_bracket_no_tag(links);
            no_bracket_no_tag(size);
            no_bracket_no_tag(space);
            name_column_without_tag(e.owner, e.uid);
            name_column_without_tag(e.group, e.gid);
            let a = permissions(e.mode) + space;
            tag_in_one_part(permissions(e.mode), space);
            let b = a + links + space;
            next_column_without_tag(a, links);
            let c = b + owner + space;
            next_column_without_tag(b, owner);
            let d = c + group + space;
            next_column_without_tag(c, group);
            let f = d + size + space;
            next_column_without_tag(d, size);
            next_column_without_tag(f, e.date@);
            assert(long_properties(e) == f + e.date@ + space);
        },
        PropertyView::Short => {
            let secs = e.mtime.seconds_since_epoch();
            let (year, month, day) = date_of(secs / 86400);
            let hour = (secs % 86400) / 3600;
            let minute = (secs % 3600) / 60;
            number_without_bracket(year as nat);
            number_without_bracket(month as nat);
            number_without_bracket(day as nat);
            number_without_bracket(hour as nat);
            number_without_bracket(minute as nat);
            let size = right_aligned(decimal(e.size as nat), 9, ' ');
            column_without_bracket(decimal(e.size as nat), 9, ' ');
            column_without_bracket(decimal(year as nat), 4, '0');
            column_without_bracket(decimal(month as nat), 2, '0');
            column_without_bracket(decimal(day as nat), 2, '0');
            column_without_bracket(decimal(hour as nat), 2, '0');
            column_without_bracket(decimal(minute as nat), 2, '0');
            let dash = seq!['-'];
            let colon = seq![':'];
            let a = size + space + padded(year, 4) + dash;
            join_without_bracket(size, space);
            join_without_bracket(size + space, padded(year, 4));
            join_without_bracket(size + space + padded(year, 4), dash);
            let b = a + padded(month, 2) + dash;
            join_without_bracket(a, padded(month, 2));
            join_without_bracket(a + padded(month, 2), dash);
            let c = b + padded(day, 2) + space;
            join_without_bracket(b, padded(day, 2));
            join_without_bracket(b + padded(day, 2), space);
            let d = c + padded(hour, 2) + colon;
            join_without_bracket(c, padded(hour, 2));
            join_without_bracket(c + padded(hour, 2), colon);
            join_without_bracket(d, padded(minute, 2));
            join_without_bracket(d + padded(minute, 2), space);
            assert(short_properties(e) == d + padded(minute, 2) + space);
            no_bracket_no_tag(short_properties(e));
        },
    }
}

/// The line of an entry gives back the entry's name, with and without its
/// properties. Left out are names that hold a closing tag, names that end in a
/// backslash where the line does not display as the name, and owners, groups and
/// dates that open an input field themselves.
pub proof fn line_shows_name(
    show_properties: bool,
    view: PropertyView,
    e: RawEntry,
    display: Seq<char>,
)
    requires
        show_properties ==> tells_no_tag(view, e),
        forall|at: int| !occurs_at(e.name@, INPUT_CLOSE@, at),
        e.name@.len() > 0 && e.name@.last() == '\\' ==> display == e.name@,
    ensures
        shown_name(line(show_properties, view, e), display) == e.name@,
{
    let before = told(show_properties, view, e);
    if show_properties {
        properties_without_tag(view, e);
    } else {
        no_bracket_no_tag(before);
    }
    label_shows_name(before, e.name@, display);
}

/// The line of an entry, as it is listed, names that entry to be deleted: what
/// stands in its input field is the entry's name and has no separators to trim.
/// Left out besides are all names that end in a backslash, which is trimmed.
pub proof fn line_names_what_to_delete(
    show_properties: bool,
    view: PropertyView,
    e: RawEntry,
    display: Seq<char>,
)
    requires
        show_properties ==> tells_no_tag(view, e),
        is_entry_name(e.name@),
        forall|at: int| !occurs_at(e.name@, INPUT_CLOSE@, at),
        e.name@.last() != '\\',
    ensures
        trim_separators(shown_name(line(show_properties, view, e), display)) == e.name@,
{
    line_shows_name(show_properties, view, e, display);
    assert(e.name@.contains(e.name@.last()));
}

/// Without properties, the line of an entry is its name in an input field and
/// nothing else, in a list of its own that is empty if the entry can be entered.
pub proof fn row_is_the_name(row: Element, view: PropertyView, e: RawEntry)
    requires
        shows(row, false, view, e),
    ensures
        match row {
            Element::Str(text) => !e.is_dir && text@ == "<input>"@ + e.name@ + "</input>"@,
            Element::Obj(branch) => e.is_dir && branch.key@ == "<input>"@ + e.name@ + "</input>"@
                && branch.children@.len() == 0,
        },
{
    assert(line(false, view, e) =~= "<input>"@ + e.name@ + "</input>"@);
    if e.is_dir {
        assert(row->Obj_0.children@.map_values(|child: String| child@).len() == 0);
    }
}

/// Showing properties puts them in front of the line and changes nothing else:
/// the long ones where they are asked for, the short ones otherwise.
pub proof fn properties_stand_in_front(row: Element, view: PropertyView, e: RawEntry)
    requires
        shows(row, true, view, e),
    ensures
        ({
            let field = "<input>"@ + e.name@ + "</input>"@;
            let properties = match view {
                PropertyView::Long => long_properties(e),
                PropertyView::Short => short_properties(e),
            };
            match row {
                Element::Str(text) => !e.is_dir && text@ == properties + field,
                Element::Obj(branch) => e.is_dir && branch.key@ == properties + field
                    && branch.children@.len() == 0,
            }
        }),
{
    if e.is_dir {
        assert(row->Obj_0.children@.map_values(|child: String| child@).len() == 0);
    }
}

/// A listing has a row for each entry that is not left out as hidden, and no
/// other. Each row shows one entry, no two the same one, and the rows of two
/// entries stand in the order asked for.
pub proof fn listing_shows_the_folder(
    rows: Seq<Element>,
    mode: SortMode,
    show_hidden: bool,
    show_properties: bool,
    view: PropertyView,
    entries: Seq<RawEntry>,
)
    requires
        is_listing(rows, mode, show_hidden, show_properties, view, entries),
    ensures
        exists|places: Seq<usize>|
            #![trigger rows_show(rows, show_properties, view, entries, places)]
            {
                &&& rows_show(rows, show_properties, view, entries, places)
                &&& places.len() == rows.len()
                &&& forall|k: int|
                    0 <= k < rows.len() ==> (#[trigger] places[k]) < entries.len() && shows(
                        rows[k],
                        show_properties,
                        view,
                        entries[places[k] as int],
                    )
                &&& forall|p: int, q: int|
                    0 <= p < q < places.len() ==> #[trigger] places[p] != #[trigger] places[q]
                &&& forall|i: usize|
                    i < entries.len() ==> (#[trigger] places.contains(i) <==> show_hidden
                        || entries[i as int].name@.len() == 0 || entries[i as int].name@[0] != '.')
                &&& forall|p: int, q: int|
                    #![trigger places[p], places[q]]
                    0 <= p < q < places.len() ==> {
                        let first = entries[places[p] as int];
                        let second = entries[places[q] as int];
                        match mode {
                            SortMode::Alpha => natural_order(first.name@, second.name@) <= 0,
                            SortMode::Chrono => first.mtime.secs > second.mtime.secs || (
                            first.mtime.secs == second.mtime.secs && first.mtime.nanos
                                >= second.mtime.nanos),
                        }
                    }
            },
{
    let places = choose|places: Seq<usize>|
        #![trigger is_arrangement(mode, show_hidden, entries, places)]
        is_arrangement(mode, show_hidden, entries, places) && rows_show(
            rows,
            show_properties,
            view,
            entries,
            places,
        );
    listed_unless_hidden(mode, show_hidden, entries, places);
    assert forall|k: int| 0 <= k < rows.len() implies (#[trigger] places[k]) < entries.len()
        && shows(rows[k], show_properties, view, entries[places[k] as int]) by {
        assert(places.contains(places[k]));
        assert(shows(rows[k], show_properties, view, entries[places[k] as int]));
    }
    assert forall|p: int, q: int|
        #![trigger places[p], places[q]]
        0 <= p < q < places.len() implies {
        let first = entries[places[p] as int];
        let second = entries[places[q] as int];
        match mode {
            SortMode::Alpha => natural_order(first.name@, second.name@) <= 0,
            SortMode::Chrono => first.mtime.secs > second.mtime.secs || (first.mtime.secs
                == second.mtime.secs && first.mtime.nanos >= second.mtime.nanos),
        }
    } by {
        match mode {
            SortMode::Alpha => {
                alphanumeric_order_is_by_name(show_hidden, entries, places, p, q);
            },
            SortMode::Chrono => {
                chronological_order_is_newest_first(show_hidden, entries, places, p, q);
            },
        }
    }
}

}
