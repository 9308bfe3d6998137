//! The markup of a list's lines: the name of an entry stands in an input
//! field, `<input>name</input>`, behind whatever else the line tells of it.

use vstd::prelude::*;
use vstd::string::*;

verus! {

pub const INPUT_OPEN: &'static str = "<input>";

pub const INPUT_CLOSE: &'static str = "</input>";

/// `tag` stands in `text` at position `at`.
pub open spec fn occurs_at(text: Seq<char>, tag: Seq<char>, at: int) -> bool {
    0 <= at && at + tag.len() <= text.len() && text.subrange(at, at + tag.len()) == tag
}

/// `tag` stands in `text` at position `at`, not behind a backslash.
pub open spec fn stands_at(text: Seq<char>, tag: Seq<char>, at: int) -> bool {
    occurs_at(text, tag, at) && !(at > 0 && text[at - 1] == '\\')
}

/// `tag` stands somewhere in `text`, not behind a backslash.
pub open spec fn has_tag(text: Seq<char>, tag: Seq<char>) -> bool {
    exists|at: int| stands_at(text, tag, at)
}

/// The first input field of `text` starts at `open` and ends at `close`: the
/// first opening tag not behind a backslash, and the first closing tag after it.
pub open spec fn field_at(text: Seq<char>, open: int, close: int) -> bool {
    &&& stands_at(text, INPUT_OPEN@, open)
    &&& forall|at: int| at < open ==> !stands_at(text, INPUT_OPEN@, at)
    &&& open + INPUT_OPEN@.len() <= close
    &&& occurs_at(text, INPUT_CLOSE@, close)
    &&& forall|at: int|
        open + INPUT_OPEN@.len() <= at < close ==> !occurs_at(text, INPUT_CLOSE@, at)
}

/// What stands in the first input field of `text`.
pub open spec fn field_content(text: Seq<char>) -> Option<Seq<char>> {
    if exists|open: int, close: int| field_at(text, open, close) {
        let (open, close) = choose|open: int, close: int| field_at(text, open, close);
        Some(text.subrange(open + INPUT_OPEN@.len(), close))
    } else {
        None
    }
}

/// Text that no markup is read from: it has no opening bracket, and no
/// backslash directly before a closing one.
pub open spec fn is_plain(text: Seq<char>) -> bool {
    &&& !text.contains('<')
    &&& forall|i: int| 0 < i < text.len() ==> !#[trigger] is_escaped(text, i)
}

/// A closing bracket directly behind a backslash.
pub open spec fn is_escaped(text: Seq<char>, i: int) -> bool {
    text[i] == '>' && text[i - 1] == '\\'
}

/// `content` in an input field.
pub open spec fn in_field(content: Seq<char>) -> Seq<char> {
    INPUT_OPEN@ + content + INPUT_CLOSE@
}

/// `text` reads as `name` at first sight: it is the name itself or nothing but
/// an input field with it, and no markup is read from the name.
pub open spec fn reads_as(text: Seq<char>, name: Seq<char>) -> bool {
    is_plain(name) && (text == name || text == in_field(name))
}

/// What `sicompass_sdk::tags::strip_display` leaves of a line: its text
/// without the markup.
pub uninterp spec fn display_text(text: Seq<char>) -> Seq<char>;

/// The text of a line without its markup, from
/// `sicompass_sdk::tags::strip_display`.
///
/// Taken on trust: the result depends on the text alone. Text without an opening
/// bracket, and without a backslash directly before a closing one, is its own
/// display text, and a line that is nothing but an input field with such text
/// displays as that text.
#[verifier::external_body]
pub(crate) fn strip_display(text: &str) -> (r: String)
    ensures
        r@ == display_text(text@),
        forall|name: Seq<char>| #[trigger] reads_as(text@, name) ==> r@ == name,
{
    sicompass_sdk::tags::strip_display(text)
}

/// Whether a line has an input field, from `sicompass_sdk::tags::has_input`.
///
/// Taken on trust: it has one if an opening and a closing tag stand somewhere
/// in it, neither behind a backslash.
#[verifier::external_body]
pub(crate) fn has_input(text: &str) -> (r: bool)
    ensures
        r == (has_tag(text@, INPUT_OPEN@) && has_tag(text@, INPUT_CLOSE@)),
{
    sicompass_sdk::tags::has_input(text)
}

/// What stands in the first input field of a line, from
/// `sicompass_sdk::tags::extract_input`.
///
/// Taken on trust: the field begins at the first opening tag that is not behind
/// a backslash and ends at the first closing tag after it.
#[verifier::external_body]
pub(crate) fn extract_input(text: &str) -> (r: Option<String>)
    ensures
        match r {
            Some(content) => field_content(text@) == Some(content@),
            None => field_content(text@) is None,
        },
{
    sicompass_sdk::tags::extract_input(text)
}

/// The name that a line shows: what stands in its input field, and where it
/// has none, its display text.
pub open spec fn shown_name(label: Seq<char>, display: Seq<char>) -> Seq<char> {
    if has_tag(label, INPUT_OPEN@) && has_tag(label, INPUT_CLOSE@) && field_content(label)
        is Some {
        field_content(label)->0
    } else {
        display
    }
}

/// The name that a line shows, given its display text.
pub fn name_in_label(label: &str, display: String) -> (r: String)
    ensures
        r@ == shown_name(label@, display@),
{
    if has_input(label) {
        match extract_input(label) {
            Some(content) => content,
            None => display,
        }
    } else {
        display
    }
}

/// The characters of the tags.
proof fn tag_characters()
    ensures
        INPUT_OPEN@.len() == 7,
        INPUT_OPEN@[0] == '<',
        forall|k: int| 0 < k < 7 ==> INPUT_OPEN@[k] != '<',
        forall|k: int| 0 <= k < 7 ==> INPUT_OPEN@[k] != ' ',
        INPUT_OPEN@.last() == '>',
        INPUT_CLOSE@.len() == 8,
        INPUT_CLOSE@[0] == '<',
        forall|k: int| 0 < k < 8 ==> INPUT_CLOSE@[k] != '<',
{
    reveal_strlit("<input>");
    reveal_strlit("</input>");
}

/// A tag that begins inside a text before a bracket ends before it.
proof fn tag_ends_before_bracket(text: Seq<char>, tag: Seq<char>, at: int, bracket: int)
    requires
        occurs_at(text, tag, at),
        forall|k: int| 0 < k < tag.len() ==> tag[k] != '<',
        at < bracket < text.len(),
        text[bracket] == '<',
    ensures
        at + tag.len() <= bracket,
{
    if bracket < at + tag.len() {
        assert(text.subrange(at, at + tag.len())[bracket - at] == text[bracket]);
    }
}

/// A tag inside a part of a text stands in the text.
proof fn occurs_in_part(text: Seq<char>, tag: Seq<char>, from: int, to: int, at: int)
    requires
        0 <= from <= at,
        at + tag.len() <= to <= text.len(),
    ensures
        occurs_at(text, tag, at) == occurs_at(text.subrange(from, to), tag, at - from),
{
    assert(text.subrange(from, to).subrange(at - from, at - from + tag.len()) =~= text.subrange(
        at,
        at + tag.len(),
    ));
}

/// Text without opening brackets has no tags.
pub proof fn no_bracket_no_tag(text: Seq<char>)
    requires
        !text.contains('<'),
    ensures
        !has_tag(text, INPUT_OPEN@),
{
    tag_characters();
    assert forall|at: int| !stands_at(text, INPUT_OPEN@, at) by {
        if occurs_at(text, INPUT_OPEN@, at) {
            assert(text.subrange(at, at + INPUT_OPEN@.len())[0] == text[at]);
            assert(text.contains(text[at]));
        }
    }
}

/// A tag in two texts put together stands in one of them, if they meet at a space.
pub proof fn tag_in_one_part(a: Seq<char>, b: Seq<char>)
    requires
        !has_tag(a, INPUT_OPEN@),
        !has_tag(b, INPUT_OPEN@),
        a.len() == 0 || b.len() == 0 || a.last() == ' ' || b[0] == ' ',
    ensures
        !has_tag(a + b, INPUT_OPEN@),
{
    tag_characters();
    let text = a + b;
    let meet = a.len() as int;
    assert(text.subrange(0, meet) =~= a);
    assert(text.subrange(meet, text.len() as int) =~= b);
    assert forall|at: int| !stands_at(text, INPUT_OPEN@, at) by {
        if stands_at(text, INPUT_OPEN@, at) {
            let tag = text.subrange(at, at + 7);
            if at + 7 <= meet {
                occurs_in_part(text, INPUT_OPEN@, 0, meet, at);
                assert(at > 0 ==> a[at - 1] == text[at - 1]);
                assert(stands_at(a, INPUT_OPEN@, at));
            } else if at >= meet {
                occurs_in_part(text, INPUT_OPEN@, meet, text.len() as int, at);
                assert(at > meet ==> b[at - meet - 1] == text[at - 1]);
                assert(stands_at(b, INPUT_OPEN@, at - meet));
            } else {
                assert(tag[meet - at] == b[0]);
                assert(tag[meet - 1 - at] == a.last());
            }
        }
    }
}

/// The line of an entry, whatever is told of the entry before its input field,
/// shows the entry's name. Left out are names that hold a closing tag, and those
/// that end in a backslash, which hides the closing tag behind them, unless the
/// line displays as the name.
pub proof fn label_shows_name(told: Seq<char>, name: Seq<char>, display: Seq<char>)
    requires
        !has_tag(told, INPUT_OPEN@),
        told.len() > 0 ==> told.last() != '\\',
        forall|at: int| !occurs_at(name, INPUT_CLOSE@, at),
        name.len() > 0 && name.last() == '\\' ==> display == name,
    ensures
        shown_name(told + in_field(name), display) == name,
{
    tag_characters();
    let text = told + in_field(name);
    let open = told.len() as int;
    let close = open + 7 + name.len();
    assert(text.subrange(open, open + 7) =~= INPUT_OPEN@);
    assert(text.subrange(close, close + 8) =~= INPUT_CLOSE@);
    assert(text.subrange(open + 7, close) =~= name);
    assert(text.subrange(0, open) =~= told);
    assert(text[open] == '<');
    assert(text[close] == '<');
    assert(open > 0 ==> text[open - 1] == told.last());
    assert(stands_at(text, INPUT_OPEN@, open));
    assert(text[close - 1] == (if name.len() > 0 {
        name.last()
    } else {
        INPUT_OPEN@.last()
    }));
    if name.len() == 0 || name.last() != '\\' {
        assert(stands_at(text, INPUT_CLOSE@, close));
    }
    assert forall|at: int| at < open implies !stands_at(text, INPUT_OPEN@, at) by {
        if stands_at(text, INPUT_OPEN@, at) {
            tag_ends_before_bracket(text, INPUT_OPEN@, at, open);
            occurs_in_part(text, INPUT_OPEN@, 0, open, at);
            assert(at > 0 ==> told[at - 1] == text[at - 1]);
            assert(stands_at(told, INPUT_OPEN@, at));
        }
    }
    assert forall|at: int| open + 7 <= at < close implies !occurs_at(text, INPUT_CLOSE@, at) by {
        if occurs_at(text, INPUT_CLOSE@, at) {
            tag_ends_before_bracket(text, INPUT_CLOSE@, at, close);
            occurs_in_part(text, INPUT_CLOSE@, open + 7, close, at);
        }
    }
    assert(field_at(text, open, close));
    let (o, c) = choose|o: int, c: int| field_at(text, o, c);
    assert(field_at(text, o, c));
    assert(o == open);
    assert(c == close);
}

/// A line that is nothing but an input field with text that no markup is read
/// from, and that displays as that text, shows it.
proof fn plain_name_shows(name: Seq<char>)
    requires
        is_plain(name),
    ensures
        shown_name(in_field(name), name) == name,
{
    tag_characters();
    assert forall|at: int| !occurs_at(name, INPUT_CLOSE@, at) by {
        if occurs_at(name, INPUT_CLOSE@, at) {
            assert(name.subrange(at, at + INPUT_CLOSE@.len())[0] == name[at]);
            assert(name.contains(name[at]));
        }
    }
    assert(Seq::<char>::empty() + in_field(name) =~= in_field(name));
    no_bracket_no_tag(Seq::empty());
    label_shows_name(Seq::empty(), name, name);
}

/// The name on disk of the entry that a line shows. The properties of the
/// entry, if the line shows them, stand outside its input field.
pub fn entry_name(label: &str) -> (r: String)
    ensures
        r@ == shown_name(label@, display_text(label@)),
        forall|name: Seq<char>| #[trigger] reads_as(label@, name) ==> r@ == name,
        forall|told: Seq<char>, name: Seq<char>|
            label@ == #[trigger] (told + in_field(name)) && !has_tag(told, INPUT_OPEN@) && (
            told.len() > 0 ==> told.last() != '\\') && (forall|at: int|
                !occurs_at(name, INPUT_CLOSE@, at)) && (name.len() > 0 ==> name.last() != '\\')
                ==> r@ == name,
{
    proof {
        assert forall|told: Seq<char>, name: Seq<char>|
            label@ == #[trigger] (told + in_field(name)) && !has_tag(told, INPUT_OPEN@) && (
            told.len() > 0 ==> told.last() != '\\') && (forall|at: int|
                !occurs_at(name, INPUT_CLOSE@, at)) && (name.len() > 0 ==> name.last()
                != '\\') implies shown_name(label@, display_text(label@)) == name by {
            label_shows_name(told, name, display_text(label@));
        }
        assert forall|name: Seq<char>| #[trigger] reads_as(label@, name) implies shown_name(
            label@,
            name,
        ) == name by {
            if label@ == name {
                no_bracket_no_tag(name);
            } else {
                plain_name_shows(name);
            }
        }
    }
    name_in_label(label, strip_display(label))
}

/// The name is what stands in the first input field, whatever follows it. Left
/// out are names that hold a closing tag or end in a backslash, and text before
/// the field that opens one or ends in a backslash.
pub proof fn first_field_counts(
    told: Seq<char>,
    name: Seq<char>,
    rest: Seq<char>,
    display: Seq<char>,
)
    requires
        !has_tag(told, "<input>"@),
        told.len() > 0 ==> told.last() != '\\',
        forall|at: int| !occurs_at(name, "</input>"@, at),
        name.len() > 0 ==> name.last() != '\\',
    ensures
        shown_name(told + "<input>"@ + name + "</input>"@ + rest, display) == name,
{
    tag_characters();
    let text = told + "<input>"@ + name + "</input>"@ + rest;
    let open = told.len() as int;
    let close = open + 7 + name.len();
    assert(text.subrange(open, open + 7) =~= INPUT_OPEN@);
    assert(text.subrange(close, close + 8) =~= INPUT_CLOSE@);
    assert(text.subrange(open + 7, close) =~= name);
    assert(text.subrange(0, open) =~= told);
    assert(text[open] == INPUT_OPEN@[0]);
    assert(text[close] == INPUT_CLOSE@[0]);
    assert(open > 0 ==> text[open - 1] == told.last());
    assert(stands_at(text, INPUT_OPEN@, open));
    assert(text[close - 1] == (if name.len() > 0 {
        name.last()
    } else {
        INPUT_OPEN@.last()
    }));
    assert(stands_at(text, INPUT_CLOSE@, close));
    assert forall|at: int| at < open implies !stands_at(text, INPUT_OPEN@, at) by {
        if stands_at(text, INPUT_OPEN@, at) {
            tag_ends_before_bracket(text, INPUT_OPEN@, at, open);
            occurs_in_part(text, INPUT_OPEN@, 0, open, at);
            assert(at > 0 ==> told[at - 1] == text[at - 1]);
            assert(stands_at(told, INPUT_OPEN@, at));
        }
    }
    assert forall|at: int| open + 7 <= at < close implies !occurs_at(text, INPUT_CLOSE@, at) by {
        if occurs_at(text, INPUT_CLOSE@, at) {
            tag_ends_before_bracket(text, INPUT_CLOSE@, at, close);
            occurs_in_part(text, INPUT_CLOSE@, open + 7, close, at);
        }
    }
    assert(field_at(text, open, close));
    let (o, c) = choose|o: int, c: int| field_at(text, o, c);
    assert(field_at(text, o, c));
    assert(o == open);
    assert(c == close);
}

/// A line without an opening or without a closing tag shows what it displays.
pub proof fn line_without_field_shows_its_display(label: Seq<char>, display: Seq<char>)
    requires
        !has_tag(label, "<input>"@) || !has_tag(label, "</input>"@),
    ensures
        shown_name(label, display) == display,
{
}

/// A line with an input field shows what stands between its first opening tag and
/// the first closing tag behind that, if any closing tag of it counts.
pub proof fn field_content_is_shown(label: Seq<char>, open: int, close: int, display: Seq<char>)
    requires
        stands_at(label, "<input>"@, open),
        forall|at: int| at < open ==> !stands_at(label, "<input>"@, at),
        open + 7 <= close,
        occurs_at(label, "</input>"@, close),
        forall|at: int| open + 7 <= at < close ==> !occurs_at(label, "</input>"@, at),
    ensures
        field_content(label) == Some(label.subrange(open + 7, close)),
        has_tag(label, "</input>"@) ==> shown_name(label, display) == label.subrange(
            open + 7,
            close,
        ),
        !has_tag(label, "</input>"@) ==> shown_name(label, display) == display,
{
    tag_characters();
    assert(field_at(label, open, close));
    let (o, c) = choose|o: int, c: int| field_at(label, o, c);
    assert(field_at(label, o, c));
    assert(o == open);
    assert(c == close);
}

/// A line whose first opening tag has no closing tag behind it shows what it
/// displays.
pub proof fn open_field_shows_the_display(label: Seq<char>, open: int, display: Seq<char>)
    requires
        stands_at(label, "<input>"@, open),
        forall|at: int| at < open ==> !stands_at(label, "<input>"@, at),
        forall|at: int| open + 7 <= at ==> !occurs_at(label, "</input>"@, at),
    ensures
        shown_name(label, display) == display,
{
    tag_characters();
    if field_content(label) is Some {
        let (o, c) = choose|o: int, c: int| field_at(label, o, c);
        assert(field_at(label, o, c));
        assert(o == open);
    }
}

}
