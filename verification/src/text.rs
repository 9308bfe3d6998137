//! Text in the shapes the file browser shows and reads: numbers, columns and
//! names without their trailing separators.

use vstd::prelude::*;
use vstd::string::*;

verus! {

/// `s` without the run of `c` at its end.
pub open spec fn trim_end(s: Seq<char>, c: char) -> Seq<char>
    decreases s.len(),
{
    if s.len() > 0 && s.last() == c {
        trim_end(s.drop_last(), c)
    } else {
        s
    }
}

/// `s` without the slashes at its end, then without the backslashes before them.
pub open spec fn trim_separators(s: Seq<char>) -> Seq<char> {
    trim_end(trim_end(s, '/'), '\\')
}

/// The character of a decimal digit.
pub open spec fn digit(d: nat) -> char {
    if d == 0 {
        '0'
    } else if d == 1 {
        '1'
    } else if d == 2 {
        '2'
    } else if d == 3 {
        '3'
    } else if d == 4 {
        '4'
    } else if d == 5 {
        '5'
    } else if d == 6 {
        '6'
    } else if d == 7 {
        '7'
    } else if d == 8 {
        '8'
    } else {
        '9'
    }
}

/// `n` in decimal, without leading zeros.
pub open spec fn decimal(n: nat) -> Seq<char>
    decreases n,
{
    if n < 10 {
        seq![digit(n)]
    } else {
        decimal(n / 10).push(digit(n % 10))
    }
}

/// `n` times the character `c`.
pub open spec fn run_of(c: char, n: int) -> Seq<char> {
    Seq::new(if n > 0 { n as nat } else { 0 }, |i: int| c)
}

/// `s` at the right end of a column of `width` filled with `fill`; unchanged if it is wider.
pub open spec fn right_aligned(s: Seq<char>, width: int, fill: char) -> Seq<char> {
    run_of(fill, width - s.len()) + s
}

/// `s` at the left end of a column of `width` filled with spaces; unchanged if it is wider.
pub open spec fn left_aligned(s: Seq<char>, width: int) -> Seq<char> {
    s + run_of(' ', width - s.len())
}

/// A name that starts with a dot.
pub open spec fn is_hidden(name: Seq<char>) -> bool {
    name.len() > 0 && name[0] == '.'
}

/// Trimming takes characters off the end only.
pub proof fn trim_end_is_prefix(s: Seq<char>, c: char)
    ensures
        trim_end(s, c).len() <= s.len(),
        trim_end(s, c) == s.take(trim_end(s, c).len() as int),
        trim_end(s, c).len() == 0 || trim_end(s, c).last() != c,
    decreases s.len(),
{
    if s.len() > 0 && s.last() == c {
        trim_end_is_prefix(s.drop_last(), c);
    }
}

/// The characters of `s`.
pub(crate) fn chars_of(s: &str) -> (v: Vec<char>)
    ensures
        v@ == s@,
{
    let mut v: Vec<char> = Vec::new();
    for c in it: s.chars()
        invariant
            v@ == it.seq().take(it.index()),
            it.seq() == s@,
    {
        v.push(c);
    }
    v
}

/// Whether two texts are the same.
pub(crate) fn same_text(a: &str, b: &str) -> (r: bool)
    ensures
        r == (a@ == b@),
{
    a.to_owned() == b.to_owned()
}

/// `s` without the run of `c` at its end.
pub fn trim_end_matches(s: &str, c: char) -> (r: String)
    ensures
        r@ == trim_end(s@, c),
{
    let v = chars_of(s);
    let mut n: usize = v.len();
    assert(s@.take(n as int) =~= s@);
    while n > 0 && v[n - 1] == c
        invariant
            n <= v.len(),
            v@ == s@,
            trim_end(s@, c) == trim_end(s@.take(n as int), c),
        decreases n,
    {
        assert(s@.take(n as int).drop_last() =~= s@.take(n - 1));
        n = n - 1;
    }
    s.substring_char(0, n).to_owned()
}

/// The name of an entry from a name that may end in separators.
pub fn without_separators(s: &str) -> (r: String)
    ensures
        r@ == trim_separators(s@),
        s@.len() > 0 && s@.last() != '/' && s@.last() != '\\' ==> r@ == s@,
{
    trim_end_matches(trim_end_matches(s, '/').as_str(), '\\')
}

/// Whether `name` starts with a dot.
pub fn starts_with_dot(name: &str) -> (r: bool)
    ensures
        r == is_hidden(name@),
        r <==> name@.len() > 0 && name@[0] == '.',
{
    !name.is_empty() && name.get_char(0) == '.'
}

/// The decimal digit `d`.
fn digit_text(d: u64) -> (r: &'static str)
    requires
        d < 10,
    ensures
        r@ == seq![digit(d as nat)],
{
    proof {
        reveal_strlit("0");
        reveal_strlit("1");
        reveal_strlit("2");
        reveal_strlit("3");
        reveal_strlit("4");
        reveal_strlit("5");
        reveal_strlit("6");
        reveal_strlit("7");
        reveal_strlit("8");
        reveal_strlit("9");
    }
    match d {
        0 => "0",
        1 => "1",
        2 => "2",
        3 => "3",
        4 => "4",
        5 => "5",
        6 => "6",
        7 => "7",
        8 => "8",
        _ => "9",
    }
}

/// `n` in decimal.
pub fn decimal_text(n: u64) -> (r: String)
    ensures
        r@ == decimal(n as nat),
        value_of(r@) == n,
    decreases n,
{
    proof {
        decimal_reads_back(n as nat);
    }
    if n < 10 {
        digit_text(n).to_owned()
    } else {
        decimal_text(n / 10).concat(digit_text(n % 10))
    }
}

/// `n` copies of the one-character text `fill`.
fn filler(fill: &str, n: usize) -> (r: String)
    requires
        fill@.len() == 1,
    ensures
        r@ == run_of(fill@[0], n as int),
{
    let mut r = String::new();
    for i in 0..n
        invariant
            fill@.len() == 1,
            r@ == run_of(fill@[0], i as int),
    {
        r.append(fill);
        assert(r@ =~= run_of(fill@[0], i + 1));
    }
    r
}

/// `s` at the right end of a column of `width`, filled with the one-character text `fill`.
pub fn align_right(s: &str, width: usize, fill: &str) -> (r: String)
    requires
        fill@.len() == 1,
    ensures
        r@ == right_aligned(s@, width as int, fill@[0]),
        is_column(r@, s@, width as int, fill@[0]),
{
    proof {
        columns_hold_their_text(s@, width as int, fill@[0]);
    }
    let n: usize = s.unicode_len();
    if n < width {
        filler(fill, width - n).concat(s)
    } else {
        assert(right_aligned(s@, width as int, fill@[0]) =~= s@);
        s.to_owned()
    }
}

/// `s` at the left end of a column of `width`, filled with spaces.
pub fn align_left(s: &str, width: usize) -> (r: String)
    ensures
        r@ == left_aligned(s@, width as int),
        is_left_column(r@, s@, width as int),
{
    proof {
        columns_hold_their_text(s@, width as int, ' ');
        reveal_strlit(" ");
    }
    let n: usize = s.unicode_len();
    if n < width {
        s.to_owned().concat(filler(" ", width - n).as_str())
    } else {
        assert(left_aligned(s@, width as int) =~= s@);
        s.to_owned()
    }
}

/// A name that ends in no separator keeps all of it.
pub proof fn name_without_separator_is_kept(s: Seq<char>)
    requires
        s.len() > 0 ==> s.last() != '/' && s.last() != '\\',
    ensures
        trim_separators(s) == s,
{
}

/// One slash more at the end changes nothing.
pub proof fn one_slash_more_is_trimmed(s: Seq<char>)
    ensures
        trim_separators(s.push('/')) == trim_separators(s),
{
    assert(s.push('/').drop_last() =~= s);
}

/// Backslashes are trimmed up to the first other character from the end, a slash
/// before them stays.
pub proof fn backslashes_are_trimmed(s: Seq<char>, tail: Seq<char>)
    requires
        s.len() > 0 ==> s.last() != '\\',
        tail.len() > 0,
        forall|i: int| 0 <= i < tail.len() ==> #[trigger] tail[i] == '\\',
    ensures
        trim_separators(s + tail) == s,
    decreases tail.len(),
{
    let text = s + tail;
    let shorter = tail.drop_last();
    assert(text.last() == tail[tail.len() - 1]);
    assert(text.drop_last() =~= s + shorter);
    assert(trim_end(text, '/') == text);
    assert(trim_end(text, '\\') == trim_end(s + shorter, '\\'));
    if tail.len() > 1 {
        backslashes_are_trimmed(s, shorter);
        assert((s + shorter).last() == shorter[shorter.len() - 1]);
        assert(trim_end(s + shorter, '/') == s + shorter);
    } else {
        assert(s + shorter =~= s);
        assert(trim_end(s, '\\') == s);
    }
}

/// The number that digits stand for.
pub open spec fn value_of(digits: Seq<char>) -> int
    decreases digits.len(),
{
    if digits.len() == 0 {
        0
    } else {
        10 * value_of(digits.drop_last()) + (digits.last() as int - 48)
    }
}

/// A number in decimal is digits, stands for the number, and starts with a zero
/// only if it is zero.
pub proof fn decimal_reads_back(n: nat)
    ensures
        value_of(decimal(n)) == n,
        decimal(n).len() > 0,
        forall|i: int| 0 <= i < decimal(n).len() ==> 48 <= #[trigger] decimal(n)[i] as int <= 57,
        n > 0 ==> decimal(n)[0] as int != 48,
        n == 0 ==> decimal(n).len() == 1,
    decreases n,
{
    reveal_with_fuel(value_of, 2);
    if n < 10 {
        assert(decimal(n).drop_last() =~= Seq::empty());
    } else {
        decimal_reads_back(n / 10);
        assert(decimal(n).drop_last() =~= decimal(n / 10));
        assert(decimal(n)[0] == decimal(n / 10)[0]);
        assert forall|i: int| 0 <= i < decimal(n).len() implies 48 <= #[trigger] decimal(
            n,
        )[i] as int <= 57 by {
            if i < decimal(n / 10).len() {
                assert(decimal(n)[i] == decimal(n / 10)[i]);
            }
        }
    }
}

/// `text` stands at the right end of `column`, which is `width` wide or as wide
/// as the text, with `fill` before it.
pub open spec fn is_column(column: Seq<char>, text: Seq<char>, width: int, fill: char) -> bool {
    let before = column.len() - text.len();
    &&& column.len() == (if text.len() > width {
        text.len() as int
    } else {
        width
    })
    &&& column.skip(before) == text
    &&& forall|i: int| 0 <= i < before ==> #[trigger] column[i] == fill
}

/// `text` stands at the left end of `column`, which is `width` wide or as wide as
/// the text, with spaces behind it.
pub open spec fn is_left_column(column: Seq<char>, text: Seq<char>, width: int) -> bool {
    &&& column.len() == (if text.len() > width {
        text.len() as int
    } else {
        width
    })
    &&& column.take(text.len() as int) == text
    &&& forall|i: int| text.len() <= i < column.len() ==> #[trigger] column[i] == ' '
}

/// Text in a column is all there, at its end of it, and nothing else is but the filling.
pub proof fn columns_hold_their_text(s: Seq<char>, width: int, fill: char)
    requires
        width >= 0,
    ensures
        is_column(right_aligned(s, width, fill), s, width, fill),
        is_left_column(left_aligned(s, width), s, width),
        ({
            let right = right_aligned(s, width, fill);
            let left = left_aligned(s, width);
            &&& s.len() >= width ==> right == s && left == s
            &&& s.len() < width ==> right.len() == width && left.len() == width
            &&& right.skip(right.len() - s.len()) == s
            &&& left.take(s.len() as int) == s
            &&& forall|i: int| 0 <= i < right.len() - s.len() ==> #[trigger] right[i] == fill
            &&& forall|i: int| s.len() <= i < left.len() ==> #[trigger] left[i] == ' '
        }),
{
    let right = right_aligned(s, width, fill);
    assert(right.skip(right.len() - s.len()) =~= s);
    assert(left_aligned(s, width).take(s.len() as int) =~= s);
}

}
