//! The properties of an entry where the system tells no more than its size
//! and when it was modified.

use crate::calendar::{
    civil_from_days, date_of, date_of_its_number, day_has_a_date, day_number, year_from_epoch_on,
};
use crate::entry::RawEntry;
use crate::text::{
    align_right, columns_hold_their_text, decimal, decimal_text, is_column, right_aligned,
};
use vstd::prelude::*;
use vstd::string::*;

verus! {

/// `n` in at least `width` digits.
pub open spec fn padded(n: int, width: int) -> Seq<char> {
    right_aligned(decimal(n as nat), width, '0')
}

/// Size, date and time of day (UTC), each followed by a space.
pub open spec fn short_properties(e: RawEntry) -> Seq<char> {
    let secs = e.mtime.seconds_since_epoch();
    let (year, month, day) = date_of(secs / 86400);
    right_aligned(decimal(e.size as nat), 9, ' ') + seq![' '] + padded(year, 4) + seq!['-']
        + padded(month, 2) + seq!['-'] + padded(day, 2) + seq![' '] + padded(
        (secs % 86400) / 3600,
        2,
    ) + seq![':'] + padded((secs % 3600) / 60, 2) + seq![' ']
}

/// `n` in at least `width` digits.
fn zero_padded(n: u64, width: usize) -> (r: String)
    ensures
        r@ == padded(n as int, width as int),
{
    proof {
        reveal_strlit("0");
    }
    align_right(decimal_text(n).as_str(), width, "0")
}

/// Size and modification time of an entry.
pub fn format_properties(e: &RawEntry) -> (r: String)
    ensures
        r@ == short_properties(*e),
{
    let secs: i64 = e.mtime.epoch_seconds();
    let (y, mo, d) = civil_from_days(secs / 86400);
    let h: u64 = ((secs % 86400) / 3600) as u64;
    let mi: u64 = ((secs % 3600) / 60) as u64;
    proof {
        reveal_strlit(" ");
        reveal_strlit("-");
        reveal_strlit(":");
        year_from_epoch_on(y as int, mo as int, d as int);
    }
    let mut r = align_right(decimal_text(e.size).as_str(), 9, " ");
    r.append(" ");
    r.append(zero_padded(y as u64, 4).as_str());
    r.append("-");
    r.append(zero_padded(mo as u64, 2).as_str());
    r.append("-");
    r.append(zero_padded(d as u64, 2).as_str());
    r.append(" ");
    r.append(zero_padded(h, 2).as_str());
    r.append(":");
    r.append(zero_padded(mi, 2).as_str());
    r.append(" ");
    proof {
        date_of_its_number(y as int, mo as int, d as int);
        assert(" "@ =~= seq![' ']);
        assert("-"@ =~= seq!['-']);
        assert(":"@ =~= seq![':']);
    }
    r
}

/// `text` is a number in at least `width` digits.
pub open spec fn is_number(text: Seq<char>, n: int, width: int) -> bool {
    n >= 0 && is_column(text, decimal(n as nat), width, '0')
}

/// The short properties are the size at the right of a column of nine, the date
/// and the time of day, each followed by a space. The date is the one that lies
/// as many days after the first of 1970 as there are whole days in the seconds
/// since then, and the time of day is the one in what is left of them.
pub proof fn short_properties_tell_size_and_time(e: RawEntry)
    ensures
        exists|
            size: Seq<char>,
            y: Seq<char>,
            m: Seq<char>,
            d: Seq<char>,
            h: Seq<char>,
            min: Seq<char>,
            date: (int, int, int),
            hour: int,
            minute: int,
        |
            #![trigger is_number(y, date.0, 4), is_number(m, date.1, 2), is_number(d, date.2, 2), is_number(h, hour, 2), is_number(min, minute, 2), is_column(size, decimal(e.size as nat), 9, ' ')]
            {
                let secs = if e.mtime.secs >= 0 {
                    e.mtime.secs as int
                } else {
                    0
                };
                &&& short_properties(e) == size + seq![' '] + y + seq!['-'] + m + seq!['-'] + d
                    + seq![' '] + h + seq![':'] + min + seq![' ']
                &&& is_column(size, decimal(e.size as nat), 9, ' ')
                &&& is_number(y, date.0, 4) && is_number(m, date.1, 2) && is_number(d, date.2, 2)
                &&& is_number(h, hour, 2) && is_number(min, minute, 2)
                &&& 1 <= date.1 <= 12 && 1 <= date.2 <= 31
                &&& 0 <= hour < 24 && 0 <= minute < 60
                &&& 86400 * day_number(date.0, date.1, date.2) + 3600 * hour + 60 * minute <= secs
                &&& secs < 86400 * day_number(date.0, date.1, date.2) + 3600 * hour + 60 * minute
                    + 60
            },
{
    let secs = e.mtime.seconds_since_epoch();
    let days = secs / 86400;
    day_has_a_date(days);
    let date = date_of(days);
    year_from_epoch_on(date.0, date.1, date.2);
    let hour = (secs % 86400) / 3600;
    let minute = (secs % 3600) / 60;
    let size = right_aligned(decimal(e.size as nat), 9, ' ');
    columns_hold_their_text(decimal(e.size as nat), 9, ' ');
    columns_hold_their_text(decimal(date.0 as nat), 4, '0');
    columns_hold_their_text(decimal(date.1 as nat), 2, '0');
    columns_hold_their_text(decimal(date.2 as nat), 2, '0');
    columns_hold_their_text(decimal(hour as nat), 2, '0');
    columns_hold_their_text(decimal(minute as nat), 2, '0');
    let y = padded(date.0, 4);
    let m = padded(date.1, 2);
    let d = padded(date.2, 2);
    let h = padded(hour, 2);
    let min = padded(minute, 2);
    assert(is_number(y, date.0, 4) && is_number(m, date.1, 2) && is_number(d, date.2, 2)
        && is_number(h, hour, 2) && is_number(min, minute, 2));
    assert(secs % 3600 == (secs % 86400) % 3600);
}

}
