//! Date text for the ledger.
//!
//! The persistence layer filters transactions between two ISO-8601 date
//! strings.  The range for a month runs from day `01` to a fixed day `31`,
//! whatever the month's true length: the date filter compares text, so a
//! bound such as `"2022-02-31"` simply admits every real February day.  The
//! mapping from a year offset to a year's text has an irregular case for
//! offsets below nine; it is kept exactly as the persisted data expects it.

use crate::money::append_digits;
use crate::money::dec_digits;
use vstd::prelude::*;

verus! {

/// Two-digit text of a month number below ten, plain digits otherwise.
pub open spec fn month_text(month: nat) -> Seq<char> {
    if month < 10 {
        seq!['0'] + dec_digits(month)
    } else {
        dec_digits(month)
    }
}

/// Year text: offsets below nine map into the two-thousand-twenties; greater
/// offsets are written as their own digits.
pub open spec fn year_text(year: nat) -> Seq<char> {
    if year + 1 < 10 {
        seq!['2', '0', '2'] + dec_digits(year + 2)
    } else {
        dec_digits(year)
    }
}

/// First day of the month, as filter text.
pub open spec fn lower_date_text(month: nat, year: nat) -> Seq<char> {
    year_text(year) + seq!['-'] + month_text(month) + seq!['-', '0', '1']
}

/// Fixed day thirty-one of the month, as filter text.
pub open spec fn upper_date_text(month: nat, year: nat) -> Seq<char> {
    year_text(year) + seq!['-'] + month_text(month) + seq!['-', '3', '1']
}

fn year_string(year: usize) -> (r: String)
    requires
        year < usize::MAX,
    ensures
        r@ == year_text(year as nat),
{
    let mut s = String::new();
    if year + 1 < 10 {
        proof {
            reveal_strlit("202");
            assert("202"@ =~= seq!['2', '0', '2']);
        }
        s.append("202");
        append_digits(&mut s, (year + 2) as u64);
    } else {
        append_digits(&mut s, year as u64);
    }
    proof {
        assert(s@ =~= year_text(year as nat));
    }
    s
}

/// Builds the two date bounds used to filter one month's rows: the first day
/// and a fixed day thirty-one.
pub fn get_sql_dates(month: usize, year: usize) -> (r: (String, String))
    requires
        year < usize::MAX,
    ensures
        r.0@ == lower_date_text(month as nat, year as nat),
        r.1@ == upper_date_text(month as nat, year as nat),
{
    proof {
        reveal_strlit("0");
        reveal_strlit("-");
        reveal_strlit("-01");
        reveal_strlit("-31");
        assert("0"@ =~= seq!['0']);
        assert("-"@ =~= seq!['-']);
        assert("-01"@ =~= seq!['-', '0', '1']);
        assert("-31"@ =~= seq!['-', '3', '1']);
    }
    let mut month_part = String::new();
    if month < 10 {
        month_part.append("0");
    }
    append_digits(&mut month_part, month as u64);
    proof {
        assert(month_part@ =~= month_text(month as nat));
    }
    let mut lower = year_string(year);
    lower.append("-");
    lower.append(month_part.as_str());
    let mut upper = lower.clone();
    lower.append("-01");
    upper.append("-31");
    proof {
        assert(lower@ =~= lower_date_text(month as nat, year as nat));
        assert(upper@ =~= upper_date_text(month as nat, year as nat));
    }
    (lower, upper)
}

} // verus!
