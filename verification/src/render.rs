//! Formatting dates as zero-padded `YYYY-MM-DD` strings.

use vstd::prelude::*;
use crate::date::Date;

verus! {

/// The decimal digit character for `n` (0 through 9).
pub open spec fn digit_char(n: int) -> char {
    if n == 0 {
        '0'
    } else if n == 1 {
        '1'
    } else if n == 2 {
        '2'
    } else if n == 3 {
        '3'
    } else if n == 4 {
        '4'
    } else if n == 5 {
        '5'
    } else if n == 6 {
        '6'
    } else if n == 7 {
        '7'
    } else if n == 8 {
        '8'
    } else {
        '9'
    }
}

/// `n` as two zero-padded decimal digits.
pub open spec fn two_digit_chars(n: int) -> Seq<char> {
    seq![digit_char(n / 10), digit_char(n % 10)]
}

/// `n` as four zero-padded decimal digits.
pub open spec fn four_digit_chars(n: int) -> Seq<char> {
    seq![
        digit_char(n / 1000),
        digit_char((n / 100) % 10),
        digit_char((n / 10) % 10),
        digit_char(n % 10),
    ]
}

/// `d` formatted as `YYYY-MM-DD`.
pub open spec fn date_chars(d: Date) -> Seq<char> {
    four_digit_chars(d.year as int) + seq!['-'] + two_digit_chars(d.month as int) + seq!['-']
        + two_digit_chars(d.day as int)
}

fn push_digit(s: &mut String, n: u32)
    requires
        n < 10,
    ensures
        final(s)@ == old(s)@ + seq![digit_char(n as int)],
{
    let d: &str = if n == 0 {
        "0"
    } else if n == 1 {
        "1"
    } else if n == 2 {
        "2"
    } else if n == 3 {
        "3"
    } else if n == 4 {
        "4"
    } else if n == 5 {
        "5"
    } else if n == 6 {
        "6"
    } else if n == 7 {
        "7"
    } else if n == 8 {
        "8"
    } else {
        "9"
    };
    proof {
        reveal_strlit("0");
        reveal_strlit("1");
        reveal_strlit("2");
        reveal_strlit("3");
        reveal_strlit("4");
        reveal_strlit("5");
        reveal_strlit("6");
        reveal_strlit("7");
        reveal_strlit("8");
        reveal_strlit("9");
        assert(d@ =~= seq![digit_char(n as int)]);
    }
    s.append(d);
}

/// Formats `d` as `YYYY-MM-DD` with a zero-padded four-digit year and
/// two-digit month and day.
pub fn format_date(d: &Date) -> (r: String)
    requires
        d.wf(),
    ensures
        r@ == date_chars(*d),
        r@.len() == 10,
{
    let mut s = String::new();
    let y: u32 = d.year as u32;
    push_digit(&mut s, y / 1000);
    push_digit(&mut s, (y / 100) % 10);
    push_digit(&mut s, (y / 10) % 10);
    push_digit(&mut s, y % 10);
    s.append("-");
    push_digit(&mut s, (d.month / 10) as u32);
    push_digit(&mut s, (d.month % 10) as u32);
    s.append("-");
    push_digit(&mut s, (d.day / 10) as u32);
    push_digit(&mut s, (d.day % 10) as u32);
    proof {
        reveal_strlit("-");
        assert(s@ =~= date_chars(*d));
    }
    s
}

} // verus!
