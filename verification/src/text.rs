//! Decimal and date rendering with exact character-level specifications.

use vstd::prelude::*;
use vstd::string::StringExecFns;

verus! {

/// The character for one decimal digit.
pub open spec fn digit_char(d: int) -> char {
    if d == 0 {
        '0'
    } else if d == 1 {
        '1'
    } else if d == 2 {
        '2'
    } else if d == 3 {
        '3'
    } else if d == 4 {
        '4'
    } else if d == 5 {
        '5'
    } else if d == 6 {
        '6'
    } else if d == 7 {
        '7'
    } else if d == 8 {
        '8'
    } else {
        '9'
    }
}

/// The decimal digits of a non-negative number, most significant first,
/// without leading zeros (a single `'0'` for zero).
pub open spec fn dec_chars_nat(n: int) -> Seq<char>
    decreases n,
{
    if n < 10 {
        seq![digit_char(n)]
    } else {
        dec_chars_nat(n / 10).push(digit_char(n % 10))
    }
}

/// The decimal rendering of an integer: a leading `'-'` for negative values.
pub open spec fn dec_chars(n: int) -> Seq<char> {
    if n < 0 {
        seq!['-'] + dec_chars_nat(-n)
    } else {
        dec_chars_nat(n)
    }
}

/// Appends the character of the digit `d` to `s`.
fn push_digit(s: &mut String, d: u8)
    requires
        d < 10,
    ensures
        final(s)@ == old(s)@ + seq![digit_char(d as int)],
{
    proof {
        reveal_strlit("0");
        reveal_strlit("1");
        reveal_strlit("2");
        reveal_strlit("3");
        reveal_strlit("4");
        reveal_strlit("5");
        reveal_strlit("6");
        reveal_strlit("7");
        reveal_strlit("8");
        reveal_strlit("9");
    }
    match d {
        0 => s.append("0"),
        1 => s.append("1"),
        2 => s.append("2"),
        3 => s.append("3"),
        4 => s.append("4"),
        5 => s.append("5"),
        6 => s.append("6"),
        7 => s.append("7"),
        8 => s.append("8"),
        _ => s.append("9"),
    }
    proof {
        assert(s@ =~= old(s)@ + seq![digit_char(d as int)]);
    }
}

/// Appends the decimal digits of `m` to `s`.
fn push_dec_u64(s: &mut String, m: u64)
    ensures
        final(s)@ == old(s)@ + dec_chars_nat(m as int),
    decreases m,
{
    if m < 10 {
        push_digit(s, m as u8);
    } else {
        push_dec_u64(s, m / 10);
        push_digit(s, (m % 10) as u8);
        proof {
            assert(s@ =~= old(s)@ + dec_chars_nat(m as int));
        }
    }
}

/// Renders an integer in decimal, as the platform renders event ids in
/// endpoint paths.
pub fn i32_to_string(n: i32) -> (r: String)
    ensures
        r@ == dec_chars(n as int),
{
    let mut s = String::new();
    if n < 0 {
        proof {
            reveal_strlit("-");
        }
        s.append("-");
        let m: u64 = (-(n as i64)) as u64;
        push_dec_u64(&mut s, m);
        proof {
            assert(s@ =~= dec_chars(n as int));
        }
    } else {
        push_dec_u64(&mut s, n as u64);
    }
    s
}

/// A number rendered as exactly two digits, zero-padded.
pub open spec fn two_digits(n: int) -> Seq<char> {
    seq![digit_char(n / 10), digit_char(n % 10)]
}

/// A number rendered as exactly four digits, zero-padded.
pub open spec fn four_digits(n: int) -> Seq<char> {
    seq![
        digit_char(n / 1000),
        digit_char((n / 100) % 10),
        digit_char((n / 10) % 10),
        digit_char(n % 10),
    ]
}

/// A calendar date in `YYYY-MM-DD` form: zero-padded, four-digit year.
pub open spec fn date_chars(y: int, m: int, d: int) -> Seq<char> {
    four_digits(y) + seq!['-'] + two_digits(m) + seq!['-'] + two_digits(d)
}

/// Formats a calendar date as `YYYY-MM-DD`.
pub fn format_date(y: i32, m: u8, d: u8) -> (r: String)
    requires
        0 <= y <= 9999,
        1 <= m <= 12,
        1 <= d <= 31,
    ensures
        r@ == date_chars(y as int, m as int, d as int),
{
    let mut s = String::new();
    push_digit(&mut s, (y / 1000) as u8);
    push_digit(&mut s, ((y / 100) % 10) as u8);
    push_digit(&mut s, ((y / 10) % 10) as u8);
    push_digit(&mut s, (y % 10) as u8);
    proof {
        reveal_strlit("-");
    }
    s.append("-");
    push_digit(&mut s, m / 10);
    push_digit(&mut s, m % 10);
    s.append("-");
    push_digit(&mut s, d / 10);
    push_digit(&mut s, d % 10);
    proof {
        assert(s@ =~= date_chars(y as int, m as int, d as int));
    }
    s
}

/// Renders a calendar date as `YYYY-MM-DD`, succeeding exactly when the
/// year fits the four-digit form.
pub fn render_date(y: i32, m: u8, d: u8) -> (r: Option<String>)
    requires
        1 <= m <= 12,
        1 <= d <= 31,
    ensures
        r is Some <==> 0 <= y <= 9999,
        r is Some ==> r->0@ == date_chars(y as int, m as int, d as int),
{
    if 0 <= y && y <= 9999 {
        Some(format_date(y, m, d))
    } else {
        None
    }
}

} // verus!
