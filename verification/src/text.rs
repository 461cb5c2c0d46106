//! Decimal rendering of integers and fixed-point money amounts.
//!
//! Stock counts, order ids and money amounts all reach the event stream and
//! the payment gateway as decimal strings, so the renderings are specified
//! character by character.

use vstd::prelude::*;

verus! {

/// The decimal digit character for `d` (meaningful for `0 <= d <= 9`).
pub open spec fn digit_char(d: int) -> char {
    if d == 0 {
        '0'
    } else if d == 1 {
        '1'
    } else if d == 2 {
        '2'
    } else if d == 3 {
        '3'
    } else if d == 4 {
        '4'
    } else if d == 5 {
        '5'
    } else if d == 6 {
        '6'
    } else if d == 7 {
        '7'
    } else if d == 8 {
        '8'
    } else {
        '9'
    }
}

/// The decimal rendering of a natural number, most significant digit first,
/// with no leading zeros (except for the number 0 itself).
pub open spec fn dec_chars(n: nat) -> Seq<char>
    decreases n,
{
    if n < 10 {
        seq![digit_char(n as int)]
    } else {
        dec_chars(n / 10) + seq![digit_char((n % 10) as int)]
    }
}

/// The decimal rendering of an integer: a minus sign for negative values,
/// then the digits of the magnitude.
pub open spec fn int_chars(i: int) -> Seq<char> {
    if i < 0 {
        seq!['-'] + dec_chars((-i) as nat)
    } else {
        dec_chars(i as nat)
    }
}

/// A money amount of `c` cents rendered with two decimal places, e.g.
/// 1234 as "12.34" and -5 as "-0.05".
pub open spec fn money_chars(c: int) -> Seq<char> {
    let m = if c < 0 {
        -c
    } else {
        c
    };
    let sign = if c < 0 {
        seq!['-']
    } else {
        Seq::<char>::empty()
    };
    sign + dec_chars((m / 100) as nat) + seq!['.'] + seq![
        digit_char(m % 100 / 10),
        digit_char(m % 10),
    ]
}

fn digit_str(d: u64) -> (s: &'static str)
    requires
        d < 10,
    ensures
        s@ == seq![digit_char(d as int)],
{
    proof {
        reveal_strlit("0");
        reveal_strlit("1");
        reveal_strlit("2");
        reveal_strlit("3");
        reveal_strlit("4");
        reveal_strlit("5");
        reveal_strlit("6");
        reveal_strlit("7");
        reveal_strlit("8");
        reveal_strlit("9");
    }
    if d == 0 {
        "0"
    } else if d == 1 {
        "1"
    } else if d == 2 {
        "2"
    } else if d == 3 {
        "3"
    } else if d == 4 {
        "4"
    } else if d == 5 {
        "5"
    } else if d == 6 {
        "6"
    } else if d == 7 {
        "7"
    } else if d == 8 {
        "8"
    } else {
        "9"
    }
}

/// Renders a natural number in decimal.
pub fn u64_string(n: u64) -> (s: String)
    ensures
        s@ == dec_chars(n as nat),
    decreases n,
{
    if n < 10 {
        digit_str(n).to_owned()
    } else {
        let mut s = u64_string(n / 10);
        s.append(digit_str(n % 10));
        s
    }
}

/// Renders a signed number in decimal.
pub fn i64_string(i: i64) -> (s: String)
    ensures
        s@ == int_chars(i as int),
{
    if i >= 0 {
        u64_string(i as u64)
    } else {
        let magnitude: u64 = (-(i as i128)) as u64;
        let mut s = "-".to_owned();
        s.append(u64_string(magnitude).as_str());
        proof {
            reveal_strlit("-");
        }
        s
    }
}

/// Renders an amount of cents with two decimal places, as money amounts are
/// written on invoices and in gateway requests.
pub fn money_string(c: i64) -> (s: String)
    ensures
        s@ == money_chars(c as int),
{
    let magnitude: u64 = if c >= 0 {
        c as u64
    } else {
        (-(c as i128)) as u64
    };
    let mut s = if c < 0 {
        proof {
            reveal_strlit("-");
        }
        "-".to_owned()
    } else {
        proof {
            reveal_strlit("");
        }
        "".to_owned()
    };
    s.append(u64_string(magnitude / 100).as_str());
    s.append(".");
    s.append(digit_str(magnitude % 100 / 10));
    s.append(digit_str(magnitude % 10));
    proof {
        reveal_strlit(".");
    }
    s
}

} // verus!
