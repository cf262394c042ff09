//! Verified construction of the few strings the library renders: decimal
//! digit runs, `num/den` fraction text and fixed two-decimal-place text.

use vstd::prelude::*;
use vstd::string::StringExecFns;

verus! {

/// The character for one decimal digit.
pub open spec fn digit_char(d: int) -> char {
    if d == 0 {
        '0'
    } else if d == 1 {
        '1'
    } else if d == 2 {
        '2'
    } else if d == 3 {
        '3'
    } else if d == 4 {
        '4'
    } else if d == 5 {
        '5'
    } else if d == 6 {
        '6'
    } else if d == 7 {
        '7'
    } else if d == 8 {
        '8'
    } else {
        '9'
    }
}

/// Decimal digit string of a non-negative integer, most significant first.
pub open spec fn dec_digits(n: nat) -> Seq<char>
    decreases n,
{
    if n < 10 {
        seq![digit_char(n as int)]
    } else {
        dec_digits(n / 10).push(digit_char((n % 10) as int))
    }
}

/// Text of a fraction, numerator and denominator separated by a slash.
pub open spec fn fraction_text(n: nat, d: nat) -> Seq<char> {
    dec_digits(n) + seq!['/'] + dec_digits(d)
}

/// Text of a non-negative value with exactly two decimal places; `m2` is the
/// value scaled by one hundred.
pub open spec fn two_dp_text(m2: nat) -> Seq<char> {
    dec_digits(m2 / 100) + seq!['.'] + seq![
        digit_char(((m2 % 100) / 10) as int),
        digit_char((m2 % 10) as int),
    ]
}

fn digit_str(d: u128) -> (r: &'static str)
    requires
        d < 10,
    ensures
        r@ == seq![digit_char(d as int)],
{
    proof {
        reveal_strlit("0");
        reveal_strlit("1");
        reveal_strlit("2");
        reveal_strlit("3");
        reveal_strlit("4");
        reveal_strlit("5");
        reveal_strlit("6");
        reveal_strlit("7");
        reveal_strlit("8");
        reveal_strlit("9");
    }
    let r = if d == 0 {
        "0"
    } else if d == 1 {
        "1"
    } else if d == 2 {
        "2"
    } else if d == 3 {
        "3"
    } else if d == 4 {
        "4"
    } else if d == 5 {
        "5"
    } else if d == 6 {
        "6"
    } else if d == 7 {
        "7"
    } else if d == 8 {
        "8"
    } else {
        "9"
    };
    proof {
        assert(r@ =~= seq![digit_char(d as int)]);
    }
    r
}

/// Renders a non-negative integer in decimal.
pub fn u128_to_string(n: u128) -> (s: String)
    ensures
        s@ == dec_digits(n as nat),
    decreases n,
{
    if n < 10 {
        let mut s = String::new();
        s.append(digit_str(n));
        proof {
            assert(s@ =~= dec_digits(n as nat));
        }
        s
    } else {
        assert(n / 10 < n);
        let mut s = u128_to_string(n / 10);
        s.append(digit_str(n % 10));
        proof {
            assert(s@ =~= dec_digits(n as nat));
        }
        s
    }
}

/// Renders `n/d`.
pub fn fraction_string(n: u32, d: u32) -> (s: String)
    ensures
        s@ == fraction_text(n as nat, d as nat),
{
    proof {
        reveal_strlit("/");
    }
    let mut s = u128_to_string(n as u128);
    s.append("/");
    let t = u128_to_string(d as u128);
    s.append(t.as_str());
    proof {
        assert(s@ =~= fraction_text(n as nat, d as nat));
    }
    s
}

/// Renders `m2 / 100` with exactly two decimal places.
pub fn two_dp_string(m2: u128) -> (s: String)
    ensures
        s@ == two_dp_text(m2 as nat),
{
    proof {
        reveal_strlit(".");
    }
    let mut s = u128_to_string(m2 / 100);
    s.append(".");
    s.append(digit_str((m2 % 100) / 10));
    s.append(digit_str(m2 % 10));
    proof {
        assert(s@ =~= two_dp_text(m2 as nat));
    }
    s
}

} // verus!
