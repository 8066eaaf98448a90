//! Decimal text rendering with exact character-level contracts: unsigned
//! integers, zero-padded fractions, prices in ticks, and nanosecond
//! timestamps as seconds.

use vstd::prelude::*;

verus! {

/// The digit character for a value below ten.
pub open spec fn digit_char(d: int) -> char {
    ((48 + d) as u8) as char
}

/// The decimal digits of `n`, most significant first.
pub open spec fn spec_digits(n: int) -> Seq<char>
    decreases n,
{
    if n < 10 {
        seq![digit_char(n)]
    } else {
        spec_digits(n / 10).push(digit_char(n % 10))
    }
}

/// One digit as a string slice.
fn digit_str(d: u64) -> (r: &'static str)
    requires
        d < 10,
    ensures
        r@ == seq![digit_char(d as int)],
{
    let s = if d == 0 {
        "0"
    } else if d == 1 {
        "1"
    } else if d == 2 {
        "2"
    } else if d == 3 {
        "3"
    } else if d == 4 {
        "4"
    } else if d == 5 {
        "5"
    } else if d == 6 {
        "6"
    } else if d == 7 {
        "7"
    } else if d == 8 {
        "8"
    } else {
        "9"
    };
    proof {
        reveal_strlit("0");
        reveal_strlit("1");
        reveal_strlit("2");
        reveal_strlit("3");
        reveal_strlit("4");
        reveal_strlit("5");
        reveal_strlit("6");
        reveal_strlit("7");
        reveal_strlit("8");
        reveal_strlit("9");
        assert(seq![digit_char(d as int)].len() == 1);
    }
    s
}

/// Render an unsigned 64-bit value in decimal.
pub fn u64_to_string(n: u64) -> (r: String)
    ensures
        r@ == spec_digits(n as int),
    decreases n,
{
    if n < 10 {
        let d = digit_str(n);
        d.to_owned()
    } else {
        let mut s = u64_to_string(n / 10);
        let d = digit_str(n % 10);
        s.append(d);
        proof {
            assert(spec_digits((n / 10) as int) + seq![digit_char((n % 10) as int)]
                =~= spec_digits(n as int));
        }
        s
    }
}

/// Render an unsigned 128-bit value in decimal.
pub fn u128_to_string(n: u128) -> (r: String)
    ensures
        r@ == spec_digits(n as int),
    decreases n,
{
    if n < 10 {
        let d = digit_str(n as u64);
        d.to_owned()
    } else {
        let mut s = u128_to_string(n / 10);
        let d = digit_str((n % 10) as u64);
        s.append(d);
        proof {
            assert(spec_digits((n / 10) as int) + seq![digit_char((n % 10) as int)]
                =~= spec_digits(n as int));
        }
        s
    }
}

/// The decimal digits of `n` zero-padded on the left to `width` digits
/// (requires `n` to fit in that many digits).
pub open spec fn spec_padded(n: int, width: int) -> Seq<char>
    decreases width,
{
    if width <= 1 {
        seq![digit_char(n % 10)]
    } else {
        spec_padded(n / 10, width - 1).push(digit_char(n % 10))
    }
}

/// Render a value zero-padded on the left to `width` digits.
pub fn pad_to_width(n: u64, width: u64) -> (r: String)
    requires
        1 <= width,
    ensures
        r@ == spec_padded(n as int, width as int),
    decreases width,
{
    if width <= 1 {
        digit_str(n % 10).to_owned()
    } else {
        let mut s = pad_to_width(n / 10, width - 1);
        let d = digit_str(n % 10);
        s.append(d);
        proof {
            assert(spec_padded((n / 10) as int, width - 1) + seq![digit_char((n % 10) as int)]
                =~= spec_padded(n as int, width as int));
        }
        s
    }
}

/// Render a value zero-padded to four digits (for tick fractions).
pub fn pad4_to_string(n: u64) -> (r: String)
    ensures
        r@ == spec_padded(n as int, 4),
{
    pad_to_width(n, 4)
}

/// Render a value zero-padded to nine digits (for nanosecond fractions).
pub fn pad9_to_string(n: u64) -> (r: String)
    ensures
        r@ == spec_padded(n as int, 9),
{
    pad_to_width(n, 9)
}

} // verus!
