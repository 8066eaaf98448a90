//! Nanosecond wall-clock reading and time-unit conversions.

use vstd::prelude::*;

use crate::textfmt::{pad9_to_string, spec_digits, spec_padded, u128_to_string};

verus! {

/// Relies on std::time::SystemTime::now: the current wall-clock time in
/// nanoseconds since the epoch. Nothing can be promised of its value.
#[verifier::external_body]
pub fn now_ns() -> u128 {
    std::time::SystemTime::now()
        .duration_since(std::time::UNIX_EPOCH)
        .map(|d| d.as_nanos())
        .unwrap_or(0)
}

/// Convert milliseconds to nanoseconds.
pub fn ms_to_ns(ms: u64) -> (r: u128)
    ensures
        r == ms * 1000000,
{
    ms as u128 * 1_000_000
}

/// Convert nanoseconds to milliseconds (clamping at the `u64` range).
pub fn ns_to_ms(ns: u128) -> (r: u64)
    ensures
        r == (if ns / 1000000 > u64::MAX {
            u64::MAX as int
        } else {
            (ns / 1000000) as int
        }),
{
    let ms = ns / 1_000_000;
    if ms > u64::MAX as u128 {
        u64::MAX
    } else {
        ms as u64
    }
}

/// Elapsed nanoseconds between two timestamps, zero when time ran backwards.
pub fn elapsed_ns(start: u128, end: u128) -> (r: u128)
    ensures
        r == (if end >= start {
            end - start
        } else {
            0int
        }),
{
    if end >= start {
        end - start
    } else {
        0
    }
}

/// Format a nanosecond timestamp as seconds with exactly nine fractional
/// digits.
pub fn format_ns(ns: u128) -> (r: String)
    ensures
        r@ == spec_digits((ns / 1000000000) as int) + seq!['.'] + spec_padded(
            (ns % 1000000000) as int,
            9,
        ),
{
    let secs = ns / 1_000_000_000;
    let frac = (ns % 1_000_000_000) as u64;
    let mut s = u128_to_string(secs);
    s.append(".");
    let f = pad9_to_string(frac);
    s.append(f.as_str());
    proof {
        reveal_strlit(".");
        assert((".")@ =~= seq!['.']);
    }
    s
}

} // verus!
