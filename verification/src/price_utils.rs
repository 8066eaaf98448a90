//! Price utilities on integer ticks: formatting at the fixed scale of 10^4
//! per currency unit, spreads and mid prices.

use vstd::prelude::*;

use crate::textfmt::{pad4_to_string, spec_digits, spec_padded, u64_to_string};
use crate::types::{sat_i64, Price};

verus! {

/// Format a tick price as a decimal currency string with four fractional
/// digits: the whole units, a point, and the ticks zero-padded to four.
pub fn format(price: Price) -> (r: String)
    ensures
        r@ == spec_digits((price / 10000) as int) + seq!['.'] + spec_padded(
            (price % 10000) as int,
            4,
        ),
{
    let units = price / 10000;
    let frac = price % 10000;
    let mut s = u64_to_string(units);
    s.append(".");
    let f = pad4_to_string(frac);
    s.append(f.as_str());
    proof {
        reveal_strlit(".");
        assert((".")@ =~= seq!['.']);
    }
    s
}

/// The spread between a bid and an ask in ticks, clamped to `i64`.
pub fn spread(bid: Price, ask: Price) -> (r: i64)
    ensures
        r == sat_i64(ask - bid),
{
    crate::types::clamp_i128_to_i64(ask as i128 - bid as i128)
}

/// The mid price between a bid and an ask, in ticks rounded down.
pub fn mid_price_ticks(bid: Price, ask: Price) -> (r: Price)
    ensures
        r == (bid + ask) as int / 2,
{
    (((bid as u128) + (ask as u128)) / 2) as u64
}

} // verus!
