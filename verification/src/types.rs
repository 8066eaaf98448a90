//! Domain types: orders, trades, sides, fixed-point prices, and trading
//! metrics. Prices are non-negative integer ticks at a fixed scale of 10^4
//! per currency unit; all arithmetic and ordering is on ticks.

use vstd::prelude::*;

verus! {

/// Unique identifier for orders.
pub type OrderId = u64;

/// Price represented as integer ticks (10^-4 currency units).
pub type Price = u64;

/// Quantity of shares/contracts.
pub type Qty = u64;

/// Number of ticks per currency unit.
pub const PRICE_SCALE: u64 = 10000;

/// Order side (Buy or Sell).
#[derive(Debug, Clone, Copy, PartialEq, Eq, Structural)]
pub enum Side {
    Buy,
    Sell,
}

impl Side {
    /// The opposite side, as a spec-level function.
    pub open spec fn spec_opposite(self) -> Side {
        match self {
            Side::Buy => Side::Sell,
            Side::Sell => Side::Buy,
        }
    }

    /// Get the opposite side.
    pub fn opposite(&self) -> (r: Side)
        ensures
            r == self.spec_opposite(),
    {
        match self {
            Side::Buy => Side::Sell,
            Side::Sell => Side::Buy,
        }
    }
}

/// Order type with associated data.
#[derive(Debug, Clone, Copy, PartialEq, Eq, Structural)]
pub enum OrderType {
    Limit { price: Price },
    Market,
}

/// Core order structure.
///
/// Invariant (enforced by the engine's validation): quantity is positive and
/// limit orders carry a positive price.
#[derive(Debug, Clone, Copy, PartialEq, Eq, Structural)]
pub struct Order {
    pub id: OrderId,
    pub side: Side,
    pub qty: Qty,
    pub order_type: OrderType,
    /// Nanosecond timestamp.
    pub ts: u128,
}

impl Order {
    /// The limit price of the order, `None` for market orders (spec level).
    pub open spec fn spec_price(self) -> Option<Price> {
        match self.order_type {
            OrderType::Limit { price } => Some(price),
            OrderType::Market => None,
        }
    }

    /// Whether this is a limit order (spec level).
    pub open spec fn spec_is_limit(self) -> bool {
        self.order_type is Limit
    }

    /// Create a new limit order.
    pub fn new_limit(id: OrderId, side: Side, qty: Qty, price: Price, ts: u128) -> (r: Order)
        ensures
            r == (Order { id, side, qty, order_type: OrderType::Limit { price }, ts }),
    {
        Order { id, side, qty, order_type: OrderType::Limit { price }, ts }
    }

    /// Create a new market order.
    pub fn new_market(id: OrderId, side: Side, qty: Qty, ts: u128) -> (r: Order)
        ensures
            r == (Order { id, side, qty, order_type: OrderType::Market, ts }),
    {
        Order { id, side, qty, order_type: OrderType::Market, ts }
    }

    /// Get the price for limit orders, `None` for market orders.
    pub fn price(&self) -> (r: Option<Price>)
        ensures
            r == self.spec_price(),
    {
        match self.order_type {
            OrderType::Limit { price } => Some(price),
            OrderType::Market => None,
        }
    }

    /// Check if this is a limit order.
    pub fn is_limit(&self) -> (r: bool)
        ensures
            r == self.spec_is_limit(),
    {
        match self.order_type {
            OrderType::Limit { .. } => true,
            OrderType::Market => false,
        }
    }

    /// Check if this is a market order.
    pub fn is_market(&self) -> (r: bool)
        ensures
            r == !self.spec_is_limit(),
    {
        match self.order_type {
            OrderType::Limit { .. } => false,
            OrderType::Market => true,
        }
    }
}

/// Trade execution result. `maker_id` identifies the resting order,
/// `taker_id` the incoming order that consumed it. Never mutated.
#[derive(Debug, Clone, Copy, PartialEq, Eq, Structural)]
pub struct Trade {
    pub maker_id: OrderId,
    pub taker_id: OrderId,
    pub price: Price,
    pub qty: Qty,
    pub ts: u128,
}

/// Clamp a mathematical integer into the `i64` range.
pub open spec fn sat_i64(x: int) -> int {
    if x > i64::MAX as int {
        i64::MAX as int
    } else if x < i64::MIN as int {
        i64::MIN as int
    } else {
        x
    }
}

/// Clamp an `i128` value into the `i64` range.
pub fn clamp_i128_to_i64(x: i128) -> (r: i64)
    ensures
        r == sat_i64(x as int),
{
    if x > i64::MAX as i128 {
        i64::MAX
    } else if x < i64::MIN as i128 {
        i64::MIN
    } else {
        x as i64
    }
}

/// Add two `i64` values, clamping the result at the `i64` range.
pub fn sat_add_i64(a: i64, b: i64) -> (r: i64)
    ensures
        r == sat_i64(a + b),
{
    let wide: i128 = a as i128 + b as i128;
    if wide > i64::MAX as i128 {
        i64::MAX
    } else if wide < i64::MIN as i128 {
        i64::MIN
    } else {
        wide as i64
    }
}

/// Subtract two `i64` values, clamping the result at the `i64` range.
pub fn sat_sub_i64(a: i64, b: i64) -> (r: i64)
    ensures
        r == sat_i64(a - b),
{
    let wide: i128 = a as i128 - b as i128;
    if wide > i64::MAX as i128 {
        i64::MAX
    } else if wide < i64::MIN as i128 {
        i64::MIN
    } else {
        wide as i64
    }
}

/// Trading performance metrics: inventory (positive = long), cash and
/// mark-to-market profit, all in ticks. Updates saturate at the `i64` range
/// instead of overflowing.
#[derive(Debug, Clone, Copy, PartialEq, Eq, Structural)]
pub struct Metrics {
    /// Current inventory position (positive = long, negative = short).
    pub inventory: i64,
    /// Current cash position in ticks.
    pub cash: i64,
    /// Mark-to-market PnL in ticks.
    pub pnl: i64,
}

impl Default for Metrics {
    /// Zero metrics.
    fn default() -> (r: Metrics)
        ensures
            r == (Metrics { inventory: 0i64, cash: 0i64, pnl: 0i64 }),
    {
        Metrics { inventory: 0, cash: 0, pnl: 0 }
    }
}

impl Metrics {
    /// Create new metrics with zero values.
    pub fn new() -> (r: Metrics)
        ensures
            r == (Metrics { inventory: 0i64, cash: 0i64, pnl: 0i64 }),
    {
        Metrics { inventory: 0, cash: 0, pnl: 0 }
    }

    /// The inventory after a trade of `qty` on `side`, clamped to `i64`.
    pub open spec fn spec_inventory_after(self, side: Side, qty: Qty) -> int {
        match side {
            Side::Buy => sat_i64(self.inventory + qty),
            Side::Sell => sat_i64(self.inventory - qty),
        }
    }

    /// The cash after a trade of `qty` at `price` on `side`, clamped to `i64`.
    /// Buying spends cash; selling earns it.
    pub open spec fn spec_cash_after(self, side: Side, qty: Qty, price: Price) -> int {
        match side {
            Side::Buy => sat_i64(self.cash - sat_i64(qty * price)),
            Side::Sell => sat_i64(self.cash + sat_i64(qty * price)),
        }
    }

    /// Update metrics after a trade execution from the given side's
    /// perspective: inventory moves by the signed quantity, cash by the
    /// opposite signed notional.
    pub fn update_trade(&mut self, side: Side, qty: Qty, price: Price)
        ensures
            final(self).inventory == old(self).spec_inventory_after(side, qty),
            final(self).cash == old(self).spec_cash_after(side, qty, price),
            final(self).pnl == old(self).pnl,
    {
        let inv_plus: i128 = self.inventory as i128 + qty as i128;
        let inv_minus: i128 = self.inventory as i128 - qty as i128;
        proof {
            assert((qty as int) * (price as int) <= u128::MAX) by (nonlinear_arith)
                requires
                    0 <= qty <= u64::MAX,
                    0 <= price <= u64::MAX,
            ;
        }
        let notional_wide: u128 = (qty as u128) * (price as u128);
        let notional: i64 = if notional_wide > i64::MAX as u128 {
            i64::MAX
        } else {
            notional_wide as i64
        };
        match side {
            Side::Buy => {
                self.inventory = clamp_i128_to_i64(inv_plus);
                self.cash = sat_sub_i64(self.cash, notional);
            }
            Side::Sell => {
                self.inventory = clamp_i128_to_i64(inv_minus);
                self.cash = sat_add_i64(self.cash, notional);
            }
        }
    }

    /// The mark-to-market profit for a given mid price: cash plus inventory
    /// valued at mid, clamped to `i64`; just cash when no mid exists.
    pub open spec fn spec_pnl(self, mid_price_ticks: Option<Price>) -> int {
        match mid_price_ticks {
            Some(mid) => sat_i64(self.cash + sat_i64(self.inventory * mid)),
            None => self.cash as int,
        }
    }

    /// Recompute mark-to-market PnL against the current mid price.
    pub fn calculate_pnl(&mut self, mid_price_ticks: Option<Price>)
        ensures
            final(self).pnl == old(self).spec_pnl(mid_price_ticks),
            final(self).inventory == old(self).inventory,
            final(self).cash == old(self).cash,
    {
        match mid_price_ticks {
            Some(mid) => {
                proof {
                    let inv = self.inventory as int;
                    let m = mid as int;
                    assert(i128::MIN <= inv * m <= i128::MAX) by (nonlinear_arith)
                        requires
                            i64::MIN <= inv <= i64::MAX,
                            0 <= m <= u64::MAX,
                    ;
                }
                let pos_wide: i128 = (self.inventory as i128) * (mid as i128);
                let pos: i64 = if pos_wide > i64::MAX as i128 {
                    i64::MAX
                } else if pos_wide < i64::MIN as i128 {
                    i64::MIN
                } else {
                    pos_wide as i64
                };
                self.pnl = sat_add_i64(self.cash, pos);
            }
            None => {
                self.pnl = self.cash;
            }
        }
    }
}

} // verus!
