//! The market simulator: a seeded deterministic generator drives synthetic
//! market-maker and taker flow, a network model adds latency and drop
//! decisions, and historical replay feeds recorded events into the engine.
//! Every step is a function of the simulator's state, so two runs from the
//! same seed, configuration and data produce identical trades and snapshots.

use vstd::prelude::*;

use crate::data::{kernel_of, CsvDataSource, EventKernel, MarketEvent};
use crate::data::SourceOutcome;
use crate::data::{kernel_ts, spec_source_next};
use crate::engine::{
    best_price, cancel_spec, place_spec, spec_level_point, spec_mid, spec_spread, BookView,
    DepthSnapshot, LevelView, OrderBook, PlaceOutcome,
};
use crate::error::{EngineError, EngineResult};
use crate::queue::QueueDiscipline;
use crate::types::{Metrics, Order, OrderId, OrderType, Price, Qty, Side, Trade};

verus! {

/// The spread-history buffer keeps at most this many points.
pub const MAX_SPREAD_HISTORY: usize = 400;

/// The default number of depth levels a simulator snapshot carries per side.
pub const DEFAULT_DEPTH_LEVELS: usize = 20;

/// The base price (in ticks) quoted around when the book is empty.
pub const EMPTY_BOOK_BASE_PRICE: u64 = 1000000;

/// One step of the split-mix generator: the next state.
pub open spec fn spec_mix_state(s: u64) -> u64 {
    vstd::wrapping::u64_specs::wrapping_add(s, 0x9E3779B97F4A7C15u64)
}

/// The output word of the split-mix generator for a given state.
pub open spec fn spec_mix_output(z0: u64) -> u64 {
    let z1 = vstd::wrapping::u64_specs::wrapping_mul(z0 ^ (z0 >> 30u64), 0xBF58476D1CE4E5B9u64);
    let z2 = vstd::wrapping::u64_specs::wrapping_mul(z1 ^ (z1 >> 27u64), 0x94D049BB133111EBu64);
    z2 ^ (z2 >> 31u64)
}

/// A deterministic 64-bit pseudo-random generator (split-mix): the whole
/// stream is a function of the seed, so simulations that share a seed share
/// every draw.
#[derive(Debug, Clone, Copy, PartialEq, Eq, Structural)]
pub struct Rng64 {
    /// The generator state; the next draw is a pure function of it.
    pub state: u64,
}

impl Rng64 {
    /// Seed the generator.
    pub fn seed_from_u64(seed: u64) -> (r: Rng64)
        ensures
            r.state == seed,
    {
        Rng64 { state: seed }
    }

    /// Draw the next 64-bit word.
    pub fn next_u64(&mut self) -> (r: u64)
        ensures
            final(self).state == spec_mix_state(old(self).state),
            r == spec_mix_output(spec_mix_state(old(self).state)),
    {
        let z0 = self.state.wrapping_add(0x9E3779B97F4A7C15u64);
        self.state = z0;
        let z1 = (z0 ^ (z0 >> 30u64)).wrapping_mul(0xBF58476D1CE4E5B9u64);
        let z2 = (z1 ^ (z1 >> 27u64)).wrapping_mul(0x94D049BB133111EBu64);
        z2 ^ (z2 >> 31u64)
    }

    /// Draw a value below `bound` (0 when `bound` is 0).
    pub fn next_below(&mut self, bound: u64) -> (r: u64)
        ensures
            final(self).state == spec_mix_state(old(self).state),
            r == spec_below(spec_mix_output(spec_mix_state(old(self).state)), bound),
            bound > 0 ==> r < bound,
    {
        let w = self.next_u64();
        if bound == 0 {
            0
        } else {
            w % bound
        }
    }

    /// Draw a value in the inclusive range `lo..=hi`.
    pub fn next_range(&mut self, lo: u64, hi: u64) -> (r: u64)
        requires
            lo <= hi,
        ensures
            final(self).state == spec_mix_state(old(self).state),
            r == spec_range(spec_mix_output(spec_mix_state(old(self).state)), lo, hi),
            lo <= r <= hi,
    {
        let w = self.next_u64();
        if lo == 0 && hi == u64::MAX {
            w
        } else {
            let span = hi - lo;
            let m = w % (span + 1);
            proof {
                assert(m <= span);
            }
            lo + m
        }
    }

    /// Flip a coin that lands true with probability `ppm` parts per million.
    pub fn chance_ppm(&mut self, ppm: u32) -> (r: bool)
        ensures
            final(self).state == spec_mix_state(old(self).state),
            r == (spec_below(spec_mix_output(spec_mix_state(old(self).state)), 1000000u64)
                < ppm as u64),
    {
        let w = self.next_below(1_000_000);
        w < ppm as u64
    }
}

/// The reduction of a draw below a bound (0 when the bound is 0).
pub open spec fn spec_below(w: u64, bound: u64) -> u64 {
    if bound == 0 {
        0u64
    } else {
        (w % bound) as u64
    }
}

/// The reduction of a draw into the inclusive range `lo..=hi`.
pub open spec fn spec_range(w: u64, lo: u64, hi: u64) -> u64 {
    if lo == 0 && hi == u64::MAX {
        w
    } else {
        (lo + w as int % (hi - lo + 1)) as u64
    }
}

/// Network latency simulation parameters. Probabilities are integer parts
/// per million (10000 = 1%).
#[derive(Debug, Clone, Copy, PartialEq, Eq, Structural)]
pub struct NetModel {
    /// Base latency in nanoseconds.
    pub base_latency_ns: u64,
    /// Jitter range in nanoseconds (the draw lands within ±jitter).
    pub jitter_ns: u64,
    /// Probability of packet drop, in parts per million.
    pub drop_prob_ppm: u32,
    /// Probability of packet reordering, in parts per million.
    pub reorder_prob_ppm: u32,
}

impl Default for NetModel {
    /// 100 microseconds base latency, ±50 microseconds jitter, 0.1% drops,
    /// 1% reorders.
    fn default() -> (r: NetModel)
        ensures
            r == (NetModel {
                base_latency_ns: 100000u64,
                jitter_ns: 50000u64,
                drop_prob_ppm: 1000u32,
                reorder_prob_ppm: 10000u32,
            }),
    {
        NetModel {
            base_latency_ns: 100_000,
            jitter_ns: 50_000,
            drop_prob_ppm: 1000,
            reorder_prob_ppm: 10_000,
        }
    }
}

/// The latency sampled from a network model for a given draw: the base
/// shifted by a jitter in `-jitter..=jitter`, clamped at zero.
pub open spec fn spec_latency(net: NetModel, w: u64) -> u64 {
    if net.jitter_ns == 0 || net.jitter_ns > i64::MAX {
        net.base_latency_ns
    } else {
        let offset = spec_range(w, 0, (2 * net.jitter_ns) as u64);
        if offset >= net.jitter_ns {
            // shift up by offset - jitter
            if net.base_latency_ns + (offset - net.jitter_ns) > u64::MAX {
                u64::MAX
            } else {
                (net.base_latency_ns + (offset - net.jitter_ns)) as u64
            }
        } else {
            // shift down by jitter - offset, clamped at zero
            if net.base_latency_ns < net.jitter_ns - offset {
                0u64
            } else {
                (net.base_latency_ns - (net.jitter_ns - offset)) as u64
            }
        }
    }
}

impl NetModel {
    /// Create a new network model.
    pub fn new(base_latency_ns: u64, jitter_ns: u64, drop_prob_ppm: u32, reorder_prob_ppm: u32) -> (r:
        NetModel)
        ensures
            r == (NetModel { base_latency_ns, jitter_ns, drop_prob_ppm, reorder_prob_ppm }),
    {
        NetModel { base_latency_ns, jitter_ns, drop_prob_ppm, reorder_prob_ppm }
    }

    /// Sample the latency of one operation: base ± uniform jitter, clamped
    /// at zero.
    pub fn simulate_latency(&self, rng: &mut Rng64) -> (r: u64)
        ensures
            final(rng).state == spec_mix_state(old(rng).state),
            r == spec_latency(*self, spec_mix_output(spec_mix_state(old(rng).state))),
    {
        if self.jitter_ns == 0 || self.jitter_ns > i64::MAX as u64 {
            let ghost pre = rng.state;
            let _ = rng.next_u64();
            return self.base_latency_ns;
        }
        let offset = rng.next_range(0, 2 * self.jitter_ns);
        if offset >= self.jitter_ns {
            let up = offset - self.jitter_ns;
            if self.base_latency_ns > u64::MAX - up {
                u64::MAX
            } else {
                self.base_latency_ns + up
            }
        } else {
            let down = self.jitter_ns - offset;
            if self.base_latency_ns < down {
                0
            } else {
                self.base_latency_ns - down
            }
        }
    }

    /// Decide whether a packet is dropped.
    pub fn should_drop(&self, rng: &mut Rng64) -> (r: bool)
        ensures
            final(rng).state == spec_mix_state(old(rng).state),
            r == (spec_below(spec_mix_output(spec_mix_state(old(rng).state)), 1000000u64)
                < self.drop_prob_ppm as u64),
    {
        rng.chance_ppm(self.drop_prob_ppm)
    }

    /// Decide whether a packet is reordered (advisory).
    pub fn should_reorder(&self, rng: &mut Rng64) -> (r: bool)
        ensures
            final(rng).state == spec_mix_state(old(rng).state),
            r == (spec_below(spec_mix_output(spec_mix_state(old(rng).state)), 1000000u64)
                < self.reorder_prob_ppm as u64),
    {
        rng.chance_ppm(self.reorder_prob_ppm)
    }
}

/// Simulation modes.
#[derive(Debug, Clone, Copy, PartialEq, Eq, Structural)]
pub enum SimulationMode {
    /// Pure simulation with synthetic order flow.
    Synthetic,
    /// Historical data replay.
    Historical,
    /// Historical replay combined with synthetic market making.
    Hybrid,
}

/// Market maker configuration. Probabilities and the inventory skew are
/// integer parts per million.
#[derive(Debug, Clone, Copy, PartialEq, Eq, Structural)]
pub struct MarketMakerConfig {
    /// Spread to maintain, in ticks.
    pub target_spread: Price,
    /// Maximum inventory position.
    pub max_inventory: i64,
    /// Order size for market making.
    pub order_size: Qty,
    /// Probability of placing market making orders, in parts per million.
    pub mm_probability_ppm: u32,
    /// Inventory skew: price adjustment per unit of inventory, in millionths
    /// of a currency unit (1000 = 0.1%).
    pub inventory_skew_ppm: u32,
}

impl Default for MarketMakerConfig {
    /// A one-cent target spread, inventory capped at 1000, orders of 100,
    /// 70% quoting probability and 0.1% skew per unit of inventory.
    fn default() -> (r: MarketMakerConfig)
        ensures
            r == (MarketMakerConfig {
                target_spread: 100u64,
                max_inventory: 1000i64,
                order_size: 100u64,
                mm_probability_ppm: 700000u32,
                inventory_skew_ppm: 1000u32,
            }),
    {
        MarketMakerConfig {
            target_spread: 100,
            max_inventory: 1000,
            order_size: 100,
            mm_probability_ppm: 700_000,
            inventory_skew_ppm: 1000,
        }
    }
}

/// Order generation configuration. The market-order probability and the
/// price range fraction are integer parts per million.
#[derive(Debug, Clone, Copy, PartialEq, Eq, Structural)]
pub struct OrderGenerationConfig {
    /// Probability of generating a market order vs a limit order, in ppm.
    pub market_order_prob_ppm: u32,
    /// Mean time between orders, in nanoseconds.
    pub mean_order_interval_ns: u64,
    /// Minimum order size.
    pub min_order_size: Qty,
    /// Maximum order size.
    pub max_order_size: Qty,
    /// Price range for limit orders, as a fraction of mid in ppm.
    pub price_range_ppm: u32,
}

impl Default for OrderGenerationConfig {
    /// 30% market orders, one millisecond mean interval, sizes 10 to 500,
    /// and limit prices within ±2% of mid.
    fn default() -> (r: OrderGenerationConfig)
        ensures
            r == (OrderGenerationConfig {
                market_order_prob_ppm: 300000u32,
                mean_order_interval_ns: 1000000u64,
                min_order_size: 10u64,
                max_order_size: 500u64,
                price_range_ppm: 20000u32,
            }),
    {
        OrderGenerationConfig {
            market_order_prob_ppm: 300_000,
            mean_order_interval_ns: 1_000_000,
            min_order_size: 10,
            max_order_size: 500,
            price_range_ppm: 20_000,
        }
    }
}

/// The deterministic core a step transforms: the book view, the generator
/// state, the metrics and the logical clock.
pub struct SimCore {
    pub book: BookView,
    pub rng: u64,
    pub metrics: Metrics,
    pub now: u128,
}

/// Saturating add of a latency to the logical clock.
pub open spec fn spec_clock_add(now: u128, d: u64) -> u128 {
    if now + d > u128::MAX {
        u128::MAX
    } else {
        (now + d) as u128
    }
}

/// Metrics after applying a list of trades from the taker's perspective.
pub open spec fn spec_apply_trades(m: Metrics, trades: Seq<Trade>, taker_side: Side) -> Metrics
    decreases trades.len(),
{
    if trades.len() == 0 {
        m
    } else {
        let m1 = Metrics {
            inventory: m.spec_inventory_after(taker_side, trades[0].qty) as i64,
            cash: m.spec_cash_after(taker_side, trades[0].qty, trades[0].price) as i64,
            pnl: m.pnl,
        };
        spec_apply_trades(m1, trades.drop_first(), taker_side)
    }
}

/// Metrics after a trade list and a mark-to-market against the given mid.
pub open spec fn spec_settle(m: Metrics, trades: Seq<Trade>, taker_side: Side, mid: Option<Price>) -> Metrics {
    let m1 = spec_apply_trades(m, trades, taker_side);
    Metrics { pnl: m1.spec_pnl(mid) as i64, ..m1 }
}

/// The spread history after appending one point, evicting the oldest beyond
/// the capacity.
pub open spec fn spec_push_spread(h: Seq<(u128, i64)>, p: (u128, i64)) -> Seq<(u128, i64)> {
    if h.len() >= MAX_SPREAD_HISTORY {
        h.drop_first().push(p)
    } else {
        h.push(p)
    }
}

/// The submission of one generated order: advance the clock by a latency
/// draw, flip the drop coin, and place if kept; trades settle the metrics
/// against the book's new mid. Recoverable rejections are swallowed.
pub open spec fn spec_submit<Q: QueueDiscipline>(c: SimCore, net: NetModel, order: Order) -> (
    SimCore,
    Result<Seq<Trade>, EngineError>,
) {
    let r1 = spec_mix_state(c.rng);
    let latency = spec_latency(net, spec_mix_output(r1));
    let now1 = spec_clock_add(c.now, latency);
    let r2 = spec_mix_state(r1);
    let dropped = spec_below(spec_mix_output(r2), 1000000u64) < net.drop_prob_ppm as u64;
    let c1 = SimCore { rng: r2, now: now1, ..c };
    if dropped {
        (c1, Ok(Seq::<Trade>::empty()))
    } else {
        let (nv, outcome) = place_spec::<Q>(c.book, order);
        match outcome {
            PlaceOutcome::Refused(e) => if e.spec_is_recoverable() {
                (c1, Ok(Seq::<Trade>::empty()))
            } else {
                (c1, Err(e))
            },
            PlaceOutcome::Accepted(trades) => {
                let mid = spec_mid(best_price(nv.bids), best_price(nv.asks));
                let m2 = spec_settle(c.metrics, trades, order.side, mid);
                (SimCore { book: nv, metrics: m2, ..c1 }, Ok(trades))
            },
        }
    }
}

/// The market-maker quotes for one pass: a bid and an ask around mid (or a
/// base price on an empty book), skewed down by long inventory, each placed
/// only when its coin lands, inventory allows, and it improves the top.
pub open spec fn spec_mm_quotes(
    book: BookView,
    rng: u64,
    inventory: i64,
    mm: MarketMakerConfig,
    next_id: u64,
    now: u128,
) -> (Option<Order>, Option<Order>, u64, u64) {
    let bb = best_price(book.bids);
    let ba = best_price(book.asks);
    let half = mm.target_spread / 2;
    let adj: int = if inventory > 0 {
        inventory * mm.inventory_skew_ppm / 100
    } else {
        0
    };
    let center: int = match spec_mid(bb, ba) {
        Some(mid) => mid as int,
        None => EMPTY_BOOK_BASE_PRICE as int,
    };
    let target_bid: u64 = if center - half - adj < 0 {
        0u64
    } else if center - half - adj > u64::MAX {
        u64::MAX
    } else {
        (center - half - adj) as u64
    };
    let target_ask: u64 = if center + half - adj < 0 {
        0u64
    } else if center + half - adj > u64::MAX {
        u64::MAX
    } else {
        (center + half - adj) as u64
    };
    let r1 = spec_mix_state(rng);
    let bid_coin = spec_below(spec_mix_output(r1), 1000000u64) < mm.mm_probability_ppm as u64;
    let r2 = spec_mix_state(r1);
    let ask_coin = spec_below(spec_mix_output(r2), 1000000u64) < mm.mm_probability_ppm as u64;
    let place_bid = bid_coin && inventory < mm.max_inventory && (bb is None || bb->0 < target_bid)
        && target_bid > 0;
    let place_ask = ask_coin && inventory + mm.max_inventory > 0 && (ba is None
        || ba->0 > target_ask) && target_ask > 0;
    let bid_order = if place_bid {
        Some(Order {
            id: next_id,
            side: Side::Buy,
            qty: mm.order_size,
            order_type: OrderType::Limit { price: target_bid },
            ts: now,
        })
    } else {
        None
    };
    let id2 = if place_bid {
        vstd::wrapping::u64_specs::wrapping_add(next_id, 1)
    } else {
        next_id
    };
    let ask_order = if place_ask {
        Some(Order {
            id: id2,
            side: Side::Sell,
            qty: mm.order_size,
            order_type: OrderType::Limit { price: target_ask },
            ts: now,
        })
    } else {
        None
    };
    let id3 = if place_ask {
        vstd::wrapping::u64_specs::wrapping_add(id2, 1)
    } else {
        id2
    };
    (bid_order, ask_order, r2, id3)
}

/// The market-taker order for one pass: a random side and size; a market
/// order with the configured probability, otherwise a limit priced within
/// the configured fraction of mid (no order when the book has no mid).
pub open spec fn spec_taker_order(
    book: BookView,
    rng: u64,
    og: OrderGenerationConfig,
    next_id: u64,
    now: u128,
) -> (Option<Order>, u64, u64) {
    let r1 = spec_mix_state(rng);
    let side = if spec_below(spec_mix_output(r1), 2) == 0 {
        Side::Buy
    } else {
        Side::Sell
    };
    let r2 = spec_mix_state(r1);
    let qty = if og.min_order_size <= og.max_order_size {
        spec_range(spec_mix_output(r2), og.min_order_size, og.max_order_size)
    } else {
        og.min_order_size
    };
    let r3 = spec_mix_state(r2);
    let market = spec_below(spec_mix_output(r3), 1000000u64) < og.market_order_prob_ppm as u64;
    if market {
        (
            Some(Order { id: next_id, side, qty, order_type: OrderType::Market, ts: now }),
            r3,
            vstd::wrapping::u64_specs::wrapping_add(next_id, 1),
        )
    } else {
        match spec_mid(best_price(book.bids), best_price(book.asks)) {
            None => (None, r3, next_id),
            Some(mid) => {
                let wide = (mid as int) * (og.price_range_ppm as int) / 1000000;
                let range_ticks: u64 = if wide > u64::MAX {
                    u64::MAX
                } else {
                    wide as u64
                };
                let r4 = spec_mix_state(r3);
                let offset = spec_range(spec_mix_output(r4), 0, range_ticks);
                let r5 = spec_mix_state(r4);
                let toward = spec_below(spec_mix_output(r5), 2) == 0;
                let price: u64 = spec_taker_price(side, mid, offset, toward);
                if price > 0 {
                    (
                        Some(Order {
                            id: next_id,
                            side,
                            qty,
                            order_type: OrderType::Limit { price },
                            ts: now,
                        }),
                        r5,
                        vstd::wrapping::u64_specs::wrapping_add(next_id, 1),
                    )
                } else {
                    (None, r5, next_id)
                }
            },
        }
    }
}

/// The spec transition of processing one historical event kernel: placements
/// and trades (as synthetic market orders) go through the matching
/// transition with rejections swallowed, cancellations through the cancel
/// transition with unknown ids ignored; other events do not touch the book.
pub open spec fn spec_process_event<Q: QueueDiscipline>(c: SimCore, next_id: u64, k: EventKernel) -> (
    SimCore,
    u64,
    Seq<Trade>,
) {
    match k {
        EventKernel::Placement { order } => {
            let (nv, outcome) = place_spec::<Q>(c.book, order);
            match outcome {
                PlaceOutcome::Refused(_) => (c, next_id, Seq::<Trade>::empty()),
                PlaceOutcome::Accepted(trades) => {
                    let mid = spec_mid(best_price(nv.bids), best_price(nv.asks));
                    let m = spec_settle(c.metrics, trades, order.side, mid);
                    (SimCore { book: nv, metrics: m, ..c }, next_id, trades)
                },
            }
        },
        EventKernel::Cancellation { order_id, .. } => {
            let (nv, _) = cancel_spec(c.book, order_id);
            (SimCore { book: nv, ..c }, next_id, Seq::<Trade>::empty())
        },
        EventKernel::Trade { qty, side, .. } => {
            let order = Order { id: next_id, side, qty, order_type: OrderType::Market, ts: c.now };
            let id1 = vstd::wrapping::u64_specs::wrapping_add(next_id, 1);
            let (nv, outcome) = place_spec::<Q>(c.book, order);
            match outcome {
                PlaceOutcome::Refused(_) => (c, id1, Seq::<Trade>::empty()),
                PlaceOutcome::Accepted(trades) => {
                    let mid = spec_mid(best_price(nv.bids), best_price(nv.asks));
                    let m = spec_settle(c.metrics, trades, side, mid);
                    (SimCore { book: nv, metrics: m, ..c }, id1, trades)
                },
            }
        },
        _ => (c, next_id, Seq::<Trade>::empty()),
    }
}

/// The market simulator: an order book driven by a seeded deterministic
/// generator, a network model, metrics and a rolling spread history, with
/// optional historical replay. Every mutation of the simulator is pinned to
/// a spec transition of its state, which is what makes runs reproducible.
pub struct Simulator<Q: QueueDiscipline> {
    /// The order book engine.
    pub engine: OrderBook<Q>,
    /// The seed the generator started from; `reset` reseeds with it.
    pub seed: u64,
    /// The seeded generator; every draw comes from it in a fixed order.
    pub rng: Rng64,
    /// Network latency simulation model.
    pub net: NetModel,
    /// Trading performance metrics.
    pub metrics: Metrics,
    /// Rolling spread history, capacity `MAX_SPREAD_HISTORY`.
    pub recent_spreads: Vec<(u128, i64)>,
    /// The next order id to assign.
    pub next_order_id: OrderId,
    /// The current logical timestamp (nanoseconds).
    pub current_time: u128,
    /// Historical replay source, if any.
    pub data_source: Option<CsvDataSource>,
    /// The simulation mode.
    pub mode: SimulationMode,
    /// Market maker parameters.
    pub market_maker_config: MarketMakerConfig,
    /// Order generation parameters.
    pub order_gen_config: OrderGenerationConfig,
}

impl<Q: QueueDiscipline> Simulator<Q> {
    /// The simulator is well formed when its engine is.
    pub open spec fn wf(&self) -> bool {
        &&& self.engine.wf()
        &&& self.recent_spreads@.len() <= MAX_SPREAD_HISTORY
    }

    /// The deterministic kernel of the state.
    pub open spec fn state_core(&self) -> SimCore {
        SimCore {
            book: self.engine.book_view(),
            rng: self.rng.state,
            metrics: self.metrics,
            now: self.current_time,
        }
    }

    /// The whole state a step transforms, at the view level.
    pub open spec fn sim_state(&self) -> SimState {
        SimState {
            core: self.state_core(),
            next_id: self.next_order_id,
            spreads: self.recent_spreads@,
            source: self.data_source,
            mode: self.mode,
            net: self.net,
            mm: self.market_maker_config,
            og: self.order_gen_config,
        }
    }

    /// Create a new simulator with the default seed of 42.
    pub fn new(engine: OrderBook<Q>) -> (r: Simulator<Q>)
        requires
            engine.wf(),
        ensures
            r.wf(),
            r.engine == engine,
            r.seed == 42u64,
            r.rng.state == 42u64,
            r.metrics == (Metrics { inventory: 0i64, cash: 0i64, pnl: 0i64 }),
            r.recent_spreads@.len() == 0,
            r.next_order_id == 1u64,
            r.current_time == 0u128,
            r.data_source is None,
            r.mode == SimulationMode::Synthetic,
            r.net == (NetModel {
                base_latency_ns: 100000u64,
                jitter_ns: 50000u64,
                drop_prob_ppm: 1000u32,
                reorder_prob_ppm: 10000u32,
            }),
    {
        Simulator::with_seed(engine, 42)
    }

    /// Create a new simulator with the given random seed. The logical clock
    /// starts at zero so runs from one seed are reproducible.
    pub fn with_seed(engine: OrderBook<Q>, seed: u64) -> (r: Simulator<Q>)
        requires
            engine.wf(),
        ensures
            r.wf(),
            r.engine == engine,
            r.seed == seed,
            r.rng.state == seed,
            r.metrics == (Metrics { inventory: 0i64, cash: 0i64, pnl: 0i64 }),
            r.recent_spreads@.len() == 0,
            r.next_order_id == 1u64,
            r.current_time == 0u128,
            r.data_source is None,
            r.mode == SimulationMode::Synthetic,
            r.net == (NetModel {
                base_latency_ns: 100000u64,
                jitter_ns: 50000u64,
                drop_prob_ppm: 1000u32,
                reorder_prob_ppm: 10000u32,
            }),
    {
        Simulator {
            engine,
            seed,
            rng: Rng64::seed_from_u64(seed),
            net: NetModel::default(),
            metrics: Metrics::new(),
            recent_spreads: Vec::new(),
            next_order_id: 1,
            current_time: 0,
            data_source: None,
            mode: SimulationMode::Synthetic,
            market_maker_config: MarketMakerConfig::default(),
            order_gen_config: OrderGenerationConfig::default(),
        }
    }

    /// Set the network model.
    pub fn with_network_model(self, net: NetModel) -> (r: Simulator<Q>)
        ensures
            r == (Simulator { net, ..self }),
    {
        Simulator { net, ..self }
    }

    /// Set the market maker configuration.
    pub fn with_market_maker_config(self, config: MarketMakerConfig) -> (r: Simulator<Q>)
        ensures
            r == (Simulator { market_maker_config: config, ..self }),
    {
        Simulator { market_maker_config: config, ..self }
    }

    /// Set the order generation configuration.
    pub fn with_order_generation_config(self, config: OrderGenerationConfig) -> (r: Simulator<Q>)
        ensures
            r == (Simulator { order_gen_config: config, ..self }),
    {
        Simulator { order_gen_config: config, ..self }
    }

    /// Attach a historical data source and switch to historical replay.
    pub fn with_data_source(self, data_source: CsvDataSource) -> (r: Simulator<Q>)
        ensures
            r == (Simulator {
                data_source: Some(data_source),
                mode: SimulationMode::Historical,
                ..self
            }),
    {
        Simulator { data_source: Some(data_source), mode: SimulationMode::Historical, ..self }
    }

    /// Set the simulation mode.
    pub fn set_mode(&mut self, mode: SimulationMode)
        ensures
            *final(self) == (Simulator { mode, ..*old(self) }),
    {
        self.mode = mode;
    }

    /// Take the next order id.
    fn take_order_id(&mut self) -> (r: OrderId)
        ensures
            r == old(self).next_order_id,
            *final(self) == (Simulator {
                next_order_id: vstd::wrapping::u64_specs::wrapping_add(old(self).next_order_id, 1),
                ..*old(self)
            }),
    {
        let id = self.next_order_id;
        self.next_order_id = self.next_order_id.wrapping_add(1);
        id
    }

    /// Apply a trade list to the metrics from the taker's perspective and
    /// mark to market against the book's current mid.
    fn settle_trades(&mut self, trades: &Vec<Trade>, taker_side: Side)
        requires
            old(self).wf(),
        ensures
            final(self).wf(),
            *final(self) == (Simulator {
                metrics: spec_settle(
                    old(self).metrics,
                    trades@,
                    taker_side,
                    spec_mid(
                        best_price(old(self).engine.book_view().bids),
                        best_price(old(self).engine.book_view().asks),
                    ),
                ),
                ..*old(self)
            }),
    {
        let ghost m0 = self.metrics;
        let mut k: usize = 0;
        while k < trades.len()
            invariant
                0 <= k <= trades@.len(),
                *self == (Simulator {
                    metrics: spec_apply_trades(m0, trades@.subrange(0, k as int), taker_side),
                    ..*old(self)
                }),
            decreases trades@.len() - k,
        {
            let t = trades[k];
            proof {
                lemma_apply_trades_snoc(m0, trades@, k as int, taker_side);
            }
            self.metrics.update_trade(taker_side, t.qty, t.price);
            k = k + 1;
        }
        proof {
            assert(trades@.subrange(0, trades@.len() as int) =~= trades@);
        }
        let mid = self.engine.mid_price();
        self.metrics.calculate_pnl(mid);
    }

    /// Append the current spread to the rolling history, evicting the oldest
    /// beyond the capacity; no-op when the book has no two-sided market.
    fn record_spread(&mut self)
        requires
            old(self).wf(),
        ensures
            final(self).wf(),
            ({
                let sp = spec_spread(
                    best_price(old(self).engine.book_view().bids),
                    best_price(old(self).engine.book_view().asks),
                );
                match sp {
                    Some(v) => final(self).recent_spreads@ == spec_push_spread(
                        old(self).recent_spreads@,
                        (old(self).current_time, v),
                    ) && *final(self) == (Simulator {
                        recent_spreads: final(self).recent_spreads,
                        ..*old(self)
                    }),
                    None => *final(self) == *old(self),
                }
            }),
    {
        match self.engine.spread() {
            Option::Some(v) => {
                if self.recent_spreads.len() >= MAX_SPREAD_HISTORY {
                    self.recent_spreads.remove(0);
                }
                let now = self.current_time;
                self.recent_spreads.push((now, v));
            },
            Option::None => {},
        }
    }
}

/// The trade fold distributes over concatenation.
proof fn lemma_apply_trades_concat(m0: Metrics, a: Seq<Trade>, b: Seq<Trade>, taker_side: Side)
    ensures
        spec_apply_trades(m0, a + b, taker_side) == spec_apply_trades(
            spec_apply_trades(m0, a, taker_side),
            b,
            taker_side,
        ),
    decreases a.len(),
{
    if a.len() == 0 {
        assert(a + b =~= b);
    } else {
        assert((a + b)[0] == a[0]);
        assert((a + b).drop_first() =~= a.drop_first() + b);
        let m1 = Metrics {
            inventory: m0.spec_inventory_after(taker_side, a[0].qty) as i64,
            cash: m0.spec_cash_after(taker_side, a[0].qty, a[0].price) as i64,
            pnl: m0.pnl,
        };
        lemma_apply_trades_concat(m1, a.drop_first(), b, taker_side);
    }
}

/// Applying one more trade extends the fold by one step.
proof fn lemma_apply_trades_snoc(m0: Metrics, trades: Seq<Trade>, k: int, taker_side: Side)
    requires
        0 <= k < trades.len(),
    ensures
        spec_apply_trades(m0, trades.subrange(0, k + 1), taker_side) == ({
            let m = spec_apply_trades(m0, trades.subrange(0, k), taker_side);
            Metrics {
                inventory: m.spec_inventory_after(taker_side, trades[k].qty) as i64,
                cash: m.spec_cash_after(taker_side, trades[k].qty, trades[k].price) as i64,
                pnl: m.pnl,
            }
        }),
{
    let p0 = trades.subrange(0, k);
    let last = seq![trades[k]];
    assert(trades.subrange(0, k + 1) =~= p0 + last);
    lemma_apply_trades_concat(m0, p0, last, taker_side);
    let m = spec_apply_trades(m0, p0, taker_side);
    assert(last[0] == trades[k]);
    assert(last.drop_first() =~= Seq::<Trade>::empty());
    let mk = Metrics {
        inventory: m.spec_inventory_after(taker_side, trades[k].qty) as i64,
        cash: m.spec_cash_after(taker_side, trades[k].qty, trades[k].price) as i64,
        pnl: m.pnl,
    };
    assert(spec_apply_trades(mk, last.drop_first(), taker_side) == mk);
    assert(spec_apply_trades(m, last, taker_side) == mk);
}

/// The whole simulator state a step transforms: the deterministic kernel
/// plus the id counter, the spread history, the replay source, the mode and
/// the configurations.
#[verifier::ext_equal]
pub struct SimState {
    pub core: SimCore,
    pub next_id: u64,
    pub spreads: Seq<(u128, i64)>,
    pub source: Option<CsvDataSource>,
    pub mode: SimulationMode,
    pub net: NetModel,
    pub mm: MarketMakerConfig,
    pub og: OrderGenerationConfig,
}

/// The result of the step transition: the new state and the trades (or the
/// non-recoverable error that aborted the step).
#[verifier::ext_equal]
pub struct StepResult {
    pub state: SimState,
    pub outcome: Result<Seq<Trade>, EngineError>,
}

/// Submission of an optional generated order (absent orders change nothing).
pub open spec fn spec_submit_opt<Q: QueueDiscipline>(
    c: SimCore,
    net: NetModel,
    o: Option<Order>,
) -> (SimCore, Result<Seq<Trade>, EngineError>) {
    match o {
        Option::None => (c, Ok(Seq::<Trade>::empty())),
        Option::Some(order) => spec_submit::<Q>(c, net, order),
    }
}

/// The spread history after a step: when trades occurred and the book has a
/// two-sided market, the spread is appended (evicting the oldest beyond the
/// capacity); otherwise the history is unchanged.
pub open spec fn spec_record_spread(
    h: Seq<(u128, i64)>,
    book: BookView,
    now: u128,
    traded: bool,
) -> Seq<(u128, i64)> {
    if traded {
        match spec_spread(best_price(book.bids), best_price(book.asks)) {
            Some(v) => spec_push_spread(h, (now, v)),
            None => h,
        }
    } else {
        h
    }
}

/// One market-making pass plus one taker order, submitted in draw order;
/// a non-recoverable rejection aborts with the state reached so far.
pub open spec fn spec_step_synthetic<Q: QueueDiscipline>(s0: SimState) -> StepResult {
    let (bid_o, ask_o, r2, id1) = spec_mm_quotes(
        s0.core.book,
        s0.core.rng,
        s0.core.metrics.inventory,
        s0.mm,
        s0.next_id,
        s0.core.now,
    );
    let c1 = SimCore { rng: r2, ..s0.core };
    let (c2, rb) = spec_submit_opt::<Q>(c1, s0.net, bid_o);
    match rb {
        Err(e) => StepResult { state: SimState { core: c2, next_id: id1, ..s0 }, outcome: Err(e) },
        Ok(t1) => {
            let (c3, ra) = spec_submit_opt::<Q>(c2, s0.net, ask_o);
            match ra {
                Err(e) => StepResult {
                    state: SimState { core: c3, next_id: id1, ..s0 },
                    outcome: Err(e),
                },
                Ok(t2) => {
                    let (tk, r_t, id2) = spec_taker_order(c3.book, c3.rng, s0.og, id1, c3.now);
                    let c4 = SimCore { rng: r_t, ..c3 };
                    let (c5, rt) = spec_submit_opt::<Q>(c4, s0.net, tk);
                    match rt {
                        Err(e) => StepResult {
                            state: SimState { core: c5, next_id: id2, ..s0 },
                            outcome: Err(e),
                        },
                        Ok(t3) => {
                            let all = t1 + t2 + t3;
                            let spreads1 = spec_record_spread(
                                s0.spreads,
                                c5.book,
                                c5.now,
                                all.len() > 0,
                            );
                            StepResult {
                                state: SimState {
                                    core: c5,
                                    next_id: id2,
                                    spreads: spreads1,
                                    ..s0
                                },
                                outcome: Ok(all),
                            }
                        },
                    }
                },
            }
        },
    }
}

/// One historical pull: the event's timestamp becomes the clock and the
/// event is applied; a bad record falls back to synthetic flow; the end of
/// the data changes nothing.
pub open spec fn spec_step_historical<Q: QueueDiscipline>(s0: SimState) -> StepResult {
    match s0.source {
        Option::None => StepResult { state: s0, outcome: Ok(Seq::<Trade>::empty()) },
        Option::Some(src) => {
            let (src1, out) = spec_source_next(src);
            let s1 = SimState { source: Some(src1), ..s0 };
            match out {
                SourceOutcome::End => StepResult { state: s1, outcome: Ok(Seq::<Trade>::empty()) },
                SourceOutcome::Event(k) => {
                    let c = SimCore { now: kernel_ts(k), ..s1.core };
                    let (c1, id1, trades) = spec_process_event::<Q>(c, s1.next_id, k);
                    let spreads1 = spec_record_spread(
                        s1.spreads,
                        c1.book,
                        c1.now,
                        trades.len() > 0,
                    );
                    StepResult {
                        state: SimState { core: c1, next_id: id1, spreads: spreads1, ..s1 },
                        outcome: Ok(trades),
                    }
                },
                _ => StepResult {
                    state: SimState { mode: SimulationMode::Synthetic, ..s1 },
                    outcome: Ok(Seq::<Trade>::empty()),
                },
            }
        },
    }
}

/// One historical pull (failures do not change the mode here), then with
/// probability one half a market-making pass.
pub open spec fn spec_step_hybrid<Q: QueueDiscipline>(s0: SimState) -> StepResult {
    let pulled: (SimState, Seq<Trade>) = match s0.source {
        Option::None => (s0, Seq::<Trade>::empty()),
        Option::Some(src) => {
            let (src1, out) = spec_source_next(src);
            let sA = SimState { source: Some(src1), ..s0 };
            match out {
                SourceOutcome::Event(k) => {
                    let c = SimCore { now: kernel_ts(k), ..sA.core };
                    let (c1, id1, trades) = spec_process_event::<Q>(c, sA.next_id, k);
                    (SimState { core: c1, next_id: id1, ..sA }, trades)
                },
                _ => (sA, Seq::<Trade>::empty()),
            }
        },
    };
    let s1 = pulled.0;
    let htrades = pulled.1;
    let r2 = spec_mix_state(s1.core.rng);
    let coin = spec_below(spec_mix_output(r2), 1000000u64) < 500000u64;
    let s2 = SimState { core: SimCore { rng: r2, ..s1.core }, ..s1 };
    if coin {
        let (bid_o, ask_o, r3, id2) = spec_mm_quotes(
            s2.core.book,
            s2.core.rng,
            s2.core.metrics.inventory,
            s2.mm,
            s2.next_id,
            s2.core.now,
        );
        let s3 = SimState { core: SimCore { rng: r3, ..s2.core }, next_id: id2, ..s2 };
        let (cb, rb) = spec_submit_opt::<Q>(s3.core, s3.net, bid_o);
        match rb {
            Err(e) => StepResult { state: SimState { core: cb, ..s3 }, outcome: Err(e) },
            Ok(tb) => {
                let (ca, ra) = spec_submit_opt::<Q>(cb, s3.net, ask_o);
                match ra {
                    Err(e) => StepResult { state: SimState { core: ca, ..s3 }, outcome: Err(e) },
                    Ok(ta) => {
                        let all = htrades + tb + ta;
                        let spreads1 = spec_record_spread(
                            s3.spreads,
                            ca.book,
                            ca.now,
                            all.len() > 0,
                        );
                        StepResult {
                            state: SimState { core: ca, spreads: spreads1, ..s3 },
                            outcome: Ok(all),
                        }
                    },
                }
            },
        }
    } else {
        let spreads1 = spec_record_spread(s2.spreads, s2.core.book, s2.core.now, htrades.len() > 0);
        StepResult { state: SimState { spreads: spreads1, ..s2 }, outcome: Ok(htrades) }
    }
}

/// The step transition: advance the clock by a drawn inter-order interval,
/// then dispatch by mode. Identical states step to identical results, which
/// is the determinism guarantee.
#[verifier::opaque]
pub open spec fn spec_step<Q: QueueDiscipline>(s: SimState) -> StepResult {
    let r1 = spec_mix_state(s.core.rng);
    let lo = s.og.mean_order_interval_ns / 2;
    let hi: u64 = if s.og.mean_order_interval_ns > u64::MAX / 2 {
        u64::MAX
    } else {
        (s.og.mean_order_interval_ns * 2) as u64
    };
    let advance = spec_range(spec_mix_output(r1), lo, hi);
    let now1 = spec_clock_add(s.core.now, advance);
    let s0 = SimState { core: SimCore { rng: r1, now: now1, ..s.core }, ..s };
    match s.mode {
        SimulationMode::Synthetic => spec_step_synthetic::<Q>(s0),
        SimulationMode::Historical => spec_step_historical::<Q>(s0),
        SimulationMode::Hybrid => spec_step_hybrid::<Q>(s0),
    }
}

/// The n-fold iteration of the step transition, concatenating the trades;
/// the first non-recoverable error aborts the run.
pub open spec fn spec_run_steps<Q: QueueDiscipline>(s: SimState, n: nat) -> StepResult
    decreases n,
{
    if n == 0 {
        StepResult { state: s, outcome: Ok(Seq::<Trade>::empty()) }
    } else {
        let sr = spec_step::<Q>(s);
        match sr.outcome {
            Err(e) => sr,
            Ok(t) => {
                let rest = spec_run_steps::<Q>(sr.state, (n - 1) as nat);
                match rest.outcome {
                    Err(e) => rest,
                    Ok(t2) => StepResult { state: rest.state, outcome: Ok(t + t2) },
                }
            },
        }
    }
}

/// Law: determinism — two simulators in equal states run to equal states,
/// equal trade sequences and equal outcomes, however many steps are taken;
/// the step transition is a function of the state alone.
pub proof fn lemma_run_deterministic<Q: QueueDiscipline>(a: SimState, b: SimState, n: nat)
    requires
        a == b,
    ensures
        spec_run_steps::<Q>(a, n) == spec_run_steps::<Q>(b, n),
{
}

impl<Q: QueueDiscipline> Simulator<Q> {
    /// The market-maker quotes for this pass as a (bid, ask) pair: quotes
    /// around mid (or the base price on an empty book), skewed down by long
    /// inventory, each subject to its coin, the inventory cap and top-of-book
    /// improvement.
    fn mm_quotes_pair(&mut self) -> (r: (Option<Order>, Option<Order>))
        ensures
            ({
                let (bid_o, ask_o, rng2, id3) = spec_mm_quotes(
                    old(self).engine.book_view(),
                    old(self).rng.state,
                    old(self).metrics.inventory,
                    old(self).market_maker_config,
                    old(self).next_order_id,
                    old(self).current_time,
                );
                &&& *final(self) == (Simulator {
                    rng: Rng64 { state: rng2 },
                    next_order_id: id3,
                    ..*old(self)
                })
                &&& r == (bid_o, ask_o)
            }),
    {
        let ghost pre = *self;
        let bb = self.engine.best_bid();
        let ba = self.engine.best_ask();
        let mid = self.engine.mid_price();
        let mm = self.market_maker_config;
        let half = mm.target_spread / 2;
        proof {
            let inv = self.metrics.inventory as int;
            let skew = mm.inventory_skew_ppm as int;
            assert(inv * skew <= i128::MAX && inv * skew >= i128::MIN) by (nonlinear_arith)
                requires
                    i64::MIN <= inv <= i64::MAX,
                    0 <= skew <= u32::MAX,
            ;
        }
        let adj: i128 = if self.metrics.inventory > 0 {
            (self.metrics.inventory as i128) * (mm.inventory_skew_ppm as i128) / 100
        } else {
            0
        };
        let center: i128 = match mid {
            Option::Some(m) => m as i128,
            Option::None => EMPTY_BOOK_BASE_PRICE as i128,
        };
        let bid_wide: i128 = center - (half as i128) - adj;
        let ask_wide: i128 = center + (half as i128) - adj;
        let target_bid: u64 = if bid_wide < 0 {
            0
        } else if bid_wide > u64::MAX as i128 {
            u64::MAX
        } else {
            bid_wide as u64
        };
        let target_ask: u64 = if ask_wide < 0 {
            0
        } else if ask_wide > u64::MAX as i128 {
            u64::MAX
        } else {
            ask_wide as u64
        };
        let bid_coin = self.rng.chance_ppm(mm.mm_probability_ppm);
        let ask_coin = self.rng.chance_ppm(mm.mm_probability_ppm);
        let bid_improves = match bb {
            Option::None => true,
            Option::Some(b) => b < target_bid,
        };
        let ask_improves = match ba {
            Option::None => true,
            Option::Some(a) => a > target_ask,
        };
        let inv_ok_bid = self.metrics.inventory < mm.max_inventory;
        let inv_ok_ask = (self.metrics.inventory as i128) + (mm.max_inventory as i128) > 0;
        let place_bid = bid_coin && inv_ok_bid && bid_improves && target_bid > 0;
        let place_ask = ask_coin && inv_ok_ask && ask_improves && target_ask > 0;
        let bid_order = if place_bid {
            let id = self.take_order_id();
            Some(
                Order {
                    id,
                    side: Side::Buy,
                    qty: mm.order_size,
                    order_type: OrderType::Limit { price: target_bid },
                    ts: self.current_time,
                },
            )
        } else {
            None
        };
        let ask_order = if place_ask {
            let id = self.take_order_id();
            Some(
                Order {
                    id,
                    side: Side::Sell,
                    qty: mm.order_size,
                    order_type: OrderType::Limit { price: target_ask },
                    ts: self.current_time,
                },
            )
        } else {
            None
        };
        (bid_order, ask_order)
    }

    /// Generate the market-maker orders for this pass (the bid first).
    pub fn generate_market_making_orders(&mut self) -> (r: Vec<Order>)
        ensures
            ({
                let (bid_o, ask_o, rng2, id3) = spec_mm_quotes(
                    old(self).engine.book_view(),
                    old(self).rng.state,
                    old(self).metrics.inventory,
                    old(self).market_maker_config,
                    old(self).next_order_id,
                    old(self).current_time,
                );
                &&& *final(self) == (Simulator {
                    rng: Rng64 { state: rng2 },
                    next_order_id: id3,
                    ..*old(self)
                })
                &&& r@ == mm_order_seq(bid_o, ask_o)
            }),
    {
        let pair = self.mm_quotes_pair();
        let mut orders: Vec<Order> = Vec::new();
        match pair.0 {
            Option::Some(o) => {
                orders.push(o);
            },
            Option::None => {},
        }
        match pair.1 {
            Option::Some(o) => {
                orders.push(o);
            },
            Option::None => {},
        }
        proof {
            let (bid_o, ask_o, rng2, id3) = spec_mm_quotes(
                old(self).engine.book_view(),
                old(self).rng.state,
                old(self).metrics.inventory,
                old(self).market_maker_config,
                old(self).next_order_id,
                old(self).current_time,
            );
            assert(orders@ =~= mm_order_seq(bid_o, ask_o));
        }
        orders
    }

    /// Generate one market-taker order: random side and size, a market order
    /// with the configured probability, else a limit within the configured
    /// fraction of mid (none when the book has no mid).
    #[verifier::rlimit(100)]
    pub fn generate_market_taker_order(&mut self) -> (r: Option<Order>)
        ensures
            ({
                let (o, rng2, id2) = spec_taker_order(
                    old(self).engine.book_view(),
                    old(self).rng.state,
                    old(self).order_gen_config,
                    old(self).next_order_id,
                    old(self).current_time,
                );
                &&& *final(self) == (Simulator {
                    rng: Rng64 { state: rng2 },
                    next_order_id: id2,
                    ..*old(self)
                })
                &&& r == o
            }),
    {
        let ghost pre = *self;
        let ghost spec_result = spec_taker_order(
            pre.engine.book_view(),
            pre.rng.state,
            pre.order_gen_config,
            pre.next_order_id,
            pre.current_time,
        );
        let og = self.order_gen_config;
        let side = if self.rng.next_below(2) == 0 {
            Side::Buy
        } else {
            Side::Sell
        };
        let qty = if og.min_order_size <= og.max_order_size {
            self.rng.next_range(og.min_order_size, og.max_order_size)
        } else {
            let _ = self.rng.next_u64();
            og.min_order_size
        };
        let market = self.rng.chance_ppm(og.market_order_prob_ppm);
        proof {
            let r1 = spec_mix_state(pre.rng.state);
            let r2 = spec_mix_state(r1);
            let r3 = spec_mix_state(r2);
            assert(self.rng.state == r3);
            assert(side == (if spec_below(spec_mix_output(r1), 2) == 0 {
                Side::Buy
            } else {
                Side::Sell
            }));
            assert(qty == (if og.min_order_size <= og.max_order_size {
                spec_range(spec_mix_output(r2), og.min_order_size, og.max_order_size)
            } else {
                og.min_order_size
            }));
            assert(market == (spec_below(spec_mix_output(r3), 1000000u64)
                < og.market_order_prob_ppm as u64));
        }
        if market {
            let id = self.take_order_id();
            return Some(Order { id, side, qty, order_type: OrderType::Market, ts: self.current_time });
        }
        let mid = match self.engine.mid_price() {
            Option::Some(m) => m,
            Option::None => {
                return None;
            },
        };
        proof {
            assert((mid as int) * (og.price_range_ppm as int) <= u128::MAX) by (nonlinear_arith)
                requires
                    0 <= mid <= u64::MAX,
                    0 <= og.price_range_ppm <= u32::MAX,
            ;
        }
        let wide: u128 = (mid as u128) * (og.price_range_ppm as u128) / 1_000_000;
        let range_ticks: u64 = if wide > u64::MAX as u128 {
            u64::MAX
        } else {
            wide as u64
        };
        let offset = self.rng.next_range(0, range_ticks);
        let toward = self.rng.next_below(2) == 0;
        let price: u64 = taker_price(side, mid, offset, toward);
        if price > 0 {
            let id = self.take_order_id();
            Some(Order { id, side, qty, order_type: OrderType::Limit { price }, ts: self.current_time })
        } else {
            None
        }
    }

    /// Submit one generated order: advance the clock by a latency draw, flip
    /// the drop coin, place if kept, and settle the metrics; recoverable
    /// rejections are swallowed, non-recoverable ones surface.
    fn submit_order(&mut self, order: Order) -> (r: Result<Vec<Trade>, EngineError>)
        requires
            old(self).wf(),
        ensures
            final(self).wf(),
            ({
                let (c1, out) = spec_submit::<Q>(old(self).state_core(), old(self).net, order);
                &&& final(self).state_core() == c1
                &&& *final(self) == (Simulator {
                    engine: final(self).engine,
                    rng: final(self).rng,
                    metrics: final(self).metrics,
                    current_time: final(self).current_time,
                    ..*old(self)
                })
                &&& (match (r, out) {
                    (Ok(v), Ok(ts)) => v@ == ts,
                    (Err(e), Err(e2)) => e == e2,
                    _ => false,
                })
            }),
    {
        let latency = self.net.simulate_latency(&mut self.rng);
        self.current_time = if self.current_time > u128::MAX - latency as u128 {
            u128::MAX
        } else {
            self.current_time + latency as u128
        };
        let dropped = self.net.should_drop(&mut self.rng);
        if dropped {
            return Ok(Vec::new());
        }
        let placed = self.engine.place(order);
        match placed {
            Ok(trades) => {
                self.settle_trades(&trades, order.side);
                Ok(trades)
            },
            Err(e) => {
                if e.is_recoverable() {
                    Ok(Vec::new())
                } else {
                    Err(e)
                }
            },
        }
    }

    /// Process one historical market event: placements and trades (as
    /// synthetic market orders) go to the engine with rejections swallowed;
    /// cancellations are applied with unknown ids ignored; observational
    /// events do not touch the book.
    pub fn process_market_event(&mut self, event: &MarketEvent) -> (r: EngineResult<Vec<Trade>>)
        requires
            old(self).wf(),
        ensures
            final(self).wf(),
            ({
                let (c1, id1, trades) = spec_process_event::<Q>(
                    old(self).state_core(),
                    old(self).next_order_id,
                    kernel_of(*event),
                );
                &&& final(self).state_core() == c1
                &&& final(self).next_order_id == id1
                &&& *final(self) == (Simulator {
                    engine: final(self).engine,
                    rng: final(self).rng,
                    metrics: final(self).metrics,
                    current_time: final(self).current_time,
                    next_order_id: final(self).next_order_id,
                    ..*old(self)
                })
                &&& (r matches Ok(v) && v@ == trades)
            }),
    {
        match event {
            MarketEvent::OrderPlacement(order) => {
                let o = *order;
                match self.engine.place(o) {
                    Ok(trades) => {
                        self.settle_trades(&trades, o.side);
                        Ok(trades)
                    },
                    Err(_) => Ok(Vec::new()),
                }
            },
            MarketEvent::OrderCancellation { order_id, .. } => {
                let oid = *order_id;
                let now = self.current_time;
                let _ = self.engine.cancel(oid, now);
                Ok(Vec::new())
            },
            MarketEvent::Trade { qty, side, .. } => {
                let q = *qty;
                let sd = *side;
                let id = self.take_order_id();
                let now = self.current_time;
                let order = Order { id, side: sd, qty: q, order_type: OrderType::Market, ts: now };
                match self.engine.place(order) {
                    Ok(trades) => {
                        self.settle_trades(&trades, sd);
                        Ok(trades)
                    },
                    Err(_) => Ok(Vec::new()),
                }
            },
            _ => Ok(Vec::new()),
        }
    }
}

/// The limit price of a taker order: mid shifted by the offset, toward or
/// away from the market by side, saturating at the `u64` range.
pub open spec fn spec_taker_price(side: Side, mid: u64, offset: u64, toward: bool) -> u64 {
    match side {
        Side::Buy => if toward {
            if mid >= offset {
                (mid - offset) as u64
            } else {
                0u64
            }
        } else {
            if mid + offset > u64::MAX {
                u64::MAX
            } else {
                (mid + offset) as u64
            }
        },
        Side::Sell => if toward {
            if mid + offset > u64::MAX {
                u64::MAX
            } else {
                (mid + offset) as u64
            }
        } else {
            if mid >= offset {
                (mid - offset) as u64
            } else {
                0u64
            }
        },
    }
}

/// Compute a taker limit price (executable form).
fn taker_price(side: Side, mid: u64, offset: u64, toward: bool) -> (r: u64)
    ensures
        r == spec_taker_price(side, mid, offset, toward),
{
    match side {
        Side::Buy => {
            if toward {
                if mid >= offset {
                    mid - offset
                } else {
                    0
                }
            } else {
                if mid > u64::MAX - offset {
                    u64::MAX
                } else {
                    mid + offset
                }
            }
        },
        Side::Sell => {
            if toward {
                if mid > u64::MAX - offset {
                    u64::MAX
                } else {
                    mid + offset
                }
            } else {
                if mid >= offset {
                    mid - offset
                } else {
                    0
                }
            }
        },
    }
}

impl<Q: QueueDiscipline> Simulator<Q> {
    /// Submit an optional generated order (no order changes nothing).
    fn submit_opt(&mut self, o: Option<Order>) -> (r: Result<Vec<Trade>, EngineError>)
        requires
            old(self).wf(),
        ensures
            final(self).wf(),
            ({
                let (c1, out) = spec_submit_opt::<Q>(old(self).state_core(), old(self).net, o);
                &&& final(self).state_core() == c1
                &&& *final(self) == (Simulator {
                    engine: final(self).engine,
                    rng: final(self).rng,
                    metrics: final(self).metrics,
                    current_time: final(self).current_time,
                    ..*old(self)
                })
                &&& (match (r, out) {
                    (Ok(v), Ok(ts)) => v@ == ts,
                    (Err(e), Err(e2)) => e == e2 && !e.spec_is_recoverable(),
                    _ => false,
                })
            }),
    {
        match o {
            Option::Some(order) => {
                let r = self.submit_order(order);
                match &r {
                    Ok(_) => {},
                    Err(e) => {
                        proof {
                            assert(!e.spec_is_recoverable());
                        }
                    },
                }
                r
            },
            Option::None => Ok(Vec::new()),
        }
    }

    /// Run one simulation step: advance the logical clock by a drawn
    /// inter-order interval, dispatch by mode (synthetic maker/taker flow,
    /// historical replay, or both), and record the spread when trades
    /// occurred. Recoverable errors are swallowed so one bad order does not
    /// kill a simulation; a non-recoverable engine error aborts the step.
    /// The step lands exactly where the `spec_step` transition puts it, so
    /// runs from equal states are identical.
    #[verifier::rlimit(100)]
    pub fn step(&mut self) -> (r: EngineResult<Vec<Trade>>)
        requires
            old(self).wf(),
        ensures
            final(self).wf(),
            ({
                let sr = spec_step::<Q>(old(self).sim_state());
                &&& final(self).sim_state() == sr.state
                &&& (match (r, sr.outcome) {
                    (Ok(v), Ok(ts)) => v@ == ts,
                    (Err(e), Err(e2)) => e == e2,
                    _ => false,
                })
            }),
            r matches Err(e) ==> !e.spec_is_recoverable(),
    {
        let ghost st = old(self).sim_state();
        let og = self.order_gen_config;
        let lo = og.mean_order_interval_ns / 2;
        let hi = if og.mean_order_interval_ns > u64::MAX / 2 {
            u64::MAX
        } else {
            og.mean_order_interval_ns * 2
        };
        let advance = self.rng.next_range(lo, hi);
        self.current_time = if self.current_time > u128::MAX - advance as u128 {
            u128::MAX
        } else {
            self.current_time + advance as u128
        };
        let ghost s0 = SimState {
            core: SimCore {
                rng: spec_mix_state(st.core.rng),
                now: spec_clock_add(
                    st.core.now,
                    spec_range(
                        spec_mix_output(spec_mix_state(st.core.rng)),
                        st.og.mean_order_interval_ns / 2,
                        if st.og.mean_order_interval_ns > u64::MAX / 2 {
                            u64::MAX
                        } else {
                            (st.og.mean_order_interval_ns * 2) as u64
                        },
                    ),
                ),
                ..st.core
            },
            ..st
        };
        proof {
            assert(self.sim_state() =~= s0);
        }
        match self.mode {
            SimulationMode::Synthetic => {
                let pair = self.mm_quotes_pair();
                let ghost g1 = ({
                    let (bid_o, ask_o, r2, id1) = spec_mm_quotes(
                        s0.core.book,
                        s0.core.rng,
                        s0.core.metrics.inventory,
                        s0.mm,
                        s0.next_id,
                        s0.core.now,
                    );
                    SimState { core: SimCore { rng: r2, ..s0.core }, next_id: id1, ..s0 }
                });
                proof {
                    assert(self.sim_state() =~= g1);
                }
                let rb = self.submit_opt(pair.0);
                let mut all = match rb {
                    Ok(t) => t,
                    Err(e) => {
                        proof {
                            reveal(spec_step);
                            assert(self.sim_state() =~= spec_step::<Q>(st).state);
                        }
                        return Err(e);
                    },
                };
                let ra = self.submit_opt(pair.1);
                let mut t2 = match ra {
                    Ok(t) => t,
                    Err(e) => {
                        proof {
                            reveal(spec_step);
                            assert(self.sim_state() =~= spec_step::<Q>(st).state);
                        }
                        return Err(e);
                    },
                };
                let tk = self.generate_market_taker_order();
                let rt = self.submit_opt(tk);
                let mut t3 = match rt {
                    Ok(t) => t,
                    Err(e) => {
                        proof {
                            reveal(spec_step);
                            assert(self.sim_state() =~= spec_step::<Q>(st).state);
                        }
                        return Err(e);
                    },
                };
                let ghost ts1 = all@;
                let ghost ts2 = t2@;
                let ghost ts3 = t3@;
                all.append(&mut t2);
                all.append(&mut t3);
                proof {
                    assert(all@ =~= ts1 + ts2 + ts3);
                }
                if all.len() > 0 {
                    self.record_spread();
                }
                proof {
                    reveal(spec_step);
                    assert(self.sim_state() =~= spec_step::<Q>(st).state);
                }
                Ok(all)
            },
            SimulationMode::Historical => {
                let pulled = match &mut self.data_source {
                    Option::Some(src) => Some(src.next_event()),
                    Option::None => None,
                };
                match pulled {
                    Option::None => {
                        proof {
                            reveal(spec_step);
                            assert(self.sim_state() =~= spec_step::<Q>(st).state);
                        }
                        Ok(Vec::new())
                    },
                    Option::Some(Ok(Option::None)) => {
                        proof {
                            reveal(spec_step);
                            assert(self.sim_state() =~= spec_step::<Q>(st).state);
                        }
                        Ok(Vec::new())
                    },
                    Option::Some(Ok(Option::Some(event))) => {
                        self.current_time = event.timestamp();
                        proof {
                            assert(kernel_ts(kernel_of(event)) == event.spec_timestamp());
                        }
                        let processed = self.process_market_event(&event);
                        let trades = match processed {
                            Ok(t) => t,
                            Err(e) => {
                                // process_market_event swallows engine errors
                                proof {
                                    assert(false);
                                }
                                return Err(e);
                            },
                        };
                        if trades.len() > 0 {
                            self.record_spread();
                        }
                        proof {
                            reveal(spec_step);
                            assert(self.sim_state() =~= spec_step::<Q>(st).state);
                        }
                        Ok(trades)
                    },
                    Option::Some(Err(_)) => {
                        // a bad record: fall back to synthetic flow
                        self.mode = SimulationMode::Synthetic;
                        proof {
                            reveal(spec_step);
                            assert(self.sim_state() =~= spec_step::<Q>(st).state);
                        }
                        Ok(Vec::new())
                    },
                }
            },
            SimulationMode::Hybrid => {
                let pulled = match &mut self.data_source {
                    Option::Some(src) => Some(src.next_event()),
                    Option::None => None,
                };
                let mut all = match pulled {
                    Option::Some(Ok(Option::Some(event))) => {
                        self.current_time = event.timestamp();
                        proof {
                            assert(kernel_ts(kernel_of(event)) == event.spec_timestamp());
                        }
                        let processed = self.process_market_event(&event);
                        match processed {
                            Ok(t) => t,
                            Err(e) => {
                                proof {
                                    assert(false);
                                }
                                return Err(e);
                            },
                        }
                    },
                    _ => Vec::new(),
                };
                let ghost htrades = all@;
                let ghost s1 = ({
                    let pulled_spec: (SimState, Seq<Trade>) = match s0.source {
                        Option::None => (s0, Seq::<Trade>::empty()),
                        Option::Some(src) => {
                            let (src1, out) = spec_source_next(src);
                            let sa = SimState { source: Some(src1), ..s0 };
                            match out {
                                SourceOutcome::Event(k) => {
                                    let c = SimCore { now: kernel_ts(k), ..sa.core };
                                    let (c1, id1, trades) = spec_process_event::<Q>(
                                        c,
                                        sa.next_id,
                                        k,
                                    );
                                    (SimState { core: c1, next_id: id1, ..sa }, trades)
                                },
                                _ => (sa, Seq::<Trade>::empty()),
                            }
                        },
                    };
                    pulled_spec.0
                });
                proof {
                    assert(self.sim_state() =~= s1);
                }
                let coin = self.rng.chance_ppm(500_000);
                if coin {
                    let pair = self.mm_quotes_pair();
                    let rb = self.submit_opt(pair.0);
                    let mut tb = match rb {
                        Ok(t) => t,
                        Err(e) => {
                            proof {
                                reveal(spec_step);
                                assert(self.sim_state() =~= spec_step::<Q>(st).state);
                            }
                            return Err(e);
                        },
                    };
                    let ra = self.submit_opt(pair.1);
                    let mut ta = match ra {
                        Ok(t) => t,
                        Err(e) => {
                            proof {
                                reveal(spec_step);
                                assert(self.sim_state() =~= spec_step::<Q>(st).state);
                            }
                            return Err(e);
                        },
                    };
                    let ghost tbs = tb@;
                    let ghost tas = ta@;
                    all.append(&mut tb);
                    all.append(&mut ta);
                    proof {
                        assert(all@ =~= htrades + tbs + tas);
                    }
                }
                if all.len() > 0 {
                    self.record_spread();
                }
                proof {
                    reveal(spec_step);
                    assert(self.sim_state() =~= spec_step::<Q>(st).state);
                }
                Ok(all)
            },
        }
    }

    /// Run the given number of steps, concatenating the trades; the run
    /// lands exactly where the iterated step transition puts it.
    #[verifier::rlimit(100)]
    pub fn run_steps(&mut self, steps: usize) -> (r: EngineResult<Vec<Trade>>)
        requires
            old(self).wf(),
        ensures
            final(self).wf(),
            ({
                let sr = spec_run_steps::<Q>(old(self).sim_state(), steps as nat);
                &&& final(self).sim_state() == sr.state
                &&& (match (r, sr.outcome) {
                    (Ok(v), Ok(ts)) => v@ == ts,
                    (Err(e), Err(e2)) => e == e2,
                    _ => false,
                })
            }),
            r matches Err(e) ==> !e.spec_is_recoverable(),
    {
        let ghost st = old(self).sim_state();
        let mut all_trades: Vec<Trade> = Vec::new();
        let mut i: usize = 0;
        while i < steps
            invariant
                st == old(self).sim_state(),
                self.wf(),
                0 <= i <= steps,
                ({
                    let total = spec_run_steps::<Q>(st, steps as nat);
                    let rest = spec_run_steps::<Q>(self.sim_state(), (steps - i) as nat);
                    &&& total.state == rest.state
                    &&& (match (total.outcome, rest.outcome) {
                        (Ok(t), Ok(t2)) => t == all_trades@ + t2,
                        (Err(e), Err(e2)) => e == e2,
                        _ => false,
                    })
                }),
            decreases steps - i,
        {
            let ghost cur = self.sim_state();
            let ghost pre_trades = all_trades@;
            let stepped = self.step();
            match stepped {
                Ok(mut trades) => {
                    let ghost ts = trades@;
                    all_trades.append(&mut trades);
                    proof {
                        let n = (steps - i) as nat;
                        let sr = spec_step::<Q>(cur);
                        assert(spec_run_steps::<Q>(cur, n).state == spec_run_steps::<Q>(
                            sr.state,
                            (n - 1) as nat,
                        ).state);
                        let rest2 = spec_run_steps::<Q>(self.sim_state(), (steps - (i + 1)) as nat);
                        match rest2.outcome {
                            Ok(t2) => {
                                assert(pre_trades + (ts + t2) =~= (pre_trades + ts) + t2);
                            },
                            Err(_) => {},
                        }
                    }
                },
                Err(e) => {
                    proof {
                        let n = (steps - i) as nat;
                        let sr2 = spec_step::<Q>(cur);
                        assert(n >= 1);
                        assert(spec_run_steps::<Q>(cur, n) == sr2);
                        assert(self.sim_state() == sr2.state);
                        let total = spec_run_steps::<Q>(st, steps as nat);
                        assert(total.state == sr2.state);
                        assert(total.outcome == sr2.outcome);
                        assert(sr2.outcome == Err::<Seq<Trade>, EngineError>(e));
                    }
                    return Err(e);
                },
            }
            i = i + 1;
        }
        proof {
            let done = spec_run_steps::<Q>(self.sim_state(), 0);
            assert(all_trades@ + Seq::<Trade>::empty() =~= all_trades@);
        }
        Ok(all_trades)
    }

    /// A depth snapshot at the simulator's logical time, carrying its
    /// metrics and spread history; a pure value that later mutations of the
    /// book cannot change.
    pub fn snapshot(&self) -> (r: DepthSnapshot)
        requires
            self.wf(),
        ensures
            r.ts == self.current_time,
            r.metrics == self.metrics,
            r.recent_spreads@ == self.recent_spreads@,
            r.best_bid == best_price(self.engine.book_view().bids),
            r.best_ask == best_price(self.engine.book_view().asks),
            r.spread == spec_spread(
                best_price(self.engine.book_view().bids),
                best_price(self.engine.book_view().asks),
            ),
            r.mid == spec_mid(
                best_price(self.engine.book_view().bids),
                best_price(self.engine.book_view().asks),
            ),
            r.bids@.len() == (if DEFAULT_DEPTH_LEVELS <= self.engine.book_view().bids.len() {
                DEFAULT_DEPTH_LEVELS as int
            } else {
                self.engine.book_view().bids.len() as int
            }),
            r.asks@.len() == (if DEFAULT_DEPTH_LEVELS <= self.engine.book_view().asks.len() {
                DEFAULT_DEPTH_LEVELS as int
            } else {
                self.engine.book_view().asks.len() as int
            }),
            forall|i: int|
                0 <= i < r.bids@.len() ==> r.bids@[i] == spec_level_point(
                    self.engine.book_view().bids,
                    i,
                    self.current_time,
                ),
            forall|i: int|
                0 <= i < r.asks@.len() ==> r.asks@[i] == spec_level_point(
                    self.engine.book_view().asks,
                    i,
                    self.current_time,
                ),
    {
        let mut snap = self.engine.snapshot(DEFAULT_DEPTH_LEVELS, self.current_time);
        snap.metrics = self.metrics;
        snap.recent_spreads = copy_points(&self.recent_spreads);
        snap
    }

    /// Place an order directly (manual intervention): trades settle the
    /// metrics from the order's side against the new mid, and the spread is
    /// recorded when trades occurred; a refusal leaves the simulator
    /// untouched.
    pub fn place_order(&mut self, order: Order) -> (r: EngineResult<Vec<Trade>>)
        requires
            old(self).wf(),
        ensures
            final(self).wf(),
            ({
                let (nv, outcome) = place_spec::<Q>(old(self).engine.book_view(), order);
                &&& final(self).engine.book_view() == nv
                &&& (match outcome {
                    PlaceOutcome::Refused(e) => ({
                        &&& r == Err::<Vec<Trade>, EngineError>(e)
                        &&& *final(self) == (Simulator { engine: final(self).engine, ..*old(self) })
                    }),
                    PlaceOutcome::Accepted(trades) => {
                        &&& r matches Ok(v) && v@ == trades
                        &&& final(self).metrics == spec_settle(
                            old(self).metrics,
                            trades,
                            order.side,
                            spec_mid(best_price(nv.bids), best_price(nv.asks)),
                        )
                        &&& final(self).recent_spreads@ == spec_record_spread(
                            old(self).recent_spreads@,
                            nv,
                            old(self).current_time,
                            trades.len() > 0,
                        )
                        &&& *final(self) == (Simulator {
                            engine: final(self).engine,
                            metrics: final(self).metrics,
                            recent_spreads: final(self).recent_spreads,
                            ..*old(self)
                        })
                    },
                })
            }),
    {
        let placed = self.engine.place(order);
        match placed {
            Ok(trades) => {
                self.settle_trades(&trades, order.side);
                if trades.len() > 0 {
                    self.record_spread();
                }
                Ok(trades)
            },
            Err(e) => Err(e),
        }
    }

    /// Zero the metrics and clear the spread history.
    pub fn reset_metrics(&mut self)
        ensures
            final(self).metrics == (Metrics { inventory: 0i64, cash: 0i64, pnl: 0i64 }),
            final(self).recent_spreads@.len() == 0,
            *final(self) == (Simulator {
                metrics: final(self).metrics,
                recent_spreads: final(self).recent_spreads,
                ..*old(self)
            }),
    {
        self.metrics = Metrics::new();
        self.recent_spreads.clear();
    }

    /// The current logical time.
    pub fn current_time(&self) -> (r: u128)
        ensures
            r == self.current_time,
    {
        self.current_time
    }

    /// The current metrics.
    pub fn get_metrics(&self) -> (r: &Metrics)
        ensures
            *r == self.metrics,
    {
        &self.metrics
    }

    /// Reset the simulation to its seeded initial state: an empty book, the
    /// generator reseeded, zero metrics, a cleared spread history, the clock
    /// and the order ids restarted, and any data source rewound — so a rerun
    /// reproduces the first run.
    pub fn reset(&mut self)
        ensures
            final(self).wf(),
            final(self).seed == old(self).seed,
            final(self).rng.state == old(self).seed,
            final(self).engine.book_view().bids == Seq::<LevelView>::empty(),
            final(self).engine.book_view().asks == Seq::<LevelView>::empty(),
            final(self).engine.book_view().index == Map::<OrderId, (Side, Price)>::empty(),
            final(self).metrics == (Metrics { inventory: 0i64, cash: 0i64, pnl: 0i64 }),
            final(self).recent_spreads@ == Seq::<(u128, i64)>::empty(),
            final(self).current_time == 0u128,
            final(self).next_order_id == 1u64,
            final(self).mode == old(self).mode,
            final(self).net == old(self).net,
            final(self).market_maker_config == old(self).market_maker_config,
            final(self).order_gen_config == old(self).order_gen_config,
            final(self).data_source == (match old(self).data_source {
                Option::Some(src) => Some(
                    CsvDataSource {
                        pos: 0usize,
                        finished: false,
                        last_timestamp: None,
                        current_position: None,
                        ..src
                    },
                ),
                Option::None => None::<CsvDataSource>,
            }),
    {
        self.engine = OrderBook::new();
        self.rng = Rng64::seed_from_u64(self.seed);
        self.metrics = Metrics::new();
        self.recent_spreads.clear();
        self.current_time = 0;
        self.next_order_id = 1;
        match &mut self.data_source {
            Option::Some(src) => {
                let _ = src.reset();
            },
            Option::None => {},
        }
        proof {
            assert(self.recent_spreads@ =~= Seq::<(u128, i64)>::empty());
        }
    }

    /// Set the logical time (useful for testing).
    pub fn set_time(&mut self, time: u128)
        ensures
            *final(self) == (Simulator { current_time: time, ..*old(self) }),
    {
        self.current_time = time;
    }

    /// Whether more data remains (historical mode) or flow is synthetic.
    pub fn has_more_data(&self) -> (r: bool)
        ensures
            r == (match self.data_source {
                Option::Some(src) => !src.finished,
                Option::None => true,
            }),
    {
        match &self.data_source {
            Option::Some(src) => !src.is_finished(),
            Option::None => true,
        }
    }
}

/// Copy a spread-history buffer by value.
fn copy_points(v: &Vec<(u128, i64)>) -> (r: Vec<(u128, i64)>)
    ensures
        r@ == v@,
{
    let mut r: Vec<(u128, i64)> = Vec::new();
    let mut i: usize = 0;
    while i < v.len()
        invariant
            0 <= i <= v@.len(),
            r@ == v@.subrange(0, i as int),
        decreases v@.len() - i,
    {
        r.push(v[i]);
        proof {
            assert(r@ =~= v@.subrange(0, i as int + 1));
        }
        i = i + 1;
    }
    proof {
        assert(v@.subrange(0, v@.len() as int) =~= v@);
    }
    r
}

/// What the fixed-interval driver does after one step.
#[derive(Debug, Clone, Copy, PartialEq, Eq, Structural)]
pub enum DriverAction {
    /// Publish the snapshot.
    Publish,
    /// Publish, warning that the step ran over 80% of the interval.
    PublishSlow,
    /// Skip publishing; the step failed.
    Skip,
    /// Skip publishing and invoke the recovery hook: too many straight
    /// failures.
    Recover,
}

/// The number of consecutive step failures that triggers recovery.
pub const MAX_CONSECUTIVE_FAILURES: u32 = 10;

/// The driver's bookkeeping after one step: a success resets the
/// consecutive-failure count and publishes, warning when the step took more
/// than 80% of the interval; a failure increments the count, and the tenth
/// straight failure triggers recovery and resets the count.
pub fn driver_after_step(consecutive_failures: u32, ok: bool, step_ns: u128, interval_ns: u128) -> (r: (
    u32,
    DriverAction,
))
    ensures
        ok ==> r.0 == 0,
        ok ==> r.1 == (if step_ns > interval_ns / 5 * 4 {
            DriverAction::PublishSlow
        } else {
            DriverAction::Publish
        }),
        (!ok && consecutive_failures < MAX_CONSECUTIVE_FAILURES - 1) ==> r == ((
            consecutive_failures + 1
        ) as u32, DriverAction::Skip),
        (!ok && consecutive_failures >= MAX_CONSECUTIVE_FAILURES - 1) ==> r == (
            0u32,
            DriverAction::Recover,
        ),
{
    if ok {
        let threshold = interval_ns / 5 * 4;
        if step_ns > threshold {
            (0, DriverAction::PublishSlow)
        } else {
            (0, DriverAction::Publish)
        }
    } else {
        if consecutive_failures >= MAX_CONSECUTIVE_FAILURES - 1 {
            (0, DriverAction::Recover)
        } else {
            (consecutive_failures + 1, DriverAction::Skip)
        }
    }
}

/// The generated market-maker orders as a sequence (bid first).
pub open spec fn mm_order_seq(bid_o: Option<Order>, ask_o: Option<Order>) -> Seq<Order> {
    let b: Seq<Order> = match bid_o {
        Some(o) => seq![o],
        None => Seq::<Order>::empty(),
    };
    let a: Seq<Order> = match ask_o {
        Some(o) => seq![o],
        None => Seq::<Order>::empty(),
    };
    b + a
}

} // verus!
