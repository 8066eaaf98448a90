//! The order book engine: two sorted price ladders (bids descending, asks
//! ascending), an order-id index for O(1) cancel lookup, the matching loop,
//! and depth snapshots.
//!
//! Every operation is specified against a mathematical view of the book
//! (`BookView`): the two ladders as sequences of `(price, orders)` pairs and
//! the index as a map from order id to `(side, price)`. `place` and `cancel`
//! are pinned to the spec transitions `place_spec` and `cancel_spec`, which
//! makes the engine's behaviour a function of its state — the foundation of
//! the simulator's determinism guarantee.

use vstd::prelude::*;

use crate::queue::{
    all_qty_positive, contains_id, distinct_ids, qty_of_id, qty_sum, remove_id, trade_qty_sum,
    trades_contain_maker, update_qty_id, QueueDiscipline,
};
use crate::types::{sat_i64, Metrics, Order, OrderId, OrderType, Price, Qty, Side, Trade};
use crate::error::EngineError;
use crate::queue_fifo::{lemma_qty_sum_remove, lemma_remove_id_at, lemma_update_qty_id_at};
use vstd::hash_map::HashMapWithView;

verus! {

broadcast use vstd::std_specs::hash::group_hash_axioms;

/// One price level of a ladder, at the view level: the price and the resting
/// orders in queue priority order.
pub type LevelView = (Price, Seq<Order>);

/// A ladder at the view level: levels ordered best-first.
pub type LadderView = Seq<LevelView>;

/// The mathematical view of an order book.
#[verifier::ext_equal]
pub struct BookView {
    /// Bid levels, strictly descending by price.
    pub bids: LadderView,
    /// Ask levels, strictly ascending by price.
    pub asks: LadderView,
    /// Order id to (side, price) of the level holding the order.
    pub index: Map<OrderId, (Side, Price)>,
}

impl BookView {
    /// The ladder of the given side.
    pub open spec fn ladder(self, side: Side) -> LadderView {
        match side {
            Side::Buy => self.bids,
            Side::Sell => self.asks,
        }
    }

    /// The view with the given side's ladder replaced.
    pub open spec fn with_ladder(self, side: Side, l: LadderView) -> BookView {
        match side {
            Side::Buy => BookView { bids: l, ..self },
            Side::Sell => BookView { asks: l, ..self },
        }
    }
}

/// Whether `a` comes strictly before `b` in the given side's ladder order
/// (descending for bids, ascending for asks).
pub open spec fn price_before(side: Side, a: Price, b: Price) -> bool {
    match side {
        Side::Buy => a > b,
        Side::Sell => a < b,
    }
}

/// The ladder's levels are strictly ordered best-first and each level is a
/// nonempty queue of positive-quantity limit orders of the ladder's side at
/// the level's price.
pub open spec fn wf_ladder(l: LadderView, side: Side) -> bool {
    &&& (forall|i: int, j: int|
        0 <= i < j < l.len() ==> price_before(side, #[trigger] l[i].0, #[trigger] l[j].0))
    &&& (forall|i: int|
        0 <= i < l.len() ==> {
            &&& (#[trigger] l[i]).1.len() > 0
            &&& all_qty_positive(l[i].1)
            &&& l[i].0 > 0
            &&& (forall|k: int|
                0 <= k < l[i].1.len() ==> {
                    &&& (#[trigger] l[i].1[k]).side == side
                    &&& l[i].1[k].order_type == (OrderType::Limit { price: l[i].0 })
                })
        })
}

/// Whether some level of the ladder holds an order with the given id.
pub open spec fn ladder_contains_id(l: LadderView, id: OrderId) -> bool {
    exists|i: int| 0 <= i < l.len() && contains_id(#[trigger] l[i].1, id)
}

/// Total resting quantity over a ladder.
pub open spec fn ladder_qty_sum(l: LadderView) -> int
    decreases l.len(),
{
    if l.len() == 0 {
        0
    } else {
        qty_sum(l[0].1) + ladder_qty_sum(l.drop_first())
    }
}

/// The index is exactly the set of resting orders: every indexed id is held
/// by the level its entry names, and every resting order is indexed with its
/// level's side and price.
pub open spec fn wf_index(v: BookView) -> bool {
    &&& (forall|id: OrderId| #[trigger]
        v.index.dom().contains(id) ==> exists|i: int|
            {
                &&& 0 <= i < v.ladder(v.index[id].0).len()
                &&& (#[trigger] v.ladder(v.index[id].0)[i]).0 == v.index[id].1
                &&& contains_id(v.ladder(v.index[id].0)[i].1, id)
            })
    &&& (forall|side: Side, i: int, k: int|
        (0 <= i < v.ladder(side).len() && 0 <= k < v.ladder(side)[i].1.len()) ==> {
            &&& v.index.dom().contains((#[trigger] v.ladder(side)[i].1[k]).id)
            &&& v.index[v.ladder(side)[i].1[k].id] == (side, v.ladder(side)[i].0)
        })
    &&& (forall|side: Side, i: int| 0 <= i < v.ladder(side).len() ==> distinct_ids(
        #[trigger] v.ladder(side)[i].1,
    ))
}

/// Best (front) price of a ladder, if any.
pub open spec fn best_price(l: LadderView) -> Option<Price> {
    if l.len() == 0 {
        None
    } else {
        Some(l[0].0)
    }
}

/// The book is not crossed: when both tops exist, the best bid is strictly
/// below the best ask.
pub open spec fn uncrossed(v: BookView) -> bool {
    v.bids.len() > 0 && v.asks.len() > 0 ==> v.bids[0].0 < v.asks[0].0
}

/// Well-formedness of a book view.
pub open spec fn wf_book(v: BookView) -> bool {
    &&& wf_ladder(v.bids, Side::Buy)
    &&& wf_ladder(v.asks, Side::Sell)
    &&& wf_index(v)
    &&& uncrossed(v)
}

/// Whether a taker with the given limit (None for market) crosses a level at
/// `level_price` on the opposite side.
pub open spec fn crosses(taker_side: Side, limit: Option<Price>, level_price: Price) -> bool {
    match limit {
        Option::None => true,
        Option::Some(p) => match taker_side {
            Side::Buy => level_price <= p,
            Side::Sell => level_price >= p,
        },
    }
}

/// The engine's sweep over the opposite ladder: consume levels best-first
/// through the discipline's matching transition while the taker still has
/// quantity and the price constraint crosses; emptied levels are removed.
pub open spec fn sweep<Q: QueueDiscipline>(
    l: LadderView,
    taker_side: Side,
    limit: Option<Price>,
    taker_id: OrderId,
    taker_qty: Qty,
    ts: u128,
) -> (LadderView, Qty, Seq<Trade>)
    decreases l.len(),
{
    if taker_qty == 0 || l.len() == 0 || !crosses(taker_side, limit, l[0].0) {
        (l, taker_qty, Seq::<Trade>::empty())
    } else {
        let (price, q) = l[0];
        let (nq, rem, trades) = Q::match_spec(q, taker_id, taker_qty, price, ts);
        if rem == 0 {
            let nl = if nq.len() == 0 {
                l.drop_first()
            } else {
                seq![(price, nq)] + l.drop_first()
            };
            (nl, 0, trades)
        } else {
            let rest = sweep::<Q>(l.drop_first(), taker_side, limit, taker_id, rem, ts);
            let nl = if nq.len() == 0 {
                rest.0
            } else {
                seq![(price, nq)] + rest.0
            };
            (nl, rest.1, trades + rest.2)
        }
    }
}

/// The laws of the sweep, proved from the discipline's matching laws by
/// induction over the ladder: trades carry the taker's id and timestamp and
/// prices that cross the limit against resting makers; quantity is conserved;
/// the result ladder is still well formed with its front no better than
/// before; and unfilled taker quantity remains only when no crossing level is
/// left.
pub proof fn lemma_sweep_laws<Q: QueueDiscipline>(
    l: LadderView,
    taker_side: Side,
    limit: Option<Price>,
    taker_id: OrderId,
    taker_qty: Qty,
    ts: u128,
)
    requires
        wf_ladder(l, taker_side.spec_opposite()),
        ladder_distinct(l),
    ensures
        ({
            let opp = taker_side.spec_opposite();
            let (nl, rem, trades) = sweep::<Q>(l, taker_side, limit, taker_id, taker_qty, ts);
            &&& rem <= taker_qty
            &&& wf_ladder(nl, opp)
            &&& ladder_distinct(nl)
            &&& trade_qty_sum(trades) == taker_qty - rem
            &&& (forall|i: int|
                0 <= i < trades.len() ==> {
                    &&& (#[trigger] trades[i]).taker_id == taker_id
                    &&& trades[i].ts == ts
                    &&& crosses(taker_side, limit, trades[i].price)
                    &&& ladder_contains_id(l, trades[i].maker_id)
                })
            &&& (forall|id: OrderId| #[trigger]
                ladder_contains_id(nl, id) ==> ladder_contains_id(l, id))
            &&& (nl.len() > 0 ==> l.len() > 0 && !price_before(opp, nl[0].0, l[0].0))
            &&& (rem > 0 ==> nl.len() == 0 || !crosses(taker_side, limit, nl[0].0))
            &&& (forall|j: int|
                0 <= j < nl.len() ==> exists|i: int|
                    {
                        &&& 0 <= i < l.len()
                        &&& l[i].0 == (#[trigger] nl[j]).0
                        &&& (forall|id: OrderId| #[trigger]
                            contains_id(nl[j].1, id) ==> contains_id(l[i].1, id))
                    })
        }),
    decreases l.len(),
{
    let opp = taker_side.spec_opposite();
    let (nl, rem, trades) = sweep::<Q>(l, taker_side, limit, taker_id, taker_qty, ts);
    if taker_qty == 0 || l.len() == 0 || !crosses(taker_side, limit, l[0].0) {
        assert forall|j: int| 0 <= j < nl.len() implies exists|i: int|
            {
                &&& 0 <= i < l.len()
                &&& l[i].0 == (#[trigger] nl[j]).0
                &&& (forall|id: OrderId| #[trigger]
                    contains_id(nl[j].1, id) ==> contains_id(l[i].1, id))
            } by {
            assert(0 <= j < l.len() && l[j].0 == nl[j].0 && (forall|id: OrderId| #[trigger]
                contains_id(nl[j].1, id) ==> contains_id(l[j].1, id)));
        }
    } else {
        let price = l[0].0;
        let q = l[0].1;
        let tail = l.drop_first();
        let (nq, rem0, trades0) = Q::match_spec(q, taker_id, taker_qty, price, ts);
        Q::match_spec_laws(q, taker_id, taker_qty, price, ts);
        assert(wf_ladder(tail, opp) && ladder_distinct(tail)) by {
            lemma_ladder_drop_first(l, opp);
        }
        // survivors of the front level still conform to (opp, price)
        assert forall|k: int| 0 <= k < nq.len() implies {
            &&& (#[trigger] nq[k]).side == opp
            &&& nq[k].order_type == (OrderType::Limit { price })
            &&& nq[k].qty > 0
        } by {
            let j = choose|j: int|
                {
                    &&& 0 <= j < q.len()
                    &&& (#[trigger] nq[k]).id == q[j].id
                    &&& nq[k].side == q[j].side
                    &&& nq[k].order_type == q[j].order_type
                    &&& nq[k].ts == q[j].ts
                    &&& nq[k].qty <= q[j].qty
                };
            assert(q[j].side == opp && q[j].order_type == (OrderType::Limit { price }));
        }
        // ids of nq come from q, so they stay distinct from the tail's
        assert forall|id: OrderId| #[trigger] contains_id(nq, id) implies contains_id(q, id) by {}
        if rem0 == 0 {
            if nq.len() == 0 {
                assert(nl == tail);
                assert forall|id: OrderId| #[trigger] ladder_contains_id(nl, id)
                    implies ladder_contains_id(l, id) by {
                    lemma_ladder_contains_shift(l, id);
                }
                assert forall|j: int| 0 <= j < nl.len() implies exists|i: int|
                    {
                        &&& 0 <= i < l.len()
                        &&& l[i].0 == (#[trigger] nl[j]).0
                        &&& (forall|id: OrderId| #[trigger]
                            contains_id(nl[j].1, id) ==> contains_id(l[i].1, id))
                    } by {
                    assert(nl[j] == l[j + 1]);
                    assert(0 <= j + 1 < l.len() && l[j + 1].0 == nl[j].0 && (forall|id: OrderId|
                        #[trigger] contains_id(nl[j].1, id) ==> contains_id(l[j + 1].1, id)));
                }
                assert forall|i: int| 0 <= i < trades.len() implies ladder_contains_id(
                    l,
                    (#[trigger] trades[i]).maker_id,
                ) by {
                    assert(contains_id(q, trades[i].maker_id));
                    assert(ladder_contains_id(l, trades[i].maker_id)) by {
                        assert(contains_id(l[0].1, trades[i].maker_id));
                    }
                }
            } else {
                assert(nl == seq![(price, nq)] + tail);
                lemma_ladder_front_replaced(l, nq, opp);
                assert forall|i: int| 0 <= i < trades.len() implies ladder_contains_id(
                    l,
                    (#[trigger] trades[i]).maker_id,
                ) by {
                    assert(contains_id(l[0].1, trades[i].maker_id));
                }
                assert forall|j: int| 0 <= j < nl.len() implies exists|i: int|
                    {
                        &&& 0 <= i < l.len()
                        &&& l[i].0 == (#[trigger] nl[j]).0
                        &&& (forall|id: OrderId| #[trigger]
                            contains_id(nl[j].1, id) ==> contains_id(l[i].1, id))
                    } by {
                    if j == 0 {
                        assert(nl[0] == (price, nq));
                        assert(0 <= 0 < l.len() && l[0].0 == nl[0].0 && (forall|id: OrderId|
                            #[trigger] contains_id(nl[0].1, id) ==> contains_id(l[0].1, id)));
                    } else {
                        assert(nl[j] == l[j]);
                        assert(0 <= j < l.len() && l[j].0 == nl[j].0 && (forall|id: OrderId|
                            #[trigger] contains_id(nl[j].1, id) ==> contains_id(l[j].1, id)));
                    }
                }
            }
        } else {
            // the front level was exhausted (laws: rem > 0 ==> nq empty)
            assert(nq.len() == 0);
            assert(nl == sweep::<Q>(tail, taker_side, limit, taker_id, rem0, ts).0);
            let (nl2, rem2, trades2) = sweep::<Q>(tail, taker_side, limit, taker_id, rem0, ts);
            lemma_sweep_laws::<Q>(tail, taker_side, limit, taker_id, rem0, ts);
            lemma_trade_seq_sum_concat(trades0, trades2);
            assert(trades == trades0 + trades2);
            assert forall|i: int| 0 <= i < trades.len() implies {
                &&& (#[trigger] trades[i]).taker_id == taker_id
                &&& trades[i].ts == ts
                &&& crosses(taker_side, limit, trades[i].price)
                &&& ladder_contains_id(l, trades[i].maker_id)
            } by {
                if i < trades0.len() {
                    assert(trades[i] == trades0[i]);
                    assert(contains_id(q, trades[i].maker_id));
                    assert(contains_id(l[0].1, trades[i].maker_id));
                } else {
                    assert(trades[i] == trades2[i - trades0.len()]);
                    assert(ladder_contains_id(tail, trades[i].maker_id));
                    lemma_ladder_contains_shift(l, trades[i].maker_id);
                }
            }
            assert forall|id: OrderId| #[trigger] ladder_contains_id(nl, id)
                implies ladder_contains_id(l, id) by {
                assert(ladder_contains_id(tail, id));
                lemma_ladder_contains_shift(l, id);
            }
            assert forall|j: int| 0 <= j < nl.len() implies exists|i: int|
                {
                    &&& 0 <= i < l.len()
                    &&& l[i].0 == (#[trigger] nl[j]).0
                    &&& (forall|id: OrderId| #[trigger]
                        contains_id(nl[j].1, id) ==> contains_id(l[i].1, id))
                } by {
                let i2 = choose|i2: int|
                    {
                        &&& 0 <= i2 < tail.len()
                        &&& tail[i2].0 == (#[trigger] nl[j]).0
                        &&& (forall|id: OrderId| #[trigger]
                            contains_id(nl[j].1, id) ==> contains_id(tail[i2].1, id))
                    };
                assert(l[i2 + 1] == tail[i2]);
                assert(0 <= i2 + 1 < l.len() && l[i2 + 1].0 == nl[j].0 && (forall|id: OrderId|
                    #[trigger] contains_id(nl[j].1, id) ==> contains_id(l[i2 + 1].1, id)));
            }
        }
    }
}

/// A ladder's tail is well formed and id-distinct, and front-shifted
/// membership carries over.
proof fn lemma_ladder_drop_first(l: LadderView, side: Side)
    requires
        l.len() > 0,
        wf_ladder(l, side),
        ladder_distinct(l),
    ensures
        wf_ladder(l.drop_first(), side),
        ladder_distinct(l.drop_first()),
{
    let t = l.drop_first();
    assert forall|i: int| 0 <= i < t.len() implies t[i] == l[i + 1] by {}
}

/// An id resting in the tail of a ladder rests in the ladder.
proof fn lemma_ladder_contains_shift(l: LadderView, id: OrderId)
    requires
        l.len() > 0,
        ladder_contains_id(l.drop_first(), id),
    ensures
        ladder_contains_id(l, id),
{
    let t = l.drop_first();
    let i = choose|i: int| 0 <= i < t.len() && contains_id(#[trigger] t[i].1, id);
    assert(l[i + 1].1 == t[i].1);
    assert(contains_id(l[i + 1].1, id));
}

/// Replacing the front level's queue by a nonempty conforming queue whose
/// ids come from the old front keeps the ladder well formed and id-distinct.
proof fn lemma_ladder_front_replaced(l: LadderView, nq: Seq<Order>, side: Side)
    requires
        l.len() > 0,
        wf_ladder(l, side),
        ladder_distinct(l),
        nq.len() > 0,
        distinct_ids(nq),
        forall|k: int| 0 <= k < nq.len() ==> {
            &&& (#[trigger] nq[k]).side == side
            &&& nq[k].order_type == (OrderType::Limit { price: l[0].0 })
            &&& nq[k].qty > 0
        },
        forall|id: OrderId| #[trigger] contains_id(nq, id) ==> contains_id(l[0].1, id),
    ensures
        wf_ladder(seq![(l[0].0, nq)] + l.drop_first(), side),
        ladder_distinct(seq![(l[0].0, nq)] + l.drop_first()),
        forall|id: OrderId| #[trigger]
            ladder_contains_id(seq![(l[0].0, nq)] + l.drop_first(), id) ==> ladder_contains_id(
                l,
                id,
            ),
{
    let nl = seq![(l[0].0, nq)] + l.drop_first();
    assert(nl.len() == l.len());
    assert(nl[0] == (l[0].0, nq));
    assert forall|i: int| 1 <= i < nl.len() implies nl[i] == l[i] by {}
    assert forall|i: int, j: int, k: int, k2: int|
        (0 <= i < j < nl.len() && 0 <= k < nl[i].1.len() && 0 <= k2 < nl[j].1.len())
        implies (#[trigger] nl[i].1[k]).id != (#[trigger] nl[j].1[k2]).id by {
        if i == 0 {
            assert(contains_id(nq, nl[0].1[k].id));
            assert(contains_id(l[0].1, nl[0].1[k].id));
            let k3 = choose|k3: int| 0 <= k3 < l[0].1.len() && l[0].1[k3].id == nl[0].1[k].id;
            assert(l[0].1[k3].id != l[j].1[k2].id);
        }
    }
    assert forall|id: OrderId| #[trigger] ladder_contains_id(nl, id) implies ladder_contains_id(
        l,
        id,
    ) by {
        let i = choose|i: int| 0 <= i < nl.len() && contains_id(#[trigger] nl[i].1, id);
        if i == 0 {
            assert(contains_id(l[0].1, id));
        } else {
            assert(contains_id(l[i].1, id));
        }
    }
}

/// Trade-quantity sums add over concatenation.
proof fn lemma_trade_seq_sum_concat(a: Seq<Trade>, b: Seq<Trade>)
    ensures
        trade_qty_sum(a + b) == trade_qty_sum(a) + trade_qty_sum(b),
    decreases a.len(),
{
    if a.len() == 0 {
        assert(a + b =~= b);
    } else {
        assert((a + b)[0] == a[0]);
        assert((a + b).drop_first() =~= a.drop_first() + b);
        lemma_trade_seq_sum_concat(a.drop_first(), b);
    }
}

/// Ids consumed from a ladder: resting in `before` but no longer in `after`.
pub open spec fn consumed_ids(before: LadderView, after: LadderView) -> Set<OrderId> {
    Set::new(|id: OrderId| ladder_contains_id(before, id) && !ladder_contains_id(after, id))
}

/// A ladder with `order` rested at the level with price `price` (appended at
/// the back of that level's queue), creating the level at its sorted
/// position when absent.
pub open spec fn rest_ladder(l: LadderView, side: Side, price: Price, order: Order) -> LadderView
    decreases l.len(),
{
    if l.len() == 0 {
        seq![(price, seq![order])]
    } else if l[0].0 == price {
        seq![(price, l[0].1.push(order))] + l.drop_first()
    } else if price_before(side, price, l[0].0) {
        seq![(price, seq![order])] + l
    } else {
        seq![l[0]] + rest_ladder(l.drop_first(), side, price, order)
    }
}

/// A ladder with the order `id` removed from its level at `price`; the level
/// is removed when it becomes empty.
pub open spec fn cancel_ladder(l: LadderView, price: Price, id: OrderId) -> LadderView
    decreases l.len(),
{
    if l.len() == 0 {
        l
    } else if l[0].0 == price {
        let nq = remove_id(l[0].1, id);
        if nq.len() == 0 {
            l.drop_first()
        } else {
            seq![(price, nq)] + l.drop_first()
        }
    } else {
        seq![l[0]] + cancel_ladder(l.drop_first(), price, id)
    }
}

/// A ladder with the quantity of order `id` at `price` replaced in place.
pub open spec fn set_qty_ladder(l: LadderView, price: Price, id: OrderId, new_qty: Qty) -> LadderView
    decreases l.len(),
{
    if l.len() == 0 {
        l
    } else if l[0].0 == price {
        seq![(price, update_qty_id(l[0].1, id, new_qty))] + l.drop_first()
    } else {
        seq![l[0]] + set_qty_ladder(l.drop_first(), price, id, new_qty)
    }
}

/// Total resting quantity of the level at `price`, 0 when absent.
pub open spec fn level_qty_at(l: LadderView, price: Price) -> int
    decreases l.len(),
{
    if l.len() == 0 {
        0
    } else if l[0].0 == price {
        qty_sum(l[0].1)
    } else {
        level_qty_at(l.drop_first(), price)
    }
}

/// The outcome of placing an order, at the view level.
pub enum PlaceOutcome {
    /// The order was rejected before touching the book.
    Refused(EngineError),
    /// The order matched and/or rested; the trades it produced.
    Accepted(Seq<Trade>),
}

/// The validation error for `order` against book `v`, if any: zero quantity,
/// zero limit price, a duplicate id, a market order with no opposite
/// liquidity, or a resting that would overflow the destination level.
pub open spec fn place_error(v: BookView, order: Order) -> Option<EngineError> {
    if order.qty == 0 {
        Some(EngineError::InvalidQty { qty: order.qty })
    } else if order.spec_is_limit() && order.spec_price() == Some(0u64) {
        Some(EngineError::InvalidPrice { price: 0 })
    } else if v.index.dom().contains(order.id) {
        Some(EngineError::DuplicateOrderId { order_id: order.id })
    } else if !order.spec_is_limit() && v.ladder(order.side.spec_opposite()).len() == 0 {
        Some(EngineError::NoLiquidity)
    } else if order.spec_is_limit() && level_qty_at(v.ladder(order.side), order.spec_price()->0)
        + order.qty > u64::MAX {
        Some(EngineError::QtyTooLarge { qty: order.qty, max_qty: u64::MAX })
    } else {
        None
    }
}

/// The spec transition of `place`: validate, sweep the opposite ladder, rest
/// any residual limit quantity on the own ladder and index it.
pub open spec fn place_spec<Q: QueueDiscipline>(v: BookView, order: Order) -> (
    BookView,
    PlaceOutcome,
) {
    match place_error(v, order) {
        Some(e) => (v, PlaceOutcome::Refused(e)),
        None => {
            let opp = order.side.spec_opposite();
            let (nl, rem, trades) = sweep::<Q>(
                v.ladder(opp),
                order.side,
                order.spec_price(),
                order.id,
                order.qty,
                order.ts,
            );
            let consumed = consumed_ids(v.ladder(opp), nl);
            let v1 = BookView {
                index: v.index.remove_keys(consumed),
                ..v.with_ladder(opp, nl)
            };
            if rem > 0 && order.spec_is_limit() {
                let price = order.spec_price()->0;
                let residual = Order { qty: rem, ..order };
                let v2 = BookView {
                    index: v1.index.insert(order.id, (order.side, price)),
                    ..v1.with_ladder(order.side, rest_ladder(v1.ladder(order.side), order.side, price, residual))
                };
                (v2, PlaceOutcome::Accepted(trades))
            } else {
                (v1, PlaceOutcome::Accepted(trades))
            }
        },
    }
}

/// The spec transition of `cancel`: drop the order from its level (removing
/// the level when emptied) and from the index; an unknown id changes nothing.
pub open spec fn cancel_spec(v: BookView, order_id: OrderId) -> (BookView, Option<Qty>) {
    if !v.index.dom().contains(order_id) {
        (v, None)
    } else {
        let (side, price) = v.index[order_id];
        let l = v.ladder(side);
        let cancelled = level_qty_of_id(l, price, order_id);
        let v1 = BookView {
            index: v.index.remove(order_id),
            ..v.with_ladder(side, cancel_ladder(l, price, order_id))
        };
        (v1, Some(cancelled))
    }
}

/// Quantity of order `id` at the level with price `price` (0 when absent).
pub open spec fn level_qty_of_id(l: LadderView, price: Price, id: OrderId) -> Qty
    decreases l.len(),
{
    if l.len() == 0 {
        0
    } else if l[0].0 == price {
        qty_of_id(l[0].1, id)
    } else {
        level_qty_of_id(l.drop_first(), price, id)
    }
}


/// Ids are unique across all levels of a ladder.
pub open spec fn ladder_distinct(l: LadderView) -> bool {
    &&& (forall|i: int| 0 <= i < l.len() ==> distinct_ids(#[trigger] l[i].1))
    &&& (forall|i: int, j: int, k: int, k2: int|
        (0 <= i < j < l.len() && 0 <= k < l[i].1.len() && 0 <= k2 < l[j].1.len())
            ==> (#[trigger] l[i].1[k]).id != (#[trigger] l[j].1[k2]).id)
}

/// The order book engine: two price ladders and the order-id index, generic
/// over the per-level queue discipline.
pub struct OrderBook<Q: QueueDiscipline> {
    bids: Vec<(Price, Q)>,
    asks: Vec<(Price, Q)>,
    index: HashMapWithView<OrderId, (Side, Price)>,
}

impl<Q: QueueDiscipline> OrderBook<Q> {
    /// The view of one executable ladder.
    pub closed spec fn ladder_of(l: Seq<(Price, Q)>) -> LadderView {
        l.map_values(|pq: (Price, Q)| (pq.0, pq.1.orders()))
    }

    /// The mathematical view of this book.
    pub closed spec fn book_view(&self) -> BookView {
        BookView {
            bids: Self::ladder_of(self.bids@),
            asks: Self::ladder_of(self.asks@),
            index: self.index@,
        }
    }

    /// Internal consistency of the executable levels.
    pub closed spec fn levels_inv(&self) -> bool {
        &&& (forall|i: int| 0 <= i < self.bids@.len() ==> (#[trigger] self.bids@[i]).1.inv())
        &&& (forall|i: int| 0 <= i < self.asks@.len() ==> (#[trigger] self.asks@[i]).1.inv())
    }

    /// Well-formedness: the view is a well-formed book and each level's
    /// internal invariant holds.
    pub open spec fn wf(&self) -> bool {
        &&& wf_book(self.book_view())
        &&& self.levels_inv()
    }

    /// Create a new empty order book.
    pub fn new() -> (r: OrderBook<Q>)
        ensures
            r.wf(),
            r.book_view().bids == Seq::<LevelView>::empty(),
            r.book_view().asks == Seq::<LevelView>::empty(),
            r.book_view().index == Map::<OrderId, (Side, Price)>::empty(),
    {
        let r = OrderBook { bids: Vec::new(), asks: Vec::new(), index: HashMapWithView::new() };
        proof {
            assert(Self::ladder_of(r.bids@) =~= Seq::<LevelView>::empty());
            assert(Self::ladder_of(r.asks@) =~= Seq::<LevelView>::empty());
        }
        r
    }

    /// The best (highest) bid price, `None` when no bids rest.
    pub fn best_bid(&self) -> (r: Option<Price>)
        ensures
            r == best_price(self.book_view().bids),
    {
        if self.bids.len() > 0 {
            Some(self.bids[0].0)
        } else {
            None
        }
    }

    /// The best (lowest) ask price, `None` when no asks rest.
    pub fn best_ask(&self) -> (r: Option<Price>)
        ensures
            r == best_price(self.book_view().asks),
    {
        if self.asks.len() > 0 {
            Some(self.asks[0].0)
        } else {
            None
        }
    }

    /// The mid price in ticks (rounded down), `None` unless both tops exist.
    pub fn mid_price(&self) -> (r: Option<Price>)
        ensures
            r == spec_mid(best_price(self.book_view().bids), best_price(self.book_view().asks)),
    {
        if self.bids.len() > 0 && self.asks.len() > 0 {
            let b = self.bids[0].0;
            let a = self.asks[0].0;
            Some((((b as u128) + (a as u128)) / 2) as u64)
        } else {
            None
        }
    }

    /// The spread in ticks (ask minus bid, clamped to `i64`), `None` unless
    /// both tops exist.
    pub fn spread(&self) -> (r: Option<i64>)
        ensures
            r == spec_spread(best_price(self.book_view().bids), best_price(self.book_view().asks)),
    {
        if self.bids.len() > 0 && self.asks.len() > 0 {
            let b = self.bids[0].0;
            let a = self.asks[0].0;
            let wide: i128 = (a as i128) - (b as i128);
            Some(crate::types::clamp_i128_to_i64(wide))
        } else {
            None
        }
    }

    /// The number of resting orders on the book.
    pub fn order_count(&self) -> (r: usize)
        ensures
            r == self.book_view().index.len(),
    {
        self.index.len()
    }
}

/// Membership in the maker ids of a prefix extended by one trade.
proof fn lemma_makers_prefix_step(s: Seq<Trade>, k: int, id: OrderId)
    requires
        0 <= k < s.len(),
    ensures
        trades_contain_maker(s.subrange(0, k + 1), id) <==> (trades_contain_maker(
            s.subrange(0, k),
            id,
        ) || s[k].maker_id == id),
{
    let a = s.subrange(0, k);
    let b = s.subrange(0, k + 1);
    if trades_contain_maker(b, id) {
        let i = choose|i: int| 0 <= i < b.len() && b[i].maker_id == id;
        if i < k {
            assert(a[i] == b[i]);
        }
    }
    if trades_contain_maker(a, id) {
        let i = choose|i: int| 0 <= i < a.len() && a[i].maker_id == id;
        assert(b[i] == a[i]);
    }
    if s[k].maker_id == id {
        assert(b[k] == s[k]);
    }
}

/// Measure for the sweep loop: drops when the price check blocks it.
spec fn unblocked_measure(blocked: bool) -> int {
    if blocked {
        0
    } else {
        1
    }
}

impl<Q: QueueDiscipline> OrderBook<Q> {
    /// Sweep one ladder with a taker, removing fully consumed makers from the
    /// index and emptied levels from the ladder. The ladder and index land
    /// exactly where the `sweep` transition puts them.
    #[verifier::rlimit(60)]
    fn sweep_ladder(
        ladder: &mut Vec<(Price, Q)>,
        index: &mut HashMapWithView<OrderId, (Side, Price)>,
        taker_side: Side,
        limit: Option<Price>,
        taker_id: OrderId,
        taker_qty: Qty,
        ts: u128,
    ) -> (r: (Qty, Vec<Trade>))
        requires
            forall|i: int| 0 <= i < old(ladder)@.len() ==> (#[trigger] old(ladder)@[i]).1.inv(),
            wf_ladder(Self::ladder_of(old(ladder)@), taker_side.spec_opposite()),
            ladder_distinct(Self::ladder_of(old(ladder)@)),
        ensures
            forall|i: int| 0 <= i < final(ladder)@.len() ==> (#[trigger] final(ladder)@[i]).1.inv(),
            ({
                let (nl, rem, trades) = sweep::<Q>(
                    Self::ladder_of(old(ladder)@),
                    taker_side,
                    limit,
                    taker_id,
                    taker_qty,
                    ts,
                );
                &&& Self::ladder_of(final(ladder)@) == nl
                &&& r.0 == rem
                &&& r.1@ == trades
                &&& final(index)@ == old(index)@.remove_keys(
                    consumed_ids(Self::ladder_of(old(ladder)@), nl),
                )
            }),
    {
        let ghost opp = taker_side.spec_opposite();
        let ghost l0 = Self::ladder_of(ladder@);
        let ghost idx0 = index@;
        let mut trades: Vec<Trade> = Vec::new();
        let mut remaining: Qty = taker_qty;
        let mut blocked = false;

        while !blocked && remaining > 0 && ladder.len() > 0
            invariant
                blocked ==> ladder@.len() > 0 && !crosses(
                    taker_side,
                    limit,
                    Self::ladder_of(ladder@)[0].0,
                ),
                forall|i: int| 0 <= i < ladder@.len() ==> (#[trigger] ladder@[i]).1.inv(),
                wf_ladder(Self::ladder_of(ladder@), opp),
                ladder_distinct(Self::ladder_of(ladder@)),
                opp == taker_side.spec_opposite(),
                remaining <= taker_qty,
                sweep::<Q>(l0, taker_side, limit, taker_id, taker_qty, ts).0 == sweep::<Q>(
                    Self::ladder_of(ladder@),
                    taker_side,
                    limit,
                    taker_id,
                    remaining,
                    ts,
                ).0,
                sweep::<Q>(l0, taker_side, limit, taker_id, taker_qty, ts).1 == sweep::<Q>(
                    Self::ladder_of(ladder@),
                    taker_side,
                    limit,
                    taker_id,
                    remaining,
                    ts,
                ).1,
                sweep::<Q>(l0, taker_side, limit, taker_id, taker_qty, ts).2 == trades@ + sweep::<
                    Q,
                >(Self::ladder_of(ladder@), taker_side, limit, taker_id, remaining, ts).2,
                forall|id: OrderId| #[trigger]
                    ladder_contains_id(Self::ladder_of(ladder@), id) ==> ladder_contains_id(
                        l0,
                        id,
                    ),
                forall|id: OrderId| #[trigger]
                    index@.dom().contains(id) <==> (idx0.dom().contains(id) && !(
                    ladder_contains_id(l0, id) && !ladder_contains_id(
                        Self::ladder_of(ladder@),
                        id,
                    ))),
                forall|id: OrderId| #[trigger]
                    index@.dom().contains(id) ==> index@[id] == idx0[id],
            decreases unblocked_measure(blocked), ladder@.len(), remaining,
        {
            let ghost cur = Self::ladder_of(ladder@);
            let price = ladder[0].0;
            if !crosses_exec(taker_side, limit, price) {
                proof {
                    assert(cur[0].0 == price);
                }
                blocked = true;
            } else {
            let front = ladder.remove(0);
            let mut level = front.1;
            let ghost q = level.orders();
            let ghost tail = Self::ladder_of(ladder@);
            proof {
                assert(cur[0] == (price, q));
                assert(tail =~= cur.drop_first());
                lemma_ladder_drop_first(cur, opp);
                Q::match_spec_laws(q, taker_id, remaining, price, ts);
            }
            let (rem, mut tr) = level.match_against(taker_id, taker_side, remaining, price, ts);
            let ghost nq = level.orders();
            let ghost trades0 = Q::match_spec(q, taker_id, remaining, price, ts).2;
            let ghost idx_lvl = index@;

            // remove fully consumed makers from the index
            let mut k: usize = 0;
            while k < tr.len()
                invariant
                    tr@ == trades0,
                    nq == level.orders(),
                    level.inv(),
                    0 <= k <= tr@.len(),
                    forall|id: OrderId| #[trigger]
                        index@.dom().contains(id) <==> (idx_lvl.dom().contains(id) && !(
                        trades_contain_maker(tr@.subrange(0, k as int), id) && !contains_id(
                            nq,
                            id,
                        ))),
                    forall|id: OrderId| #[trigger]
                        index@.dom().contains(id) ==> index@[id] == idx_lvl[id],
                decreases tr@.len() - k,
            {
                proof {
                    assert(tr@.subrange(0, 0int) =~= Seq::<Trade>::empty());
                }
                let maker = tr[k].maker_id;
                let still_resting = level.contains_order(maker);
                if !still_resting {
                    index.remove(&maker);
                }
                proof {
                    lemma_makers_prefix_step(tr@, k as int, maker);
                    assert forall|id: OrderId| #[trigger] index@.dom().contains(id) <==> (
                    idx_lvl.dom().contains(id) && !(trades_contain_maker(
                        tr@.subrange(0, k as int + 1),
                        id,
                    ) && !contains_id(nq, id))) by {
                        lemma_makers_prefix_step(tr@, k as int, id);
                    }
                }
                k = k + 1;
            }
            proof {
                assert(tr@.subrange(0, tr@.len() as int) =~= tr@);
                assert(tr@.subrange(0, 0int) =~= Seq::<Trade>::empty());
            }

            trades.append(&mut tr);
            let level_now_empty = level.is_empty();
            if !level_now_empty {
                ladder.insert(0, (price, level));
            }
            proof {
                let cur2 = Self::ladder_of(ladder@);
                if level_now_empty {
                    assert(cur2 =~= tail);
                } else {
                    assert(cur2 =~= seq![(price, nq)] + tail);
                }
                // survivors conform, so the new front level keeps the ladder well formed
                assert forall|kk: int| 0 <= kk < nq.len() implies {
                    &&& (#[trigger] nq[kk]).side == opp
                    &&& nq[kk].order_type == (OrderType::Limit { price })
                    &&& nq[kk].qty > 0
                } by {
                    let j = choose|j: int|
                        {
                            &&& 0 <= j < q.len()
                            &&& (#[trigger] nq[kk]).id == q[j].id
                            &&& nq[kk].side == q[j].side
                            &&& nq[kk].order_type == q[j].order_type
                            &&& nq[kk].ts == q[j].ts
                            &&& nq[kk].qty <= q[j].qty
                        };
                    assert(q[j].side == opp && q[j].order_type == (OrderType::Limit { price }));
                }
                if !level_now_empty {
                    lemma_ladder_front_replaced(cur, nq, opp);
                }
                // membership in the new ladder implies membership in the old one
                assert forall|id: OrderId| #[trigger] ladder_contains_id(cur2, id)
                    implies ladder_contains_id(cur, id) by {
                    let i = choose|i: int| 0 <= i < cur2.len() && contains_id(#[trigger] cur2[i].1, id);
                    if level_now_empty {
                        assert(contains_id(cur[i + 1].1, id));
                    } else if i == 0 {
                        assert(contains_id(q, id));
                        assert(contains_id(cur[0].1, id));
                    } else {
                        assert(contains_id(cur[i].1, id));
                    }
                }
                // index: convert the maker-based condition to a level-membership one
                assert forall|id: OrderId| #[trigger] index@.dom().contains(id) <==> (
                idx_lvl.dom().contains(id) && !(contains_id(q, id) && !contains_id(nq, id))) by {
                    if trades_contain_maker(trades0, id) {
                        let i = choose|i: int|
                            0 <= i < trades0.len() && trades0[i].maker_id == id;
                        assert(contains_id(q, id));
                    }
                }
                // compose the index characterization across this level
                assert forall|id: OrderId| #[trigger] index@.dom().contains(id) <==> (
                idx0.dom().contains(id) && !(ladder_contains_id(l0, id) && !ladder_contains_id(
                    cur2,
                    id,
                ))) by {
                    if contains_id(q, id) {
                        assert(ladder_contains_id(cur, id)) by {
                            assert(contains_id(cur[0].1, id));
                        }
                        assert(ladder_contains_id(l0, id));
                        // by id-distinctness the id is in no other level
                        assert(!ladder_contains_id(tail, id)) by {
                            if ladder_contains_id(tail, id) {
                                let i = choose|i: int|
                                    0 <= i < tail.len() && contains_id(#[trigger] tail[i].1, id);
                                let kq = choose|kq: int| 0 <= kq < q.len() && q[kq].id == id;
                                let kt = choose|kt: int|
                                    0 <= kt < tail[i].1.len() && tail[i].1[kt].id == id;
                                assert(cur[i + 1].1 == tail[i].1);
                                assert(cur[0].1[kq].id != cur[i + 1].1[kt].id);
                            }
                        }
                        if contains_id(nq, id) {
                            assert(!level_now_empty);
                            assert(ladder_contains_id(cur2, id)) by {
                                assert(contains_id(cur2[0].1, id));
                            }
                        } else {
                            assert(!ladder_contains_id(cur2, id)) by {
                                if ladder_contains_id(cur2, id) {
                                    let i = choose|i: int|
                                        0 <= i < cur2.len() && contains_id(
                                            #[trigger] cur2[i].1,
                                            id,
                                        );
                                    if !level_now_empty && i == 0 {
                                        assert(contains_id(nq, id));
                                    } else if level_now_empty {
                                        assert(contains_id(tail[i].1, id));
                                        assert(ladder_contains_id(tail, id));
                                    } else {
                                        assert(contains_id(tail[i - 1].1, id));
                                        assert(ladder_contains_id(tail, id));
                                    }
                                }
                            }
                        }
                    } else {
                        // untouched by this level: membership passes through the tail
                        assert(!contains_id(nq, id));
                        assert(ladder_contains_id(cur, id) <==> ladder_contains_id(tail, id)) by {
                            if ladder_contains_id(cur, id) {
                                let i = choose|i: int|
                                    0 <= i < cur.len() && contains_id(#[trigger] cur[i].1, id);
                                assert(i != 0);
                                assert(contains_id(tail[i - 1].1, id));
                            }
                            if ladder_contains_id(tail, id) {
                                lemma_ladder_contains_shift(cur, id);
                            }
                        }
                        assert(ladder_contains_id(cur2, id) <==> ladder_contains_id(tail, id)) by {
                            if ladder_contains_id(cur2, id) {
                                let i = choose|i: int|
                                    0 <= i < cur2.len() && contains_id(#[trigger] cur2[i].1, id);
                                if level_now_empty {
                                    assert(contains_id(tail[i].1, id));
                                } else if i == 0 {
                                    assert(contains_id(nq, id));
                                } else {
                                    assert(contains_id(tail[i - 1].1, id));
                                }
                            } else {
                                if ladder_contains_id(tail, id) {
                                    let i = choose|i: int|
                                        0 <= i < tail.len() && contains_id(
                                            #[trigger] tail[i].1,
                                            id,
                                        );
                                    if level_now_empty {
                                        assert(contains_id(cur2[i].1, id));
                                    } else {
                                        assert(contains_id(cur2[i + 1].1, id));
                                    }
                                }
                            }
                        }
                    }
                }
                // the sweep composition advances by one unfolding
                let pre = sweep::<Q>(cur, taker_side, limit, taker_id, remaining, ts);
                if rem == 0 {
                    let post = sweep::<Q>(cur2, taker_side, limit, taker_id, 0, ts);
                    assert(pre.0 == cur2 && pre.1 == 0 && pre.2 == trades0);
                    assert(post.0 == cur2 && post.1 == 0 && post.2
                        =~= Seq::<Trade>::empty());
                    assert(trades@ + post.2 =~= trades@);
                } else {
                    assert(nq.len() == 0);
                    assert(level_now_empty);
                    let rest = sweep::<Q>(tail, taker_side, limit, taker_id, rem, ts);
                    assert(pre.0 == rest.0 && pre.1 == rest.1 && pre.2 == trades0 + rest.2);
                    assert(trades@.subrange(0, trades@.len() - trades0.len() as int) + (trades0
                        + rest.2) =~= trades@ + rest.2);
                }
            }
            remaining = rem;
            }
        }
        proof {
            let cur = Self::ladder_of(ladder@);
            let done = sweep::<Q>(cur, taker_side, limit, taker_id, remaining, ts);
            assert(done.0 == cur && done.1 == remaining && done.2 =~= Seq::<Trade>::empty());
            assert(trades@ + done.2 =~= trades@);
            let nl = sweep::<Q>(l0, taker_side, limit, taker_id, taker_qty, ts).0;
            assert(index@ =~= idx0.remove_keys(consumed_ids(l0, nl)));
        }
        (remaining, trades)
    }
}

/// Whether a taker crosses a level at `level_price` (executable form).
fn crosses_exec(taker_side: Side, limit: Option<Price>, level_price: Price) -> (r: bool)
    ensures
        r == crosses(taker_side, limit, level_price),
{
    match limit {
        Option::None => true,
        Option::Some(p) => match taker_side {
            Side::Buy => level_price <= p,
            Side::Sell => level_price >= p,
        },
    }
}

/// Push membership: ids of `s.push(o)` are those of `s` plus `o.id`.
pub proof fn lemma_contains_id_push(s: Seq<Order>, o: Order, id: OrderId)
    ensures
        contains_id(s.push(o), id) <==> (contains_id(s, id) || o.id == id),
{
    if contains_id(s, id) {
        let i = choose|i: int| 0 <= i < s.len() && s[i].id == id;
        assert(s.push(o)[i].id == id);
    }
    if o.id == id {
        assert(s.push(o)[s.len() as int].id == id);
    }
    if contains_id(s.push(o), id) {
        let i = choose|i: int| 0 <= i < s.push(o).len() && s.push(o)[i].id == id;
        if i < s.len() {
            assert(s[i].id == id);
        }
    }
}

/// In a well-formed book the ids of each ladder are globally distinct.
pub proof fn lemma_wf_ladder_distinct(v: BookView, side: Side)
    requires
        wf_book(v),
    ensures
        ladder_distinct(v.ladder(side)),
{
    let l = v.ladder(side);
    assert forall|i: int, j: int, k: int, k2: int|
        (0 <= i < j < l.len() && 0 <= k < l[i].1.len() && 0 <= k2 < l[j].1.len())
        implies (#[trigger] l[i].1[k]).id != (#[trigger] l[j].1[k2]).id by {
        if l[i].1[k].id == l[j].1[k2].id {
            assert(v.index[l[i].1[k].id] == (side, l[i].0));
            assert(v.index[l[j].1[k2].id] == (side, l[j].0));
            assert(price_before(side, l[i].0, l[j].0));
        }
    }
}

/// When the first level at `price` is at index `i` of a ladder, the level
/// quantity at that price is that level's quantity sum.
proof fn lemma_level_qty_at_pos(l: LadderView, price: Price, i: int)
    requires
        0 <= i < l.len(),
        l[i].0 == price,
        forall|j: int| 0 <= j < i ==> l[j].0 != price,
    ensures
        level_qty_at(l, price) == qty_sum(l[i].1),
    decreases i,
{
    if i > 0 {
        assert(l.drop_first()[i - 1] == l[i]);
        assert(forall|j: int| 0 <= j < i - 1 ==> l.drop_first()[j] == l[j + 1]);
        lemma_level_qty_at_pos(l.drop_first(), price, i - 1);
    }
}

/// The level quantity at an absent price is zero.
proof fn lemma_level_qty_at_absent(l: LadderView, price: Price)
    requires
        forall|j: int| 0 <= j < l.len() ==> (#[trigger] l[j]).0 != price,
    ensures
        level_qty_at(l, price) == 0,
    decreases l.len(),
{
    if l.len() > 0 {
        assert(forall|j: int| 0 <= j < l.drop_first().len() ==> (#[trigger] l.drop_first()[j])
            == l[j + 1]);
        lemma_level_qty_at_absent(l.drop_first(), price);
    }
}

/// Resting at the first position not strictly before `price` is an in-place
/// append when that position carries `price`, and a fresh level otherwise.
proof fn lemma_rest_ladder_at(l: LadderView, side: Side, price: Price, o: Order, pos: int)
    requires
        0 <= pos <= l.len(),
        forall|j: int| 0 <= j < pos ==> price_before(side, (#[trigger] l[j]).0, price),
        pos < l.len() ==> !price_before(side, l[pos].0, price),
    ensures
        pos < l.len() && l[pos].0 == price ==> rest_ladder(l, side, price, o) == l.update(
            pos,
            (price, l[pos].1.push(o)),
        ),
        !(pos < l.len() && l[pos].0 == price) ==> rest_ladder(l, side, price, o) == l.insert(
            pos,
            (price, seq![o]),
        ),
    decreases pos,
{
    if pos == 0 {
        if l.len() > 0 && l[0].0 == price {
            assert(rest_ladder(l, side, price, o) =~= l.update(0, (price, l[0].1.push(o))));
        } else {
            assert(rest_ladder(l, side, price, o) =~= l.insert(0, (price, seq![o])));
        }
    } else {
        assert(price_before(side, l[0].0, price));
        assert(l[0].0 != price);
        let t = l.drop_first();
        assert(forall|j: int| 0 <= j < pos - 1 ==> (#[trigger] t[j]) == l[j + 1]);
        assert(pos - 1 < t.len() ==> t[pos - 1] == l[pos]);
        lemma_rest_ladder_at(t, side, price, o, pos - 1);
        if pos < l.len() && l[pos].0 == price {
            assert(rest_ladder(l, side, price, o) =~= l.update(pos, (price, l[pos].1.push(o))));
        } else {
            assert(rest_ladder(l, side, price, o) =~= l.insert(pos, (price, seq![o])));
        }
    }
}

impl<Q: QueueDiscipline> OrderBook<Q> {
    /// The first ladder position whose price is not strictly before `price`
    /// in the ladder's order (the ladder's length when all are).
    fn find_pos(ladder: &Vec<(Price, Q)>, side: Side, price: Price) -> (pos: usize)
        ensures
            0 <= pos <= ladder@.len(),
            forall|j: int| 0 <= j < pos ==> price_before(
                side,
                (#[trigger] Self::ladder_of(ladder@)[j]).0,
                price,
            ),
            pos < ladder@.len() ==> !price_before(side, Self::ladder_of(ladder@)[pos as int].0, price),
    {
        let mut pos: usize = 0;
        while pos < ladder.len()
            invariant
                0 <= pos <= ladder@.len(),
                forall|j: int| 0 <= j < pos ==> price_before(
                    side,
                    (#[trigger] Self::ladder_of(ladder@)[j]).0,
                    price,
                ),
            decreases ladder@.len() - pos,
        {
            let lp = ladder[pos].0;
            let before = match side {
                Side::Buy => lp > price,
                Side::Sell => lp < price,
            };
            if !before {
                proof {
                    assert(Self::ladder_of(ladder@)[pos as int].0 == lp);
                }
                return pos;
            }
            proof {
                assert(Self::ladder_of(ladder@)[pos as int].0 == lp);
            }
            pos = pos + 1;
        }
        pos
    }

    /// Total resting quantity at the level with `price`, 0 when absent.
    fn level_qty(ladder: &Vec<(Price, Q)>, side: Side, price: Price) -> (r: Qty)
        requires
            forall|i: int| 0 <= i < ladder@.len() ==> (#[trigger] ladder@[i]).1.inv(),
            wf_ladder(Self::ladder_of(ladder@), side),
        ensures
            r == level_qty_at(Self::ladder_of(ladder@), price),
    {
        let ghost lv = Self::ladder_of(ladder@);
        let pos = Self::find_pos(ladder, side, price);
        if pos < ladder.len() && ladder[pos].0 == price {
            proof {
                assert(lv[pos as int].0 == price);
                assert forall|j: int| 0 <= j < pos implies lv[j].0 != price by {
                    assert(price_before(side, lv[j].0, price));
                }
                lemma_level_qty_at_pos(lv, price, pos as int);
                assert(lv[pos as int].1 == ladder@[pos as int].1.orders());
            }
            ladder[pos].1.total_qty()
        } else {
            proof {
                assert forall|j: int| 0 <= j < lv.len() implies (#[trigger] lv[j]).0 != price by {
                    if j < pos {
                        assert(price_before(side, lv[j].0, price));
                    } else if j == pos {
                        assert(ladder@[j].0 != price);
                    } else {
                        assert(price_before(side, lv[pos as int].0, lv[j].0));
                        assert(!price_before(side, lv[pos as int].0, price));
                    }
                }
                lemma_level_qty_at_absent(lv, price);
            }
            0
        }
    }

    /// Rest `residual` on the ladder at `price`: append to the existing level
    /// or create one at its sorted position, and index the order.
    fn rest_on_ladder(
        ladder: &mut Vec<(Price, Q)>,
        index: &mut HashMapWithView<OrderId, (Side, Price)>,
        side: Side,
        price: Price,
        residual: Order,
    )
        requires
            forall|i: int| 0 <= i < old(ladder)@.len() ==> (#[trigger] old(ladder)@[i]).1.inv(),
            wf_ladder(Self::ladder_of(old(ladder)@), side),
            level_qty_at(Self::ladder_of(old(ladder)@), price) + residual.qty <= u64::MAX,
        ensures
            forall|i: int| 0 <= i < final(ladder)@.len() ==> (#[trigger] final(ladder)@[i]).1.inv(),
            Self::ladder_of(final(ladder)@) == rest_ladder(
                Self::ladder_of(old(ladder)@),
                side,
                price,
                residual,
            ),
            final(index)@ == old(index)@.insert(residual.id, (side, price)),
    {
        let ghost lv = Self::ladder_of(ladder@);
        let pos = Self::find_pos(ladder, side, price);
        proof {
            lemma_rest_ladder_at(lv, side, price, residual, pos as int);
            assert forall|j: int| 0 <= j < pos implies lv[j].0 != price by {
                assert(price_before(side, lv[j].0, price));
            }
        }
        if pos < ladder.len() && ladder[pos].0 == price {
            proof {
                lemma_level_qty_at_pos(lv, price, pos as int);
                assert(lv[pos as int].1 == ladder@[pos as int].1.orders());
            }
            let entry = ladder.remove(pos);
            let mut level = entry.1;
            level.enqueue(residual);
            ladder.insert(pos, (price, level));
            proof {
                assert(Self::ladder_of(ladder@) =~= lv.update(
                    pos as int,
                    (price, lv[pos as int].1.push(residual)),
                ));
            }
        } else {
            let mut level: Q = Q::new_empty();
            level.enqueue(residual);
            ladder.insert(pos, (price, level));
            proof {
                assert(level.orders() =~= seq![residual]);
                assert(Self::ladder_of(ladder@) =~= lv.insert(pos as int, (price, seq![residual])));
            }
        }
        index.insert(residual.id, (side, price));
    }
}

/// After sweeping the opposite ladder and dropping consumed ids from the
/// index, the book is still well formed, no id was added, and the taker's own
/// ladder is untouched.
pub proof fn lemma_place_sweep_wf<Q: QueueDiscipline>(v0: BookView, taker: Order, ts: u128)
    requires
        wf_book(v0),
    ensures
        ({
            let opp = taker.side.spec_opposite();
            let l0 = v0.ladder(opp);
            let (nl, rem, trades) = sweep::<Q>(
                l0,
                taker.side,
                taker.spec_price(),
                taker.id,
                taker.qty,
                ts,
            );
            let v1 = BookView {
                index: v0.index.remove_keys(consumed_ids(l0, nl)),
                ..v0.with_ladder(opp, nl)
            };
            &&& wf_book(v1)
            &&& v1.ladder(taker.side) == v0.ladder(taker.side)
            &&& (forall|id: OrderId| #[trigger]
                v1.index.dom().contains(id) ==> v0.index.dom().contains(id) && v1.index[id]
                    == v0.index[id])
            &&& (!v0.index.dom().contains(taker.id) ==> !v1.index.dom().contains(taker.id))
        }),
{
    let opp = taker.side.spec_opposite();
    let own = taker.side;
    let l0 = v0.ladder(opp);
    let (nl, rem, trades) = sweep::<Q>(l0, taker.side, taker.spec_price(), taker.id, taker.qty, ts);
    let v1 = BookView {
        index: v0.index.remove_keys(consumed_ids(l0, nl)),
        ..v0.with_ladder(opp, nl)
    };
    lemma_wf_ladder_distinct(v0, opp);
    lemma_sweep_laws::<Q>(l0, taker.side, taker.spec_price(), taker.id, taker.qty, ts);
    assert(v1.ladder(own) == v0.ladder(own));
    assert(v1.ladder(opp) == nl);
    // uncrossed
    assert(uncrossed(v1)) by {
        if v1.bids.len() > 0 && v1.asks.len() > 0 {
            if nl.len() > 0 {
                assert(!price_before(opp, nl[0].0, l0[0].0));
            }
        }
    }
    // index entries still point at their levels
    assert forall|id: OrderId| #[trigger] v1.index.dom().contains(id) implies exists|i: int|
        {
            &&& 0 <= i < v1.ladder(v1.index[id].0).len()
            &&& (#[trigger] v1.ladder(v1.index[id].0)[i]).0 == v1.index[id].1
            &&& contains_id(v1.ladder(v1.index[id].0)[i].1, id)
        } by {
        assert(v0.index.dom().contains(id));
        assert(v1.index[id] == v0.index[id]);
        let s = v0.index[id].0;
        let p = v0.index[id].1;
        lemma_side_total(s, own);
        let i = choose|i: int|
            {
                &&& 0 <= i < v0.ladder(s).len()
                &&& (#[trigger] v0.ladder(s)[i]).0 == p
                &&& contains_id(v0.ladder(s)[i].1, id)
            };
        if s == own {
            assert(v1.ladder(s) == v0.ladder(s));
            assert(0 <= i < v1.ladder(s).len() && v1.ladder(s)[i].0 == p && contains_id(
                v1.ladder(s)[i].1,
                id,
            ));
        } else {
            assert(s == opp);
            assert(ladder_contains_id(l0, id));
            assert(!consumed_ids(l0, nl).contains(id));
            assert(ladder_contains_id(nl, id));
            let j = choose|j: int| 0 <= j < nl.len() && contains_id(#[trigger] nl[j].1, id);
            let i2 = choose|i2: int|
                {
                    &&& 0 <= i2 < l0.len()
                    &&& l0[i2].0 == (#[trigger] nl[j]).0
                    &&& (forall|id2: OrderId| #[trigger]
                        contains_id(nl[j].1, id2) ==> contains_id(l0[i2].1, id2))
                };
            assert(contains_id(l0[i2].1, id));
            assert(i == i2) by {
                if i != i2 {
                    let k = choose|k: int| 0 <= k < l0[i].1.len() && l0[i].1[k].id == id;
                    let k2 = choose|k2: int| 0 <= k2 < l0[i2].1.len() && l0[i2].1[k2].id == id;
                    if i < i2 {
                        assert(l0[i].1[k].id != l0[i2].1[k2].id);
                    } else {
                        assert(l0[i2].1[k2].id != l0[i].1[k].id);
                    }
                }
            }
            assert(nl[j].0 == p);
            assert(0 <= j < v1.ladder(s).len() && v1.ladder(s)[j].0 == p && contains_id(
                v1.ladder(s)[j].1,
                id,
            ));
        }
    }
    // resting orders are still indexed correctly
    assert forall|side: Side, i: int, k: int|
        (0 <= i < v1.ladder(side).len() && 0 <= k < v1.ladder(side)[i].1.len()) implies {
        &&& v1.index.dom().contains((#[trigger] v1.ladder(side)[i].1[k]).id)
        &&& v1.index[v1.ladder(side)[i].1[k].id] == (side, v1.ladder(side)[i].0)
    } by {
        let id = v1.ladder(side)[i].1[k].id;
        lemma_side_total(side, own);
        if side == own {
            assert(v1.ladder(side) == v0.ladder(side));
            assert(v0.index.dom().contains(id) && v0.index[id] == (side, v0.ladder(side)[i].0));
            // an own-side id cannot rest on the opposite ladder, so it was not consumed
            assert(!ladder_contains_id(l0, id)) by {
                if ladder_contains_id(l0, id) {
                    let j = choose|j: int| 0 <= j < l0.len() && contains_id(#[trigger] l0[j].1, id);
                    let k2 = choose|k2: int| 0 <= k2 < l0[j].1.len() && l0[j].1[k2].id == id;
                    assert(v0.index[id] == (opp, l0[j].0));
                }
            }
            assert(!consumed_ids(l0, nl).contains(id));
        } else {
            assert(side == opp);
            assert(contains_id(nl[i].1, id)) by {
                assert(nl[i].1[k].id == id);
            }
            let i2 = choose|i2: int|
                {
                    &&& 0 <= i2 < l0.len()
                    &&& l0[i2].0 == (#[trigger] nl[i]).0
                    &&& (forall|id2: OrderId| #[trigger]
                        contains_id(nl[i].1, id2) ==> contains_id(l0[i2].1, id2))
                };
            assert(contains_id(l0[i2].1, id));
            let k2 = choose|k2: int| 0 <= k2 < l0[i2].1.len() && l0[i2].1[k2].id == id;
            assert(v0.index.dom().contains(id) && v0.index[id] == (opp, l0[i2].0));
            assert(ladder_contains_id(nl, id)) by {
                assert(contains_id(nl[i].1, id));
            }
            assert(ladder_contains_id(l0, id)) by {
                assert(contains_id(l0[i2].1, id));
            }
            assert(!consumed_ids(l0, nl).contains(id));
            assert(v1.index[id] == (side, nl[i].0));
        }
    }
    assert(wf_index(v1));
}

/// Resting a conforming residual order on its own ladder and indexing it
/// keeps the book well formed.
pub proof fn lemma_place_rest_wf(v1: BookView, side: Side, price: Price, residual: Order)
    requires
        wf_book(v1),
        residual.side == side,
        residual.order_type == (OrderType::Limit { price }),
        residual.qty > 0,
        price > 0,
        !v1.index.dom().contains(residual.id),
        match side {
            Side::Buy => v1.asks.len() > 0 ==> price < v1.asks[0].0,
            Side::Sell => v1.bids.len() > 0 ==> price > v1.bids[0].0,
        },
    ensures
        ({
            let v2 = BookView {
                index: v1.index.insert(residual.id, (side, price)),
                ..v1.with_ladder(side, rest_ladder(v1.ladder(side), side, price, residual))
            };
            wf_book(v2)
        }),
    decreases v1.ladder(side).len(),
{
    let l = v1.ladder(side);
    let nl = rest_ladder(l, side, price, residual);
    let v2 = BookView {
        index: v1.index.insert(residual.id, (side, price)),
        ..v1.with_ladder(side, nl)
    };
    let pos = lemma_first_not_before(l, side, price);
    lemma_rest_ladder_at(l, side, price, residual, pos);
    // orders of the new ladder conform and levels stay sorted
    if pos < l.len() && l[pos].0 == price {
        let updated = (price, l[pos].1.push(residual));
        assert(nl == l.update(pos, updated));
        assert(nl.len() == l.len());
        assert forall|i: int| 0 <= i < nl.len() && i != pos implies nl[i] == l[i] by {}
        assert(wf_ladder(nl, side)) by {
            assert forall|i: int| 0 <= i < nl.len() implies {
                &&& (#[trigger] nl[i]).1.len() > 0
                &&& all_qty_positive(nl[i].1)
                &&& nl[i].0 > 0
                &&& (forall|k: int|
                    0 <= k < nl[i].1.len() ==> {
                        &&& (#[trigger] nl[i].1[k]).side == side
                        &&& nl[i].1[k].order_type == (OrderType::Limit { price: nl[i].0 })
                    })
            } by {
                if i == pos {
                    assert forall|k: int| 0 <= k < nl[i].1.len() implies {
                        &&& (#[trigger] nl[i].1[k]).side == side
                        &&& nl[i].1[k].order_type == (OrderType::Limit { price: nl[i].0 })
                        &&& nl[i].1[k].qty > 0
                    } by {
                        if k < l[pos].1.len() {
                            assert(nl[i].1[k] == l[pos].1[k]);
                        } else {
                            assert(nl[i].1[k] == residual);
                        }
                    }
                }
            }
        }
        lemma_rest_wf_index_update(v1, v2, side, price, residual, pos);
    } else {
        assert(nl == l.insert(pos, (price, seq![residual])));
        assert(nl.len() == l.len() + 1);
        assert forall|i: int| 0 <= i < pos implies nl[i] == l[i] by {}
        assert forall|i: int| pos < i < nl.len() implies nl[i] == l[i - 1] by {}
        assert(nl[pos] == (price, seq![residual]));
        assert(wf_ladder(nl, side)) by {
            assert forall|i: int, j: int| 0 <= i < j < nl.len() implies price_before(
                side,
                #[trigger] nl[i].0,
                #[trigger] nl[j].0,
            ) by {
                if i == pos {
                    assert(nl[j] == l[j - 1]);
                    if j - 1 > pos {
                        assert(price_before(side, l[pos].0, l[j - 1].0));
                    }
                } else if j == pos {
                    assert(nl[i] == l[i]);
                } else if i < pos && j > pos {
                    assert(nl[i] == l[i] && nl[j] == l[j - 1]);
                    if i < j - 1 {
                        assert(price_before(side, l[i].0, l[j - 1].0));
                    }
                }
            }
            assert forall|i: int| 0 <= i < nl.len() implies {
                &&& (#[trigger] nl[i]).1.len() > 0
                &&& all_qty_positive(nl[i].1)
                &&& nl[i].0 > 0
                &&& (forall|k: int|
                    0 <= k < nl[i].1.len() ==> {
                        &&& (#[trigger] nl[i].1[k]).side == side
                        &&& nl[i].1[k].order_type == (OrderType::Limit { price: nl[i].0 })
                    })
            } by {
                if i == pos {
                    assert(nl[i].1 == seq![residual]);
                    assert(nl[i].1[0] == residual);
                }
            }
        }
        lemma_rest_wf_index_insert(v1, v2, side, price, residual, pos);
    }
    // the book stays uncrossed: the residual does not cross the other side
    assert(uncrossed(v2)) by {
        if v2.bids.len() > 0 && v2.asks.len() > 0 {
            match side {
                Side::Buy => {
                    assert(v2.asks == v1.asks);
                    assert(v2.bids == nl);
                    assert(nl[0].0 == price || nl[0].0 == l[0].0);
                }
                Side::Sell => {
                    assert(v2.bids == v1.bids);
                    assert(v2.asks == nl);
                    assert(nl[0].0 == price || nl[0].0 == l[0].0);
                }
            }
        }
    }
    assert(wf_book(v2));
}

/// Both sides are either equal or opposite.
pub proof fn lemma_side_total(a: Side, b: Side)
    ensures
        a == b || a == b.spec_opposite(),
{
    match a {
        Side::Buy => {
            match b {
                Side::Buy => {},
                Side::Sell => {},
            }
        },
        Side::Sell => {
            match b {
                Side::Buy => {},
                Side::Sell => {},
            }
        },
    }
}

/// The first position of a sorted ladder whose price is not strictly before
/// `price` (the ladder's length when all are).
proof fn lemma_first_not_before(l: LadderView, side: Side, price: Price) -> (pos: int)
    requires
        forall|i: int, j: int|
            0 <= i < j < l.len() ==> price_before(side, #[trigger] l[i].0, #[trigger] l[j].0),
    ensures
        0 <= pos <= l.len(),
        forall|j: int| 0 <= j < pos ==> price_before(side, (#[trigger] l[j]).0, price),
        pos < l.len() ==> !price_before(side, l[pos].0, price),
    decreases l.len(),
{
    if l.len() == 0 {
        0
    } else if !price_before(side, l[0].0, price) {
        0
    } else {
        let t = l.drop_first();
        assert forall|i: int, j: int| 0 <= i < j < t.len() implies price_before(
            side,
            #[trigger] t[i].0,
            #[trigger] t[j].0,
        ) by {
            assert(t[i] == l[i + 1] && t[j] == l[j + 1]);
        }
        let p2 = lemma_first_not_before(t, side, price);
        assert forall|j: int| 0 <= j < p2 + 1 implies price_before(
            side,
            (#[trigger] l[j]).0,
            price,
        ) by {
            if j > 0 {
                assert(l[j] == t[j - 1]);
            }
        }
        assert(p2 + 1 < l.len() ==> l[p2 + 1] == t[p2]);
        p2 + 1
    }
}

/// Index well-formedness after appending the residual to an existing level.
proof fn lemma_rest_wf_index_update(
    v1: BookView,
    v2: BookView,
    side: Side,
    price: Price,
    residual: Order,
    pos: int,
)
    requires
        wf_book(v1),
        !v1.index.dom().contains(residual.id),
        0 <= pos < v1.ladder(side).len(),
        v1.ladder(side)[pos].0 == price,
        v2.index == v1.index.insert(residual.id, (side, price)),
        v2.ladder(side) == v1.ladder(side).update(
            pos,
            (price, v1.ladder(side)[pos].1.push(residual)),
        ),
        v2.ladder(side.spec_opposite()) == v1.ladder(side.spec_opposite()),
    ensures
        wf_index(v2),
{
    let l = v1.ladder(side);
    let nl = v2.ladder(side);
    assert(nl.len() == l.len());
    assert forall|i: int| 0 <= i < nl.len() && i != pos implies nl[i] == l[i] by {}
    assert forall|id: OrderId| #[trigger] v2.index.dom().contains(id) implies exists|i: int|
        {
            &&& 0 <= i < v2.ladder(v2.index[id].0).len()
            &&& (#[trigger] v2.ladder(v2.index[id].0)[i]).0 == v2.index[id].1
            &&& contains_id(v2.ladder(v2.index[id].0)[i].1, id)
        } by {
        if id == residual.id {
            lemma_contains_id_push(l[pos].1, residual, id);
            assert(v2.index[id] == (side, price));
            assert(0 <= pos < v2.ladder(v2.index[id].0).len() && v2.ladder(v2.index[id].0)[pos].0
                == v2.index[id].1 && contains_id(v2.ladder(v2.index[id].0)[pos].1, id));
        } else {
            assert(v1.index.dom().contains(id));
            assert(v2.index[id] == v1.index[id]);
            let s = v1.index[id].0;
            let p = v1.index[id].1;
            lemma_side_total(s, side);
            let i = choose|i: int|
                {
                    &&& 0 <= i < v1.ladder(s).len()
                    &&& (#[trigger] v1.ladder(s)[i]).0 == p
                    &&& contains_id(v1.ladder(s)[i].1, id)
                };
            if s == side && i == pos {
                lemma_contains_id_push(l[pos].1, residual, id);
                assert(0 <= i < v2.ladder(v2.index[id].0).len() && v2.ladder(v2.index[id].0)[i].0
                    == v2.index[id].1 && contains_id(v2.ladder(v2.index[id].0)[i].1, id));
            } else {
                assert(v2.ladder(s)[i] == v1.ladder(s)[i]);
                assert(0 <= i < v2.ladder(v2.index[id].0).len() && v2.ladder(v2.index[id].0)[i].0
                    == v2.index[id].1 && contains_id(v2.ladder(v2.index[id].0)[i].1, id));
            }
        }
    }
    assert forall|s: Side, i: int, k: int|
        (0 <= i < v2.ladder(s).len() && 0 <= k < v2.ladder(s)[i].1.len()) implies {
        &&& v2.index.dom().contains((#[trigger] v2.ladder(s)[i].1[k]).id)
        &&& v2.index[v2.ladder(s)[i].1[k].id] == (s, v2.ladder(s)[i].0)
    } by {
        let id = v2.ladder(s)[i].1[k].id;
        lemma_side_total(s, side);
        if s == side && i == pos {
            if k < l[pos].1.len() {
                assert(v2.ladder(s)[i].1[k] == l[pos].1[k]);
                assert(v1.index[id] == (s, l[pos].0));
                assert(id != residual.id);
            } else {
                assert(v2.ladder(s)[i].1[k] == residual);
            }
        } else {
            assert(v2.ladder(s)[i] == v1.ladder(s)[i]);
            assert(v1.index[id] == (s, v1.ladder(s)[i].0));
            assert(id != residual.id);
        }
    }
    assert forall|s: Side, i: int| 0 <= i < v2.ladder(s).len() implies distinct_ids(
        #[trigger] v2.ladder(s)[i].1,
    ) by {
        lemma_side_total(s, side);
        if s == side && i == pos {
            let q = l[pos].1;
            let nq = q.push(residual);
            assert forall|a: int, b: int| 0 <= a < b < nq.len() implies nq[a].id != nq[b].id by {
                if b < q.len() {
                    assert(nq[a] == q[a] && nq[b] == q[b]);
                } else {
                    assert(nq[b] == residual);
                    assert(nq[a] == q[a]);
                    assert(v1.index.dom().contains(q[a].id));
                }
            }
        } else {
            assert(v2.ladder(s)[i] == v1.ladder(s)[i]);
        }
    }
}

/// Index well-formedness after creating a fresh level for the residual.
proof fn lemma_rest_wf_index_insert(
    v1: BookView,
    v2: BookView,
    side: Side,
    price: Price,
    residual: Order,
    pos: int,
)
    requires
        wf_book(v1),
        !v1.index.dom().contains(residual.id),
        0 <= pos <= v1.ladder(side).len(),
        v2.index == v1.index.insert(residual.id, (side, price)),
        v2.ladder(side) == v1.ladder(side).insert(pos, (price, seq![residual])),
        v2.ladder(side.spec_opposite()) == v1.ladder(side.spec_opposite()),
    ensures
        wf_index(v2),
{
    let l = v1.ladder(side);
    let nl = v2.ladder(side);
    assert(nl.len() == l.len() + 1);
    assert forall|i: int| 0 <= i < pos implies nl[i] == l[i] by {}
    assert forall|i: int| pos < i < nl.len() implies nl[i] == l[i - 1] by {}
    assert(nl[pos] == (price, seq![residual]));
    assert forall|id: OrderId| #[trigger] v2.index.dom().contains(id) implies exists|i: int|
        {
            &&& 0 <= i < v2.ladder(v2.index[id].0).len()
            &&& (#[trigger] v2.ladder(v2.index[id].0)[i]).0 == v2.index[id].1
            &&& contains_id(v2.ladder(v2.index[id].0)[i].1, id)
        } by {
        if id == residual.id {
            assert(contains_id(nl[pos].1, id)) by {
                assert(nl[pos].1[0].id == id);
            }
            assert(v2.index[id] == (side, price));
            assert(0 <= pos < v2.ladder(v2.index[id].0).len() && v2.ladder(v2.index[id].0)[pos].0
                == v2.index[id].1 && contains_id(v2.ladder(v2.index[id].0)[pos].1, id));
        } else {
            assert(v1.index.dom().contains(id));
            assert(v2.index[id] == v1.index[id]);
            let s = v1.index[id].0;
            let p = v1.index[id].1;
            lemma_side_total(s, side);
            let i = choose|i: int|
                {
                    &&& 0 <= i < v1.ladder(s).len()
                    &&& (#[trigger] v1.ladder(s)[i]).0 == p
                    &&& contains_id(v1.ladder(s)[i].1, id)
                };
            if s == side {
                let i2: int = if i < pos {
                    i
                } else {
                    i + 1
                };
                assert(v2.ladder(s)[i2] == v1.ladder(s)[i]);
                assert(0 <= i2 < v2.ladder(v2.index[id].0).len() && v2.ladder(v2.index[id].0)[i2].0
                    == v2.index[id].1 && contains_id(v2.ladder(v2.index[id].0)[i2].1, id));
            } else {
                assert(v2.ladder(s)[i] == v1.ladder(s)[i]);
                assert(0 <= i < v2.ladder(v2.index[id].0).len() && v2.ladder(v2.index[id].0)[i].0
                    == v2.index[id].1 && contains_id(v2.ladder(v2.index[id].0)[i].1, id));
            }
        }
    }
    assert forall|s: Side, i: int, k: int|
        (0 <= i < v2.ladder(s).len() && 0 <= k < v2.ladder(s)[i].1.len()) implies {
        &&& v2.index.dom().contains((#[trigger] v2.ladder(s)[i].1[k]).id)
        &&& v2.index[v2.ladder(s)[i].1[k].id] == (s, v2.ladder(s)[i].0)
    } by {
        let id = v2.ladder(s)[i].1[k].id;
        lemma_side_total(s, side);
        if s == side {
            if i == pos {
                assert(v2.ladder(s)[i].1[k] == residual);
            } else {
                let iorig: int = if i < pos {
                    i
                } else {
                    i - 1
                };
                assert(v2.ladder(s)[i] == v1.ladder(s)[iorig]);
                assert(v1.index[id] == (s, v1.ladder(s)[iorig].0));
                assert(id != residual.id);
            }
        } else {
            assert(v2.ladder(s)[i] == v1.ladder(s)[i]);
            assert(v1.index[id] == (s, v1.ladder(s)[i].0));
            assert(id != residual.id);
        }
    }
    assert forall|s: Side, i: int| 0 <= i < v2.ladder(s).len() implies distinct_ids(
        #[trigger] v2.ladder(s)[i].1,
    ) by {
        lemma_side_total(s, side);
        if s == side {
            if i == pos {
                assert(v2.ladder(s)[i].1 == seq![residual]);
            } else {
                let iorig: int = if i < pos {
                    i
                } else {
                    i - 1
                };
                assert(v2.ladder(s)[i] == v1.ladder(s)[iorig]);
            }
        } else {
            assert(v2.ladder(s)[i] == v1.ladder(s)[i]);
        }
    }
}

impl<Q: QueueDiscipline> OrderBook<Q> {
    /// Place an order: validate it, match it against the opposite ladder
    /// best-price-first, and rest any residual limit quantity on its own
    /// ladder. The book and the result land exactly where the `place_spec`
    /// transition puts them; trades appear in the order the levels were swept.
    #[verifier::rlimit(100)]
    pub fn place(&mut self, order: Order) -> (r: Result<Vec<Trade>, EngineError>)
        requires
            old(self).wf(),
        ensures
            final(self).wf(),
            ({
                let (nv, outcome) = place_spec::<Q>(old(self).book_view(), order);
                &&& final(self).book_view() == nv
                &&& (match outcome {
                    PlaceOutcome::Refused(e) => r == Err::<Vec<Trade>, EngineError>(e),
                    PlaceOutcome::Accepted(ts) => r matches Ok(v) && v@ == ts,
                })
            }),
    {
        let ghost v0 = self.book_view();
        // validation
        if order.qty == 0 {
            return Err(EngineError::InvalidQty { qty: order.qty });
        }
        match order.order_type {
            OrderType::Limit { price } => {
                if price == 0 {
                    return Err(EngineError::InvalidPrice { price: 0 });
                }
            },
            OrderType::Market => {},
        }
        if self.index.contains_key(&order.id) {
            return Err(EngineError::DuplicateOrderId { order_id: order.id });
        }
        let opposite_empty = match order.side {
            Side::Buy => self.asks.len() == 0,
            Side::Sell => self.bids.len() == 0,
        };
        if !order.is_limit() && opposite_empty {
            proof {
                assert(v0.ladder(order.side.spec_opposite()).len() == 0);
            }
            return Err(EngineError::NoLiquidity);
        }
        match order.order_type {
            OrderType::Limit { price } => {
                let own_qty = match order.side {
                    Side::Buy => Self::level_qty(&self.bids, Side::Buy, price),
                    Side::Sell => Self::level_qty(&self.asks, Side::Sell, price),
                };
                if own_qty > u64::MAX - order.qty {
                    return Err(EngineError::QtyTooLarge { qty: order.qty, max_qty: u64::MAX });
                }
            },
            OrderType::Market => {},
        }
        proof {
            assert(place_error(v0, order) is None);
            lemma_wf_ladder_distinct(v0, order.side.spec_opposite());
            lemma_place_sweep_wf::<Q>(v0, order, order.ts);
        }

        // match against the opposite ladder, best price first
        let limit_price = order.price();
        let sweep_result = match order.side {
            Side::Buy => Self::sweep_ladder(
                &mut self.asks,
                &mut self.index,
                order.side,
                limit_price,
                order.id,
                order.qty,
                order.ts,
            ),
            Side::Sell => Self::sweep_ladder(
                &mut self.bids,
                &mut self.index,
                order.side,
                limit_price,
                order.id,
                order.qty,
                order.ts,
            ),
        };
        let rem = sweep_result.0;
        let trades = sweep_result.1;

        let ghost opp = order.side.spec_opposite();
        let ghost l0 = v0.ladder(opp);
        let ghost swept = sweep::<Q>(l0, order.side, order.spec_price(), order.id, order.qty, order.ts);
        let ghost v1 = BookView {
            index: v0.index.remove_keys(consumed_ids(l0, swept.0)),
            ..v0.with_ladder(opp, swept.0)
        };
        proof {
            lemma_sweep_laws::<Q>(l0, order.side, order.spec_price(), order.id, order.qty, order.ts);
            assert(self.book_view() =~= v1);
        }

        // rest the residual limit quantity on the own ladder
        if rem > 0 {
            match order.order_type {
                OrderType::Limit { price } => {
                    let residual = Order { qty: rem, ..order };
                    proof {
                        assert(v1.ladder(order.side) == v0.ladder(order.side));
                        assert(level_qty_at(v1.ladder(order.side), price) + residual.qty
                            <= u64::MAX);
                        assert(match order.side {
                            Side::Buy => v1.asks.len() > 0 ==> price < v1.asks[0].0,
                            Side::Sell => v1.bids.len() > 0 ==> price > v1.bids[0].0,
                        }) by {
                            if swept.0.len() > 0 {
                                assert(!crosses(order.side, order.spec_price(), swept.0[0].0));
                            }
                        }
                        lemma_place_rest_wf(v1, order.side, price, residual);
                    }
                    match order.side {
                        Side::Buy => Self::rest_on_ladder(
                            &mut self.bids,
                            &mut self.index,
                            Side::Buy,
                            price,
                            residual,
                        ),
                        Side::Sell => Self::rest_on_ladder(
                            &mut self.asks,
                            &mut self.index,
                            Side::Sell,
                            price,
                            residual,
                        ),
                    }
                    proof {
                        let v2 = BookView {
                            index: v1.index.insert(order.id, (order.side, price)),
                            ..v1.with_ladder(
                                order.side,
                                rest_ladder(v1.ladder(order.side), order.side, price, residual),
                            )
                        };
                        assert(self.book_view() =~= v2);
                    }
                },
                OrderType::Market => {},
            }
        }
        Ok(trades)
    }
}

/// Cancelling at the first level with `price` is an in-place queue removal,
/// dropping the level when it empties.
proof fn lemma_cancel_ladder_at(l: LadderView, price: Price, id: OrderId, pos: int)
    requires
        0 <= pos < l.len(),
        l[pos].0 == price,
        forall|j: int| 0 <= j < pos ==> (#[trigger] l[j]).0 != price,
    ensures
        remove_id(l[pos].1, id).len() == 0 ==> cancel_ladder(l, price, id) == l.remove(pos),
        remove_id(l[pos].1, id).len() > 0 ==> cancel_ladder(l, price, id) == l.update(
            pos,
            (price, remove_id(l[pos].1, id)),
        ),
    decreases pos,
{
    if pos == 0 {
        if remove_id(l[0].1, id).len() == 0 {
            assert(cancel_ladder(l, price, id) =~= l.remove(0));
        } else {
            assert(cancel_ladder(l, price, id) =~= l.update(0, (price, remove_id(l[0].1, id))));
        }
    } else {
        let t = l.drop_first();
        assert(forall|j: int| 0 <= j < pos - 1 ==> (#[trigger] t[j]) == l[j + 1]);
        assert(t[pos - 1] == l[pos]);
        lemma_cancel_ladder_at(t, price, id, pos - 1);
        if remove_id(l[pos].1, id).len() == 0 {
            assert(cancel_ladder(l, price, id) =~= l.remove(pos));
        } else {
            assert(cancel_ladder(l, price, id) =~= l.update(pos, (price, remove_id(l[pos].1, id))));
        }
    }
}

/// The cancelled quantity at the first level with `price`.
proof fn lemma_level_qty_of_id_at(l: LadderView, price: Price, id: OrderId, pos: int)
    requires
        0 <= pos < l.len(),
        l[pos].0 == price,
        forall|j: int| 0 <= j < pos ==> (#[trigger] l[j]).0 != price,
    ensures
        level_qty_of_id(l, price, id) == qty_of_id(l[pos].1, id),
    decreases pos,
{
    if pos > 0 {
        let t = l.drop_first();
        assert(forall|j: int| 0 <= j < pos - 1 ==> (#[trigger] t[j]) == l[j + 1]);
        assert(t[pos - 1] == l[pos]);
        lemma_level_qty_of_id_at(t, price, id, pos - 1);
    }
}

/// Membership in a queue after removing one position.
proof fn lemma_contains_id_remove(s: Seq<Order>, i: int, id: OrderId)
    requires
        0 <= i < s.len(),
    ensures
        contains_id(s, id) && s[i].id != id ==> contains_id(s.remove(i), id),
        contains_id(s.remove(i), id) ==> contains_id(s, id),
{
    if contains_id(s, id) && s[i].id != id {
        let k = choose|k: int| 0 <= k < s.len() && s[k].id == id;
        if k < i {
            assert(s.remove(i)[k].id == id);
        } else {
            assert(s.remove(i)[k - 1].id == id);
        }
    }
    if contains_id(s.remove(i), id) {
        let k = choose|k: int| 0 <= k < s.remove(i).len() && s.remove(i)[k].id == id;
        if k < i {
            assert(s[k].id == id);
        } else {
            assert(s[k + 1].id == id);
        }
    }
}

/// Cancelling an indexed order keeps the book well formed; the order's id
/// leaves the index.
#[verifier::rlimit(100)]
pub proof fn lemma_cancel_wf(v: BookView, order_id: OrderId)
    requires
        wf_book(v),
        v.index.dom().contains(order_id),
    ensures
        ({
            let (nv, out) = cancel_spec(v, order_id);
            &&& wf_book(nv)
            &&& !nv.index.dom().contains(order_id)
            &&& out is Some
        }),
{
    let side = v.index[order_id].0;
    let price = v.index[order_id].1;
    let l = v.ladder(side);
    let (nv, out) = cancel_spec(v, order_id);
    let nl = cancel_ladder(l, price, order_id);
    let i0 = choose|i: int|
        {
            &&& 0 <= i < v.ladder(v.index[order_id].0).len()
            &&& (#[trigger] v.ladder(v.index[order_id].0)[i]).0 == v.index[order_id].1
            &&& contains_id(v.ladder(v.index[order_id].0)[i].1, order_id)
        };
    assert(l[i0].0 == price && contains_id(l[i0].1, order_id));
    assert forall|j: int| 0 <= j < i0 implies (#[trigger] l[j]).0 != price by {
        if j < i0 {
            assert(price_before(side, l[j].0, l[i0].0));
        }
    }
    lemma_cancel_ladder_at(l, price, order_id, i0);
    let q = l[i0].1;
    let kq = choose|k: int| 0 <= k < q.len() && q[k].id == order_id;
    assert forall|j: int| 0 <= j < kq implies q[j].id != order_id by {
        if q[j].id == order_id {
            assert(distinct_ids(q));
        }
    }
    lemma_remove_id_at(q, order_id, kq);
    let nq = remove_id(l[i0].1, order_id);
    assert(nq == q.remove(kq));
    // the reduced queue keeps conformity, distinctness, and excludes the id
    assert forall|k: int| 0 <= k < nq.len() implies {
        &&& (#[trigger] nq[k]).side == side
        &&& nq[k].order_type == (OrderType::Limit { price })
        &&& nq[k].qty > 0
        &&& nq[k].id != order_id
    } by {
        if k < kq {
            assert(nq[k] == q[k]);
            assert(q[k].id != order_id);
        } else {
            assert(nq[k] == q[k + 1]);
            assert(q[k + 1].id != order_id) by {
                assert(distinct_ids(q));
            }
        }
    }
    assert(distinct_ids(nq)) by {
        assert forall|a: int, b: int| 0 <= a < b < nq.len() implies nq[a].id != nq[b].id by {
            let a2: int = if a < kq {
                a
            } else {
                a + 1
            };
            let b2: int = if b < kq {
                b
            } else {
                b + 1
            };
            assert(nq[a] == q[a2] && nq[b] == q[b2]);
        }
    }
    if nq.len() == 0 {
        assert(nl == l.remove(i0));
        assert forall|i: int| 0 <= i < i0 implies nl[i] == l[i] by {}
        assert forall|i: int| i0 <= i < nl.len() implies nl[i] == l[i + 1] by {}
        assert(wf_ladder(nl, side));
    } else {
        assert(nl == l.update(i0, (price, nq)));
        assert forall|i: int| 0 <= i < nl.len() && i != i0 implies nl[i] == l[i] by {}
        assert(wf_ladder(nl, side));
    }
    // the surviving front is no better than the old one
    assert(nl.len() > 0 ==> l.len() > 0 && !price_before(side, nl[0].0, l[0].0)) by {
        if nl.len() > 0 {
            if nq.len() == 0 {
                if i0 == 0 {
                    assert(l.len() >= 2);
                    assert(nl[0] == l[1]);
                    assert(price_before(side, l[0].0, l[1].0));
                } else {
                    assert(nl[0] == l[0]);
                }
            } else {
                if i0 == 0 {
                    assert(nl[0].0 == price && l[0].0 == price);
                } else {
                    assert(nl[0] == l[0]);
                }
            }
        }
    }
    assert(uncrossed(nv)) by {
        lemma_side_total(side, Side::Buy);
        if nv.bids.len() > 0 && nv.asks.len() > 0 {
            if side == Side::Buy {
                assert(nv.asks == v.asks && nv.bids == nl);
            } else {
                assert(nv.bids == v.bids && nv.asks == nl);
            }
        }
    }
    lemma_cancel_wf_index(v, nv, order_id, side, price, i0, nq);
    assert(wf_book(nv));
}

/// Index well-formedness after a cancel.
#[verifier::rlimit(100)]
proof fn lemma_cancel_wf_index(
    v: BookView,
    nv: BookView,
    order_id: OrderId,
    side: Side,
    price: Price,
    i0: int,
    nq: Seq<Order>,
)
    requires
        wf_book(v),
        v.index.dom().contains(order_id),
        v.index[order_id] == (side, price),
        0 <= i0 < v.ladder(side).len(),
        v.ladder(side)[i0].0 == price,
        contains_id(v.ladder(side)[i0].1, order_id),
        nq == remove_id(v.ladder(side)[i0].1, order_id),
        forall|k: int| 0 <= k < nq.len() ==> (#[trigger] nq[k]).id != order_id,
        forall|id: OrderId| #[trigger]
            contains_id(nq, id) ==> contains_id(v.ladder(side)[i0].1, id),
        distinct_ids(nq),
        nv.index == v.index.remove(order_id),
        nq.len() == 0 ==> nv.ladder(side) == v.ladder(side).remove(i0),
        nq.len() > 0 ==> nv.ladder(side) == v.ladder(side).update(i0, (price, nq)),
        nv.ladder(side.spec_opposite()) == v.ladder(side.spec_opposite()),
    ensures
        wf_index(nv),
{
    let l = v.ladder(side);
    let q = l[i0].1;
    assert forall|id: OrderId| #[trigger] nv.index.dom().contains(id) implies exists|i: int|
        {
            &&& 0 <= i < nv.ladder(nv.index[id].0).len()
            &&& (#[trigger] nv.ladder(nv.index[id].0)[i]).0 == nv.index[id].1
            &&& contains_id(nv.ladder(nv.index[id].0)[i].1, id)
        } by {
        assert(id != order_id);
        assert(v.index.dom().contains(id) && nv.index[id] == v.index[id]);
        let s = v.index[id].0;
        let p = v.index[id].1;
        lemma_side_total(s, side);
        let i = choose|i: int|
            {
                &&& 0 <= i < v.ladder(s).len()
                &&& (#[trigger] v.ladder(s)[i]).0 == p
                &&& contains_id(v.ladder(s)[i].1, id)
            };
        if s == side {
            if i == i0 {
                let kq = choose|k: int| 0 <= k < q.len() && q[k].id == order_id;
                assert(nq =~= q.remove(kq)) by {
                    assert forall|j: int| 0 <= j < kq implies q[j].id != order_id by {
                        if q[j].id == order_id {
                            assert(distinct_ids(q));
                        }
                    }
                    lemma_remove_id_at(q, order_id, kq);
                }
                lemma_contains_id_remove(q, kq, id);
                assert(contains_id(nq, id));
                assert(nq.len() > 0);
                assert(nv.ladder(nv.index[id].0)[i0] == (price, nq));
                assert(0 <= i0 < nv.ladder(nv.index[id].0).len() && nv.ladder(
                    nv.index[id].0,
                )[i0].0 == nv.index[id].1 && contains_id(nv.ladder(nv.index[id].0)[i0].1, id));
            } else {
                if nq.len() == 0 {
                    let i2: int = if i < i0 {
                        i
                    } else {
                        i - 1
                    };
                    assert(nv.ladder(s)[i2] == v.ladder(s)[i]);
                    assert(0 <= i2 < nv.ladder(nv.index[id].0).len() && nv.ladder(
                        nv.index[id].0,
                    )[i2].0 == nv.index[id].1 && contains_id(nv.ladder(nv.index[id].0)[i2].1, id));
                } else {
                    assert(nv.ladder(s)[i] == v.ladder(s)[i]);
                    assert(0 <= i < nv.ladder(nv.index[id].0).len() && nv.ladder(
                        nv.index[id].0,
                    )[i].0 == nv.index[id].1 && contains_id(nv.ladder(nv.index[id].0)[i].1, id));
                }
            }
        } else {
            assert(nv.ladder(s) == v.ladder(s));
            assert(0 <= i < nv.ladder(nv.index[id].0).len() && nv.ladder(nv.index[id].0)[i].0
                == nv.index[id].1 && contains_id(nv.ladder(nv.index[id].0)[i].1, id));
        }
    }
    assert forall|s: Side, i: int, k: int|
        (0 <= i < nv.ladder(s).len() && 0 <= k < nv.ladder(s)[i].1.len()) implies {
        &&& nv.index.dom().contains((#[trigger] nv.ladder(s)[i].1[k]).id)
        &&& nv.index[nv.ladder(s)[i].1[k].id] == (s, nv.ladder(s)[i].0)
    } by {
        let id = nv.ladder(s)[i].1[k].id;
        lemma_side_total(s, side);
        if s == side {
            if nq.len() == 0 {
                let iorig: int = if i < i0 {
                    i
                } else {
                    i + 1
                };
                assert(nv.ladder(s)[i] == l[iorig]);
                assert(v.index[id] == (s, l[iorig].0));
                assert(id != order_id) by {
                    if id == order_id {
                        assert(contains_id(l[iorig].1, order_id)) by {
                            assert(l[iorig].1[k].id == order_id);
                        }
                        assert(iorig != i0);
                        let kk = choose|kk: int|
                            0 <= kk < l[iorig].1.len() && l[iorig].1[kk].id == order_id;
                        let kk0 = choose|kk0: int|
                            0 <= kk0 < l[i0].1.len() && l[i0].1[kk0].id == order_id;
                        lemma_wf_ladder_distinct(v, side);
                        if iorig < i0 {
                            assert(l[iorig].1[kk].id != l[i0].1[kk0].id);
                        } else {
                            assert(l[i0].1[kk0].id != l[iorig].1[kk].id);
                        }
                    }
                }
            } else {
                if i == i0 {
                    assert(nv.ladder(s)[i0].1 == nq);
                    assert(nq[k].id != order_id);
                    assert(contains_id(q, id)) by {
                        assert(contains_id(nq, id)) by {
                            assert(nq[k].id == id);
                        }
                    }
                    let k2 = choose|k2: int| 0 <= k2 < q.len() && q[k2].id == id;
                    assert(v.index[id] == (s, l[i0].0));
                } else {
                    assert(nv.ladder(s)[i] == l[i]);
                    assert(v.index[id] == (s, l[i].0));
                    assert(id != order_id) by {
                        if id == order_id {
                            assert(contains_id(l[i].1, order_id)) by {
                                assert(l[i].1[k].id == order_id);
                            }
                            let kk = choose|kk: int|
                                0 <= kk < l[i].1.len() && l[i].1[kk].id == order_id;
                            let kk0 = choose|kk0: int|
                                0 <= kk0 < l[i0].1.len() && l[i0].1[kk0].id == order_id;
                            lemma_wf_ladder_distinct(v, side);
                            if i < i0 {
                                assert(l[i].1[kk].id != l[i0].1[kk0].id);
                            } else {
                                assert(l[i0].1[kk0].id != l[i].1[kk].id);
                            }
                        }
                    }
                }
            }
        } else {
            assert(nv.ladder(s) == v.ladder(s));
            assert(v.index[id] == (s, v.ladder(s)[i].0));
            assert(id != order_id) by {
                if id == order_id {
                    assert(v.index[order_id] == (side, price));
                }
            }
        }
    }
    assert forall|s: Side, i: int| 0 <= i < nv.ladder(s).len() implies distinct_ids(
        #[trigger] nv.ladder(s)[i].1,
    ) by {
        lemma_side_total(s, side);
        if s == side {
            if nq.len() == 0 {
                let iorig: int = if i < i0 {
                    i
                } else {
                    i + 1
                };
                assert(nv.ladder(s)[i] == l[iorig]);
            } else if i == i0 {
                assert(nv.ladder(s)[i].1 == nq);
            } else {
                assert(nv.ladder(s)[i] == l[i]);
            }
        } else {
            assert(nv.ladder(s) == v.ladder(s));
        }
    }
}

impl<Q: QueueDiscipline> OrderBook<Q> {
    /// Remove the order with `order_id` from the level at `price`, dropping
    /// the level when it empties. Returns the cancelled quantity.
    fn cancel_on_ladder(
        ladder: &mut Vec<(Price, Q)>,
        side: Side,
        price: Price,
        order_id: OrderId,
        ts: u128,
    ) -> (r: Qty)
        requires
            forall|i: int| 0 <= i < old(ladder)@.len() ==> (#[trigger] old(ladder)@[i]).1.inv(),
            wf_ladder(Self::ladder_of(old(ladder)@), side),
            exists|i: int|
                {
                    &&& 0 <= i < Self::ladder_of(old(ladder)@).len()
                    &&& (#[trigger] Self::ladder_of(old(ladder)@)[i]).0 == price
                    &&& contains_id(Self::ladder_of(old(ladder)@)[i].1, order_id)
                },
        ensures
            forall|i: int| 0 <= i < final(ladder)@.len() ==> (#[trigger] final(ladder)@[i]).1.inv(),
            Self::ladder_of(final(ladder)@) == cancel_ladder(
                Self::ladder_of(old(ladder)@),
                price,
                order_id,
            ),
            r == level_qty_of_id(Self::ladder_of(old(ladder)@), price, order_id),
    {
        let ghost lv = Self::ladder_of(ladder@);
        let pos = Self::find_pos(ladder, side, price);
        proof {
            let i = choose|i: int|
                {
                    &&& 0 <= i < lv.len()
                    &&& (#[trigger] lv[i]).0 == price
                    &&& contains_id(lv[i].1, order_id)
                };
            assert(i >= pos) by {
                if i < pos {
                    assert(price_before(side, lv[i].0, price));
                }
            }
            assert(i == pos) by {
                if i > pos {
                    assert(price_before(side, lv[pos as int].0, lv[i].0));
                }
            }
            assert forall|j: int| 0 <= j < pos implies (#[trigger] lv[j]).0 != price by {
                assert(price_before(side, lv[j].0, price));
            }
            lemma_cancel_ladder_at(lv, price, order_id, pos as int);
            lemma_level_qty_of_id_at(lv, price, order_id, pos as int);
            assert(lv[pos as int].1 == ladder@[pos as int].1.orders());
        }
        let entry = ladder.remove(pos);
        let lp = entry.0;
        let mut level = entry.1;
        let cancelled = level.cancel(order_id, ts);
        if !level.is_empty() {
            ladder.insert(pos, (lp, level));
            proof {
                assert(Self::ladder_of(ladder@) =~= lv.update(
                    pos as int,
                    (price, remove_id(lv[pos as int].1, order_id)),
                ));
            }
        } else {
            proof {
                assert(Self::ladder_of(ladder@) =~= lv.remove(pos as int));
            }
        }
        cancelled
    }

    /// Cancel a resting order by id: remove it from its level (dropping the
    /// level when emptied) and from the index, returning the cancelled
    /// quantity. Cancelling an unknown id fails with `UnknownOrder` and
    /// leaves the book unchanged, so a second cancel of the same id always
    /// reports `UnknownOrder`.
    pub fn cancel(&mut self, order_id: OrderId, ts: u128) -> (r: Result<Qty, EngineError>)
        requires
            old(self).wf(),
        ensures
            final(self).wf(),
            ({
                let (nv, out) = cancel_spec(old(self).book_view(), order_id);
                &&& final(self).book_view() == nv
                &&& (match out {
                    Option::None => r == Err::<Qty, EngineError>(
                        EngineError::UnknownOrder { order_id },
                    ),
                    Option::Some(q) => r == Ok::<Qty, EngineError>(q),
                })
            }),
            !final(self).book_view().index.dom().contains(order_id),
    {
        let ghost v0 = self.book_view();
        let entry = match self.index.get(&order_id) {
            Option::None => {
                return Err(EngineError::UnknownOrder { order_id });
            },
            Option::Some(sp) => *sp,
        };
        let side = entry.0;
        let price = entry.1;
        proof {
            assert(v0.index[order_id] == (side, price));
            lemma_cancel_wf(v0, order_id);
        }
        let cancelled = match side {
            Side::Buy => Self::cancel_on_ladder(&mut self.bids, Side::Buy, price, order_id, ts),
            Side::Sell => Self::cancel_on_ladder(&mut self.asks, Side::Sell, price, order_id, ts),
        };
        self.index.remove(&order_id);
        proof {
            assert(self.book_view() =~= cancel_spec(v0, order_id).0);
        }
        Ok(cancelled)
    }
}

/// The spec transition of `modify`: an unknown id, a zero quantity or a
/// zero price is refused; a strict size decrease at an unchanged price keeps
/// queue priority and adjusts the quantity in place; any price change or
/// size increase loses priority — the order is cancelled and re-placed at
/// the tail of the destination level (matching on the way when it crosses).
pub open spec fn modify_spec<Q: QueueDiscipline>(
    v: BookView,
    order_id: OrderId,
    new_qty: Option<Qty>,
    new_price: Option<Price>,
    ts: u128,
) -> (BookView, PlaceOutcome) {
    if !v.index.dom().contains(order_id) {
        (v, PlaceOutcome::Refused(EngineError::UnknownOrder { order_id }))
    } else if new_qty == Some(0u64) {
        (v, PlaceOutcome::Refused(EngineError::InvalidQty { qty: 0 }))
    } else if new_price == Some(0u64) {
        (v, PlaceOutcome::Refused(EngineError::InvalidPrice { price: 0 }))
    } else {
        let side = v.index[order_id].0;
        let old_price = v.index[order_id].1;
        let cur_qty = level_qty_of_id(v.ladder(side), old_price, order_id);
        let target_price = if new_price is Some {
            new_price->0
        } else {
            old_price
        };
        let target_qty = if new_qty is Some {
            new_qty->0
        } else {
            cur_qty
        };
        if target_price == old_price && target_qty < cur_qty {
            let nv = v.with_ladder(
                side,
                set_qty_ladder(v.ladder(side), old_price, order_id, target_qty),
            );
            (nv, PlaceOutcome::Accepted(Seq::<Trade>::empty()))
        } else if level_qty_at(v.ladder(side), target_price) + target_qty > u64::MAX {
            (v, PlaceOutcome::Refused(EngineError::QtyTooLarge { qty: target_qty, max_qty: u64::MAX }))
        } else {
            let v1 = cancel_spec(v, order_id).0;
            let replacement = Order {
                id: order_id,
                side,
                qty: target_qty,
                order_type: OrderType::Limit { price: target_price },
                ts,
            };
            place_spec::<Q>(v1, replacement)
        }
    }
}

/// Setting a quantity at the first level with `price` is an in-place queue
/// update.
proof fn lemma_set_qty_ladder_at(l: LadderView, price: Price, id: OrderId, new_qty: Qty, pos: int)
    requires
        0 <= pos < l.len(),
        l[pos].0 == price,
        forall|j: int| 0 <= j < pos ==> (#[trigger] l[j]).0 != price,
    ensures
        set_qty_ladder(l, price, id, new_qty) == l.update(
            pos,
            (price, update_qty_id(l[pos].1, id, new_qty)),
        ),
    decreases pos,
{
    if pos == 0 {
        assert(set_qty_ladder(l, price, id, new_qty) =~= l.update(
            0,
            (price, update_qty_id(l[0].1, id, new_qty)),
        ));
    } else {
        let t = l.drop_first();
        assert(forall|j: int| 0 <= j < pos - 1 ==> (#[trigger] t[j]) == l[j + 1]);
        assert(t[pos - 1] == l[pos]);
        lemma_set_qty_ladder_at(t, price, id, new_qty, pos - 1);
        assert(set_qty_ladder(l, price, id, new_qty) =~= l.update(
            pos,
            (price, update_qty_id(l[pos].1, id, new_qty)),
        ));
    }
}

/// An indexed order has positive quantity and a positive level price.
pub proof fn lemma_indexed_order_facts(v: BookView, order_id: OrderId)
    requires
        wf_book(v),
        v.index.dom().contains(order_id),
    ensures
        level_qty_of_id(v.ladder(v.index[order_id].0), v.index[order_id].1, order_id) > 0,
        v.index[order_id].1 > 0,
    decreases v.ladder(v.index[order_id].0).len(),
{
    let side = v.index[order_id].0;
    let price = v.index[order_id].1;
    let l = v.ladder(side);
    let i0 = choose|i: int|
        {
            &&& 0 <= i < v.ladder(v.index[order_id].0).len()
            &&& (#[trigger] v.ladder(v.index[order_id].0)[i]).0 == v.index[order_id].1
            &&& contains_id(v.ladder(v.index[order_id].0)[i].1, order_id)
        };
    assert forall|j: int| 0 <= j < i0 implies (#[trigger] l[j]).0 != price by {
        assert(price_before(side, l[j].0, l[i0].0));
    }
    lemma_level_qty_of_id_at(l, price, order_id, i0);
    let q = l[i0].1;
    let kq = choose|k: int| 0 <= k < q.len() && q[k].id == order_id;
    assert forall|j: int| 0 <= j < kq implies q[j].id != order_id by {
        if q[j].id == order_id {
            assert(distinct_ids(q));
        }
    }
    lemma_remove_id_at(q, order_id, kq);
    assert(qty_of_id(q, order_id) == q[kq].qty);
}

/// The quantity sum over `seq![o] + s` splits off `o.qty`.
proof fn lemma_qty_sum_cons(o: Order, s: Seq<Order>)
    ensures
        qty_sum(seq![o] + s) == o.qty + qty_sum(s),
{
    assert((seq![o] + s).drop_first() =~= s);
    assert((seq![o] + s)[0] == o);
}

/// Removing an order by id never increases the quantity sum.
proof fn lemma_qty_sum_remove_id_le(s: Seq<Order>, id: OrderId)
    ensures
        qty_sum(remove_id(s, id)) <= qty_sum(s),
    decreases s.len(),
{
    if s.len() > 0 {
        if s[0].id == id {
            crate::queue_fifo::lemma_qty_sum_nonneg(s.drop_first());
        } else {
            lemma_qty_sum_cons(s[0], remove_id(s.drop_first(), id));
            lemma_qty_sum_remove_id_le(s.drop_first(), id);
        }
    }
}

/// Cancelling one order never increases any level's quantity (ladder prices
/// distinct).
proof fn lemma_cancel_level_qty_le(l: LadderView, p0: Price, id: OrderId, p: Price)
    requires
        forall|i: int, j: int| 0 <= i < j < l.len() ==> (#[trigger] l[i]).0 != (#[trigger] l[j]).0,
    ensures
        level_qty_at(cancel_ladder(l, p0, id), p) <= level_qty_at(l, p),
    decreases l.len(),
{
    if l.len() > 0 {
        let t = l.drop_first();
        assert forall|i: int, j: int| 0 <= i < j < t.len() implies (#[trigger] t[i]).0 != (
        #[trigger] t[j]).0 by {
            assert(t[i] == l[i + 1] && t[j] == l[j + 1]);
        }
        if l[0].0 == p0 {
            let nq = remove_id(l[0].1, id);
            lemma_qty_sum_remove_id_le(l[0].1, id);
            if nq.len() == 0 {
                if p == p0 {
                    assert forall|j: int| 0 <= j < t.len() implies (#[trigger] t[j]).0 != p by {
                        assert(t[j] == l[j + 1]);
                    }
                    lemma_level_qty_at_absent(t, p);
                    crate::queue_fifo::lemma_qty_sum_nonneg(l[0].1);
                } else {
                    assert(level_qty_at(cancel_ladder(l, p0, id), p) == level_qty_at(t, p));
                }
            } else {
                let nl = seq![(p0, nq)] + t;
                assert(nl[0] == (p0, nq));
                assert(nl.drop_first() =~= t);
                if p == p0 {
                    assert(level_qty_at(nl, p) == qty_sum(nq));
                } else {
                    assert(level_qty_at(nl, p) == level_qty_at(t, p));
                }
            }
        } else {
            let nl = seq![l[0]] + cancel_ladder(t, p0, id);
            assert(nl[0] == l[0]);
            assert(nl.drop_first() =~= cancel_ladder(t, p0, id));
            if p == l[0].0 {
                assert(level_qty_at(nl, p) == qty_sum(l[0].1));
            } else {
                lemma_cancel_level_qty_le(t, p0, id, p);
            }
        }
    }
}

/// The quantity of any single resting order is at most the queue's sum.
proof fn lemma_qty_of_id_le_sum(s: Seq<Order>, id: OrderId)
    ensures
        qty_of_id(s, id) <= qty_sum(s),
    decreases s.len(),
{
    if s.len() > 0 {
        crate::queue_fifo::lemma_qty_sum_nonneg(s.drop_first());
        if s[0].id != id {
            lemma_qty_of_id_le_sum(s.drop_first(), id);
        }
    }
}

/// Level quantities are nonnegative.
proof fn lemma_level_qty_at_nonneg(l: LadderView, p: Price)
    ensures
        level_qty_at(l, p) >= 0,
    decreases l.len(),
{
    if l.len() > 0 {
        if l[0].0 == p {
            crate::queue_fifo::lemma_qty_sum_nonneg(l[0].1);
        } else {
            lemma_level_qty_at_nonneg(l.drop_first(), p);
        }
    }
}

/// Replacing an indexed order's quantity in place (with a positive value)
/// keeps the book well formed.
#[verifier::rlimit(100)]
pub proof fn lemma_set_qty_wf(v: BookView, order_id: OrderId, target_qty: Qty)
    requires
        wf_book(v),
        v.index.dom().contains(order_id),
        target_qty > 0,
    ensures
        ({
            let side = v.index[order_id].0;
            let old_price = v.index[order_id].1;
            let nv = v.with_ladder(
                side,
                set_qty_ladder(v.ladder(side), old_price, order_id, target_qty),
            );
            wf_book(nv)
        }),
{
    let side = v.index[order_id].0;
    let price = v.index[order_id].1;
    let l = v.ladder(side);
    let nv = v.with_ladder(side, set_qty_ladder(l, price, order_id, target_qty));
    let nl = nv.ladder(side);
    let i0 = choose|i: int|
        {
            &&& 0 <= i < v.ladder(v.index[order_id].0).len()
            &&& (#[trigger] v.ladder(v.index[order_id].0)[i]).0 == v.index[order_id].1
            &&& contains_id(v.ladder(v.index[order_id].0)[i].1, order_id)
        };
    assert forall|j: int| 0 <= j < i0 implies (#[trigger] l[j]).0 != price by {
        assert(price_before(side, l[j].0, l[i0].0));
    }
    lemma_set_qty_ladder_at(l, price, order_id, target_qty, i0);
    let q = l[i0].1;
    let kq = choose|k: int| 0 <= k < q.len() && q[k].id == order_id;
    assert forall|j: int| 0 <= j < kq implies q[j].id != order_id by {
        if q[j].id == order_id {
            assert(distinct_ids(q));
        }
    }
    lemma_update_qty_id_at(q, order_id, target_qty, kq);
    let nq = update_qty_id(q, order_id, target_qty);
    assert(nq == q.update(kq, Order { qty: target_qty, ..q[kq] }));
    assert(nl == l.update(i0, (price, nq)));
    assert forall|i: int| 0 <= i < nl.len() && i != i0 implies nl[i] == l[i] by {}
    // elementwise: ids and all fields but one quantity are unchanged
    assert(nq.len() == q.len());
    assert forall|k: int| 0 <= k < nq.len() implies {
        &&& (#[trigger] nq[k]).id == q[k].id
        &&& nq[k].side == q[k].side
        &&& nq[k].order_type == q[k].order_type
        &&& nq[k].qty > 0
    } by {
        if k != kq {
            assert(nq[k] == q[k]);
        }
    }
    assert(wf_ladder(nl, side)) by {
        assert forall|i: int| 0 <= i < nl.len() implies {
            &&& (#[trigger] nl[i]).1.len() > 0
            &&& all_qty_positive(nl[i].1)
            &&& nl[i].0 > 0
            &&& (forall|k: int|
                0 <= k < nl[i].1.len() ==> {
                    &&& (#[trigger] nl[i].1[k]).side == side
                    &&& nl[i].1[k].order_type == (OrderType::Limit { price: nl[i].0 })
                })
        } by {
            if i == i0 {
                assert forall|k: int| 0 <= k < nl[i].1.len() implies {
                    &&& (#[trigger] nl[i].1[k]).side == side
                    &&& nl[i].1[k].order_type == (OrderType::Limit { price: nl[i].0 })
                    &&& nl[i].1[k].qty > 0
                } by {
                    assert(nl[i].1[k].side == q[k].side);
                }
            }
        }
    }
    assert(uncrossed(nv)) by {
        lemma_side_total(side, Side::Buy);
    }
    assert(wf_index(nv)) by {
        assert forall|id: OrderId| #[trigger] nv.index.dom().contains(id) implies exists|i: int|
            {
                &&& 0 <= i < nv.ladder(nv.index[id].0).len()
                &&& (#[trigger] nv.ladder(nv.index[id].0)[i]).0 == nv.index[id].1
                &&& contains_id(nv.ladder(nv.index[id].0)[i].1, id)
            } by {
            let s = v.index[id].0;
            let p = v.index[id].1;
            lemma_side_total(s, side);
            let i = choose|i: int|
                {
                    &&& 0 <= i < v.ladder(s).len()
                    &&& (#[trigger] v.ladder(s)[i]).0 == p
                    &&& contains_id(v.ladder(s)[i].1, id)
                };
            if s == side && i == i0 {
                assert(contains_id(nq, id)) by {
                    let kk = choose|kk: int| 0 <= kk < q.len() && q[kk].id == id;
                    assert(nq[kk].id == id);
                }
                assert(0 <= i0 < nv.ladder(nv.index[id].0).len() && nv.ladder(
                    nv.index[id].0,
                )[i0].0 == nv.index[id].1 && contains_id(nv.ladder(nv.index[id].0)[i0].1, id));
            } else if s == side {
                assert(nv.ladder(s)[i] == v.ladder(s)[i]);
                assert(0 <= i < nv.ladder(nv.index[id].0).len() && nv.ladder(nv.index[id].0)[i].0
                    == nv.index[id].1 && contains_id(nv.ladder(nv.index[id].0)[i].1, id));
            } else {
                assert(nv.ladder(s) == v.ladder(s));
                assert(0 <= i < nv.ladder(nv.index[id].0).len() && nv.ladder(nv.index[id].0)[i].0
                    == nv.index[id].1 && contains_id(nv.ladder(nv.index[id].0)[i].1, id));
            }
        }
        assert forall|s: Side, i: int, k: int|
            (0 <= i < nv.ladder(s).len() && 0 <= k < nv.ladder(s)[i].1.len()) implies {
            &&& nv.index.dom().contains((#[trigger] nv.ladder(s)[i].1[k]).id)
            &&& nv.index[nv.ladder(s)[i].1[k].id] == (s, nv.ladder(s)[i].0)
        } by {
            lemma_side_total(s, side);
            if s == side && i == i0 {
                assert(nv.ladder(s)[i].1[k].id == q[k].id);
            } else {
                assert(nv.ladder(s)[i] == v.ladder(s)[i]);
            }
        }
        assert forall|s: Side, i: int| 0 <= i < nv.ladder(s).len() implies distinct_ids(
            #[trigger] nv.ladder(s)[i].1,
        ) by {
            lemma_side_total(s, side);
            if s == side && i == i0 {
                assert forall|a: int, b: int| 0 <= a < b < nq.len() implies nq[a].id
                    != nq[b].id by {
                    assert(nq[a].id == q[a].id && nq[b].id == q[b].id);
                }
            } else {
                assert(nv.ladder(s)[i] == v.ladder(s)[i]);
            }
        }
    }
}

/// The quantity of an absent id at an absent price is zero.
proof fn lemma_level_qty_of_id_absent(l: LadderView, price: Price, id: OrderId)
    requires
        forall|j: int| 0 <= j < l.len() ==> (#[trigger] l[j]).0 != price,
    ensures
        level_qty_of_id(l, price, id) == 0,
    decreases l.len(),
{
    if l.len() > 0 {
        assert(forall|j: int| 0 <= j < l.drop_first().len() ==> (#[trigger] l.drop_first()[j])
            == l[j + 1]);
        lemma_level_qty_of_id_absent(l.drop_first(), price, id);
    }
}

impl<Q: QueueDiscipline> OrderBook<Q> {
    /// The resting quantity of order `order_id` at the level with `price`
    /// (0 when the level or the order is absent).
    fn qty_on_ladder(ladder: &Vec<(Price, Q)>, side: Side, price: Price, order_id: OrderId) -> (r: Qty)
        requires
            forall|i: int| 0 <= i < ladder@.len() ==> (#[trigger] ladder@[i]).1.inv(),
            wf_ladder(Self::ladder_of(ladder@), side),
        ensures
            r == level_qty_of_id(Self::ladder_of(ladder@), price, order_id),
    {
        let ghost lv = Self::ladder_of(ladder@);
        let pos = Self::find_pos(ladder, side, price);
        proof {
            assert forall|j: int| 0 <= j < pos implies (#[trigger] lv[j]).0 != price by {
                assert(price_before(side, lv[j].0, price));
            }
        }
        if pos < ladder.len() && ladder[pos].0 == price {
            proof {
                lemma_level_qty_of_id_at(lv, price, order_id, pos as int);
                assert(lv[pos as int].1 == ladder@[pos as int].1.orders());
            }
            ladder[pos].1.qty_of(order_id)
        } else {
            proof {
                assert forall|j: int| 0 <= j < lv.len() implies (#[trigger] lv[j]).0 != price by {
                    if j == pos {
                        assert(ladder@[j].0 != price);
                    } else if j > pos {
                        assert(price_before(side, lv[pos as int].0, lv[j].0));
                        assert(!price_before(side, lv[pos as int].0, price));
                    }
                }
                lemma_level_qty_of_id_absent(lv, price, order_id);
            }
            0
        }
    }

    /// Replace the quantity of the order at the level with `price` in place,
    /// keeping its queue position.
    fn set_qty_on_ladder(
        ladder: &mut Vec<(Price, Q)>,
        side: Side,
        price: Price,
        order_id: OrderId,
        new_qty: Qty,
        ts: u128,
    )
        requires
            forall|i: int| 0 <= i < old(ladder)@.len() ==> (#[trigger] old(ladder)@[i]).1.inv(),
            wf_ladder(Self::ladder_of(old(ladder)@), side),
            exists|i: int|
                {
                    &&& 0 <= i < Self::ladder_of(old(ladder)@).len()
                    &&& (#[trigger] Self::ladder_of(old(ladder)@)[i]).0 == price
                    &&& contains_id(Self::ladder_of(old(ladder)@)[i].1, order_id)
                },
            new_qty < level_qty_of_id(Self::ladder_of(old(ladder)@), price, order_id),
        ensures
            forall|i: int| 0 <= i < final(ladder)@.len() ==> (#[trigger] final(ladder)@[i]).1.inv(),
            Self::ladder_of(final(ladder)@) == set_qty_ladder(
                Self::ladder_of(old(ladder)@),
                price,
                order_id,
                new_qty,
            ),
    {
        let ghost lv = Self::ladder_of(ladder@);
        let pos = Self::find_pos(ladder, side, price);
        proof {
            let i = choose|i: int|
                {
                    &&& 0 <= i < lv.len()
                    &&& (#[trigger] lv[i]).0 == price
                    &&& contains_id(lv[i].1, order_id)
                };
            assert(i >= pos) by {
                if i < pos {
                    assert(price_before(side, lv[i].0, price));
                }
            }
            assert(i == pos) by {
                if i > pos {
                    assert(price_before(side, lv[pos as int].0, lv[i].0));
                }
            }
            assert forall|j: int| 0 <= j < pos implies (#[trigger] lv[j]).0 != price by {
                assert(price_before(side, lv[j].0, price));
            }
            lemma_set_qty_ladder_at(lv, price, order_id, new_qty, pos as int);
            lemma_level_qty_of_id_at(lv, price, order_id, pos as int);
            assert(lv[pos as int].1 == ladder@[pos as int].1.orders());
            crate::queue_fifo::lemma_qty_sum_nonneg(remove_id(lv[pos as int].1, order_id));
        }
        let entry = ladder.remove(pos);
        let lp = entry.0;
        let mut level = entry.1;
        proof {
            // the capacity precondition of set_qty: strictly decreasing
            let q = level.orders();
            lemma_qty_of_id_le_sum(q, order_id);
            level.inv_sum_bound();
        }
        level.set_qty(order_id, new_qty, ts);
        ladder.insert(pos, (lp, level));
        proof {
            assert(Self::ladder_of(ladder@) =~= lv.update(
                pos as int,
                (price, update_qty_id(lv[pos as int].1, order_id, new_qty)),
            ));
        }
    }

    /// Modify a resting order. A strict size decrease at an unchanged price
    /// keeps queue priority and adjusts quantities in place; a price change
    /// or size increase loses priority: the order is cancelled and re-placed
    /// at the tail of the destination level, matching on the way when it
    /// crosses. Unknown ids, zero values and capacity overflows are refused
    /// without touching the book.
    pub fn modify(&mut self, order_id: OrderId, new_qty: Option<Qty>, new_price: Option<Price>, ts: u128) -> (r:
        Result<Vec<Trade>, EngineError>)
        requires
            old(self).wf(),
        ensures
            final(self).wf(),
            ({
                let (nv, outcome) = modify_spec::<Q>(
                    old(self).book_view(),
                    order_id,
                    new_qty,
                    new_price,
                    ts,
                );
                &&& final(self).book_view() == nv
                &&& (match outcome {
                    PlaceOutcome::Refused(e) => r == Err::<Vec<Trade>, EngineError>(e),
                    PlaceOutcome::Accepted(trades) => r matches Ok(v) && v@ == trades,
                })
            }),
    {
        let ghost v0 = self.book_view();
        let entry = match self.index.get(&order_id) {
            Option::None => {
                return Err(EngineError::UnknownOrder { order_id });
            },
            Option::Some(sp) => *sp,
        };
        match new_qty {
            Option::Some(q) => {
                if q == 0 {
                    return Err(EngineError::InvalidQty { qty: 0 });
                }
            },
            Option::None => {},
        }
        match new_price {
            Option::Some(p) => {
                if p == 0 {
                    return Err(EngineError::InvalidPrice { price: 0 });
                }
            },
            Option::None => {},
        }
        let side = entry.0;
        let old_price = entry.1;
        proof {
            assert(v0.index[order_id] == (side, old_price));
            lemma_indexed_order_facts(v0, order_id);
        }
        let cur_qty = match side {
            Side::Buy => Self::qty_on_ladder(&self.bids, Side::Buy, old_price, order_id),
            Side::Sell => Self::qty_on_ladder(&self.asks, Side::Sell, old_price, order_id),
        };
        let target_price = match new_price {
            Option::Some(p) => p,
            Option::None => old_price,
        };
        let target_qty = match new_qty {
            Option::Some(q) => q,
            Option::None => cur_qty,
        };
        if target_price == old_price && target_qty < cur_qty {
            proof {
                lemma_set_qty_wf(v0, order_id, target_qty);
            }
            match side {
                Side::Buy => Self::set_qty_on_ladder(
                    &mut self.bids,
                    Side::Buy,
                    old_price,
                    order_id,
                    target_qty,
                    ts,
                ),
                Side::Sell => Self::set_qty_on_ladder(
                    &mut self.asks,
                    Side::Sell,
                    old_price,
                    order_id,
                    target_qty,
                    ts,
                ),
            }
            proof {
                let nv = v0.with_ladder(
                    side,
                    set_qty_ladder(v0.ladder(side), old_price, order_id, target_qty),
                );
                assert(self.book_view() =~= nv);
            }
            return Ok(Vec::new());
        }
        // capacity precheck against the destination level
        let dest_qty = match side {
            Side::Buy => Self::level_qty(&self.bids, Side::Buy, target_price),
            Side::Sell => Self::level_qty(&self.asks, Side::Sell, target_price),
        };
        if dest_qty > u64::MAX - target_qty {
            return Err(EngineError::QtyTooLarge { qty: target_qty, max_qty: u64::MAX });
        }
        // lose priority: cancel, then re-place at the tail
        let cancel_result = self.cancel(order_id, ts);
        proof {
            lemma_cancel_wf(v0, order_id);
        }
        let ghost v1 = cancel_spec(v0, order_id).0;
        let replacement = Order {
            id: order_id,
            side,
            qty: target_qty,
            order_type: OrderType::Limit { price: target_price },
            ts,
        };
        proof {
            // the re-placement cannot be refused
            lemma_wf_ladder_distinct(v0, side);
            lemma_cancel_level_qty_le(v0.ladder(side), old_price, order_id, target_price);
            assert(v1.ladder(side) == cancel_ladder(v0.ladder(side), old_price, order_id));
            assert(place_error(v1, replacement) is None);
        }
        let place_result = self.place(replacement);
        match place_result {
            Ok(trades) => Ok(trades),
            Err(e) => {
                proof {
                    assert(false);
                }
                Err(e)
            },
        }
    }
}

/// One price level of a depth snapshot: the price, the total resting
/// quantity, and the age of the oldest resting order in milliseconds.
#[derive(Debug, Clone, Copy, PartialEq, Eq, Structural)]
pub struct BookLevelPoint {
    pub price: Price,
    pub qty: Qty,
    pub latency_ms: u64,
}

/// A depth snapshot: a pure value read from the book at one logical instant.
/// It never aliases the book's internal storage, so later mutations of the
/// book cannot change it.
#[derive(Debug, Clone, PartialEq)]
pub struct DepthSnapshot {
    pub ts: u128,
    pub best_bid: Option<Price>,
    pub best_ask: Option<Price>,
    pub spread: Option<i64>,
    pub mid: Option<Price>,
    pub bids: Vec<BookLevelPoint>,
    pub asks: Vec<BookLevelPoint>,
    pub metrics: Metrics,
    pub recent_spreads: Vec<(u128, i64)>,
}

/// Age in whole milliseconds of an order resting since `ots`, at snapshot
/// time `ts` (0 when the clock ran backwards, clamped to `u64`).
pub open spec fn spec_latency_ms(ts: u128, ots: u128) -> u64 {
    if ts <= ots {
        0u64
    } else if (ts - ots) / 1_000_000 > u64::MAX {
        u64::MAX
    } else {
        (((ts - ots) / 1_000_000) as u64)
    }
}

/// The expected snapshot row for level `i` of a ladder at time `ts`.
pub open spec fn spec_level_point(l: LadderView, i: int, ts: u128) -> BookLevelPoint {
    BookLevelPoint {
        price: l[i].0,
        qty: qty_sum(l[i].1) as u64,
        latency_ms: spec_latency_ms(ts, l[i].1[0].ts),
    }
}

impl<Q: QueueDiscipline> OrderBook<Q> {
    /// The top `top_n` rows of one ladder at time `ts`.
    fn depth_rows(ladder: &Vec<(Price, Q)>, side: Side, top_n: usize, ts: u128) -> (r: Vec<
        BookLevelPoint,
    >)
        requires
            forall|i: int| 0 <= i < ladder@.len() ==> (#[trigger] ladder@[i]).1.inv(),
            wf_ladder(Self::ladder_of(ladder@), side),
        ensures
            r@.len() == (if top_n <= ladder@.len() {
                top_n as int
            } else {
                ladder@.len() as int
            }),
            forall|i: int|
                0 <= i < r@.len() ==> r@[i] == spec_level_point(Self::ladder_of(ladder@), i, ts),
    {
        let ghost lv = Self::ladder_of(ladder@);
        let n = if top_n <= ladder.len() {
            top_n
        } else {
            ladder.len()
        };
        let mut rows: Vec<BookLevelPoint> = Vec::new();
        let mut i: usize = 0;
        while i < n
            invariant
                n <= ladder@.len(),
                lv == Self::ladder_of(ladder@),
                forall|k: int| 0 <= k < ladder@.len() ==> (#[trigger] ladder@[k]).1.inv(),
                wf_ladder(lv, side),
                0 <= i <= n,
                rows@.len() == i,
                forall|k: int| 0 <= k < i ==> rows@[k] == spec_level_point(lv, k, ts),
            decreases n - i,
        {
            let price = ladder[i].0;
            let qty = ladder[i].1.total_qty();
            let ots = match ladder[i].1.oldest_order_ts() {
                Option::Some(t) => t,
                Option::None => ts,
            };
            proof {
                assert(lv[i as int].1 == ladder@[i as int].1.orders());
                assert(lv[i as int].1.len() > 0);
            }
            let latency_ms: u64 = if ts <= ots {
                0
            } else {
                let d = (ts - ots) / 1_000_000;
                if d > u64::MAX as u128 {
                    u64::MAX
                } else {
                    d as u64
                }
            };
            rows.push(BookLevelPoint { price, qty, latency_ms });
            i = i + 1;
        }
        rows
    }

    /// Materialize a depth snapshot of the top `top_n` levels of each side
    /// at logical time `ts`. Metrics and spread history are left zeroed for
    /// the embedding simulator to fill in.
    pub fn snapshot(&self, top_n: usize, ts: u128) -> (r: DepthSnapshot)
        requires
            self.wf(),
        ensures
            r.ts == ts,
            r.best_bid == best_price(self.book_view().bids),
            r.best_ask == best_price(self.book_view().asks),
            r.spread == spec_spread(
                best_price(self.book_view().bids),
                best_price(self.book_view().asks),
            ),
            r.mid == spec_mid(
                best_price(self.book_view().bids),
                best_price(self.book_view().asks),
            ),
            r.bids@.len() == (if top_n <= self.book_view().bids.len() {
                top_n as int
            } else {
                self.book_view().bids.len() as int
            }),
            r.asks@.len() == (if top_n <= self.book_view().asks.len() {
                top_n as int
            } else {
                self.book_view().asks.len() as int
            }),
            forall|i: int|
                0 <= i < r.bids@.len() ==> r.bids@[i] == spec_level_point(
                    self.book_view().bids,
                    i,
                    ts,
                ),
            forall|i: int|
                0 <= i < r.asks@.len() ==> r.asks@[i] == spec_level_point(
                    self.book_view().asks,
                    i,
                    ts,
                ),
            r.metrics == (Metrics { inventory: 0i64, cash: 0i64, pnl: 0i64 }),
            r.recent_spreads@ == Seq::<(u128, i64)>::empty(),
    {
        let bids = Self::depth_rows(&self.bids, Side::Buy, top_n, ts);
        let asks = Self::depth_rows(&self.asks, Side::Sell, top_n, ts);
        DepthSnapshot {
            ts,
            best_bid: self.best_bid(),
            best_ask: self.best_ask(),
            spread: self.spread(),
            mid: self.mid_price(),
            bids,
            asks,
            metrics: Metrics::new(),
            recent_spreads: Vec::new(),
        }
    }
}

/// Law: a well-formed book is never crossed — whenever both tops exist, the
/// best bid is strictly below the best ask.
pub proof fn lemma_best_bid_below_best_ask(v: BookView)
    requires
        wf_book(v),
        best_price(v.bids) is Some,
        best_price(v.asks) is Some,
    ensures
        best_price(v.bids)->0 < best_price(v.asks)->0,
{
}

/// Law: the trades emitted by one accepted placement consume at most the
/// order's quantity, are all stamped with the taker's id and timestamp, carry
/// prices that cross the order's limit, and their makers were all resting on
/// the opposite ladder before the call.
pub proof fn lemma_place_trade_laws<Q: QueueDiscipline>(v: BookView, order: Order)
    requires
        wf_book(v),
    ensures
        ({
            let (nv, outcome) = place_spec::<Q>(v, order);
            outcome matches PlaceOutcome::Accepted(trades) ==> {
                &&& trade_qty_sum(trades) <= order.qty
                &&& (forall|i: int|
                    0 <= i < trades.len() ==> {
                        &&& (#[trigger] trades[i]).taker_id == order.id
                        &&& trades[i].ts == order.ts
                        &&& crosses(order.side, order.spec_price(), trades[i].price)
                        &&& ladder_contains_id(
                            v.ladder(order.side.spec_opposite()),
                            trades[i].maker_id,
                        )
                    })
            }
        }),
{
    if place_error(v, order) is None {
        lemma_wf_ladder_distinct(v, order.side.spec_opposite());
        lemma_sweep_laws::<Q>(
            v.ladder(order.side.spec_opposite()),
            order.side,
            order.spec_price(),
            order.id,
            order.qty,
            order.ts,
        );
    }
}

/// The quantity sum over a queue restricted to orders indexed on `side`.
pub open spec fn indexed_level_qty_sum(
    q: Seq<Order>,
    idx: Map<OrderId, (Side, Price)>,
    side: Side,
) -> int
    decreases q.len(),
{
    if q.len() == 0 {
        0
    } else {
        (if idx.dom().contains(q[0].id) && idx[q[0].id].0 == side {
            q[0].qty as int
        } else {
            0
        }) + indexed_level_qty_sum(q.drop_first(), idx, side)
    }
}

/// The quantity sum over a ladder restricted to orders indexed on `side`.
pub open spec fn indexed_qty_sum(
    l: LadderView,
    idx: Map<OrderId, (Side, Price)>,
    side: Side,
) -> int
    decreases l.len(),
{
    if l.len() == 0 {
        0
    } else {
        indexed_level_qty_sum(l[0].1, idx, side) + indexed_qty_sum(l.drop_first(), idx, side)
    }
}

/// When every order of the queue is indexed on `side`, the restricted sum is
/// the full sum.
proof fn lemma_indexed_level_qty_sum_full(
    q: Seq<Order>,
    idx: Map<OrderId, (Side, Price)>,
    side: Side,
)
    requires
        forall|k: int|
            0 <= k < q.len() ==> idx.dom().contains((#[trigger] q[k]).id) && idx[q[k].id].0
                == side,
    ensures
        indexed_level_qty_sum(q, idx, side) == qty_sum(q),
    decreases q.len(),
{
    if q.len() > 0 {
        assert(forall|k: int| 0 <= k < q.drop_first().len() ==> (#[trigger] q.drop_first()[k])
            == q[k + 1]);
        lemma_indexed_level_qty_sum_full(q.drop_first(), idx, side);
    }
}

/// Law: per-side quantity conservation — in a well-formed book the sum of
/// the levels' total quantities on a side equals the sum of the quantities
/// of the orders indexed on that side.
pub proof fn lemma_side_quantity_conservation(v: BookView, side: Side)
    requires
        wf_book(v),
    ensures
        ladder_qty_sum(v.ladder(side)) == indexed_qty_sum(v.ladder(side), v.index, side),
{
    assert(v.ladder(side).skip(0) =~= v.ladder(side));
    lemma_indexed_qty_sum_rec(v.ladder(side), v.index, side, v, 0);
}

/// Induction helper walking the ladder from position `start`.
proof fn lemma_indexed_qty_sum_rec(
    l: LadderView,
    idx: Map<OrderId, (Side, Price)>,
    side: Side,
    v: BookView,
    start: int,
)
    requires
        wf_book(v),
        idx == v.index,
        0 <= start <= v.ladder(side).len(),
        l == v.ladder(side).skip(start),
    ensures
        ladder_qty_sum(l) == indexed_qty_sum(l, idx, side),
    decreases l.len(),
{
    if l.len() > 0 {
        assert(l[0] == v.ladder(side)[start]);
        assert forall|k: int| 0 <= k < l[0].1.len() implies idx.dom().contains(
            (#[trigger] l[0].1[k]).id,
        ) && idx[l[0].1[k].id].0 == side by {
            assert(v.ladder(side)[start].1[k] == l[0].1[k]);
        }
        lemma_indexed_level_qty_sum_full(l[0].1, idx, side);
        assert(l.drop_first() =~= v.ladder(side).skip(start + 1));
        lemma_indexed_qty_sum_rec(l.drop_first(), idx, side, v, start + 1);
    }
}

/// In a well-formed book, an id missing from the index rests nowhere.
proof fn lemma_unindexed_not_resting(v: BookView, side: Side, id: OrderId)
    requires
        wf_book(v),
        !v.index.dom().contains(id),
    ensures
        !ladder_contains_id(v.ladder(side), id),
{
    if ladder_contains_id(v.ladder(side), id) {
        let i = choose|i: int|
            0 <= i < v.ladder(side).len() && contains_id(#[trigger] v.ladder(side)[i].1, id);
        let k = choose|k: int|
            0 <= k < v.ladder(side)[i].1.len() && v.ladder(side)[i].1[k].id == id;
        assert(v.index.dom().contains(v.ladder(side)[i].1[k].id));
    }
}

/// Law: round trip — placing a limit order that does not cross, then
/// cancelling it, restores the book's view exactly; the placement itself
/// emits no trades.
#[verifier::rlimit(100)]
pub proof fn lemma_place_cancel_round_trip<Q: QueueDiscipline>(v: BookView, order: Order)
    requires
        wf_book(v),
        place_error(v, order) is None,
        order.spec_is_limit(),
        v.ladder(order.side.spec_opposite()).len() > 0 ==> !crosses(
            order.side,
            order.spec_price(),
            v.ladder(order.side.spec_opposite())[0].0,
        ),
    ensures
        ({
            let (v2, outcome) = place_spec::<Q>(v, order);
            &&& outcome == PlaceOutcome::Accepted(Seq::<Trade>::empty())
            &&& cancel_spec(v2, order.id).0 == v
        }),
{
    let side = order.side;
    let opp = side.spec_opposite();
    let price = order.spec_price()->0;
    let l0 = v.ladder(opp);
    let (nl, rem, trades) = sweep::<Q>(l0, side, order.spec_price(), order.id, order.qty, order.ts);
    // the sweep does not move: either no opposite level or no crossing front
    assert(nl == l0 && rem == order.qty && trades =~= Seq::<Trade>::empty());
    assert(consumed_ids(l0, nl) =~= Set::<OrderId>::empty());
    let v1 = BookView { index: v.index.remove_keys(consumed_ids(l0, nl)), ..v.with_ladder(opp, nl) };
    assert(v1.index =~= v.index);
    assert(v1 =~= v);
    let residual = Order { qty: rem, ..order };
    assert(residual == order);
    let l = v.ladder(side);
    let rested = rest_ladder(l, side, price, residual);
    let (v2, outcome) = place_spec::<Q>(v, order);
    assert(v2.ladder(side) == rested);
    assert(v2.index == v.index.insert(order.id, (side, price)));
    assert(v2.ladder(opp) == v.ladder(opp));
    assert(outcome == PlaceOutcome::Accepted(Seq::<Trade>::empty()));
    // the cancel undoes the rest
    assert(v2.index.dom().contains(order.id));
    assert(v2.index[order.id] == (side, price));
    let pos = lemma_first_not_before(l, side, price);
    lemma_rest_ladder_at(l, side, price, residual, pos);
    // the placed order's id rests nowhere in v
    lemma_unindexed_not_resting(v, side, order.id);
    let cv = cancel_spec(v2, order.id).0;
    if pos < l.len() && l[pos].0 == price {
        let q = l[pos].1;
        assert(rested == l.update(pos, (price, q.push(residual))));
        assert forall|j: int| 0 <= j < pos implies (#[trigger] rested[j]).0 != price by {
            assert(rested[j] == l[j]);
            assert(price_before(side, l[j].0, price));
        }
        assert(rested[pos].0 == price);
        lemma_cancel_ladder_at(rested, price, order.id, pos);
        // removing the fresh id from the appended queue restores it
        assert(!contains_id(q, order.id)) by {
            if contains_id(q, order.id) {
                assert(ladder_contains_id(l, order.id)) by {
                    assert(contains_id(l[pos].1, order.id));
                }
            }
        }
        let nq = q.push(residual);
        assert(nq[q.len() as int].id == order.id);
        assert forall|j: int| 0 <= j < q.len() implies nq[j].id != order.id by {
            assert(nq[j] == q[j]);
            if q[j].id == order.id {
                assert(contains_id(q, order.id));
            }
        }
        lemma_remove_id_at(nq, order.id, q.len() as int);
        assert(remove_id(nq, order.id) =~= q);
        assert(q.len() > 0);
        assert(cancel_ladder(rested, price, order.id) =~= l);
        assert(cv.ladder(side) =~= l);
        assert(cv.index =~= v.index);
        assert(cv =~= v);
    } else {
        assert(rested == l.insert(pos, (price, seq![residual])));
        assert forall|j: int| 0 <= j < pos implies (#[trigger] rested[j]).0 != price by {
            assert(rested[j] == l[j]);
            assert(price_before(side, l[j].0, price));
        }
        assert(rested[pos].0 == price);
        lemma_cancel_ladder_at(rested, price, order.id, pos);
        let nq = seq![residual];
        assert(nq[0].id == order.id);
        lemma_remove_id_at(nq, order.id, 0);
        assert(remove_id(nq, order.id) =~= Seq::<Order>::empty());
        assert(cancel_ladder(rested, price, order.id) =~= l);
        assert(cv.ladder(side) =~= l);
        assert(cv.index =~= v.index);
        assert(cv =~= v);
    }
}

/// The mid price of a bid/ask pair, in ticks rounded down.
pub open spec fn spec_mid(bid: Option<Price>, ask: Option<Price>) -> Option<Price> {
    match (bid, ask) {
        (Some(b), Some(a)) => Some((((b + a) as int / 2) as u64)),
        _ => None,
    }
}

/// The spread of a bid/ask pair in ticks, clamped to `i64`.
pub open spec fn spec_spread(bid: Option<Price>, ask: Option<Price>) -> Option<i64> {
    match (bid, ask) {
        (Some(b), Some(a)) => Some(sat_i64(a - b) as i64),
        _ => None,
    }
}

} // verus!
