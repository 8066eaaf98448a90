//! The per-price-level queue discipline interface.
//!
//! A discipline encapsulates the intra-level matching policy (FIFO,
//! pro-rata, ...) so the order book engine can be parameterized by it. Each
//! discipline provides a spec-level matching transition (`match_spec`) that
//! pins down exactly what its executable `match_against` does, plus a proof
//! obligation (`match_spec_laws`) establishing the policy-independent laws
//! the engine relies on: quantity conservation, trades only against resting
//! makers, and exhaustion of the level before unfilled taker quantity
//! remains.

use vstd::prelude::*;

use crate::types::{Order, OrderId, Price, Qty, Side, Trade};

verus! {

/// Sum of the quantities of a sequence of orders.
pub open spec fn qty_sum(s: Seq<Order>) -> int
    decreases s.len(),
{
    if s.len() == 0 {
        0
    } else {
        s[0].qty + qty_sum(s.drop_first())
    }
}

/// Sum of the quantities of a sequence of trades.
pub open spec fn trade_qty_sum(s: Seq<Trade>) -> int
    decreases s.len(),
{
    if s.len() == 0 {
        0
    } else {
        s[0].qty + trade_qty_sum(s.drop_first())
    }
}

/// Whether some order in `s` has id `id`.
pub open spec fn contains_id(s: Seq<Order>, id: OrderId) -> bool {
    exists|i: int| 0 <= i < s.len() && s[i].id == id
}

/// Whether some trade in `s` has maker id `id`.
pub open spec fn trades_contain_maker(s: Seq<Trade>, id: OrderId) -> bool {
    exists|i: int| 0 <= i < s.len() && s[i].maker_id == id
}

/// All order ids in `s` are distinct.
pub open spec fn distinct_ids(s: Seq<Order>) -> bool {
    forall|i: int, j: int| 0 <= i < j < s.len() ==> s[i].id != s[j].id
}

/// All orders in `s` have positive quantity.
pub open spec fn all_qty_positive(s: Seq<Order>) -> bool {
    forall|i: int| 0 <= i < s.len() ==> s[i].qty > 0
}

/// `s` with the first order whose id is `id` removed (unchanged when absent).
pub open spec fn remove_id(s: Seq<Order>, id: OrderId) -> Seq<Order>
    decreases s.len(),
{
    if s.len() == 0 {
        s
    } else if s[0].id == id {
        s.drop_first()
    } else {
        seq![s[0]] + remove_id(s.drop_first(), id)
    }
}

/// `s` with the first order whose id is `id` given quantity `new_qty`
/// (unchanged when absent).
pub open spec fn update_qty_id(s: Seq<Order>, id: OrderId, new_qty: Qty) -> Seq<Order>
    decreases s.len(),
{
    if s.len() == 0 {
        s
    } else if s[0].id == id {
        seq![Order { qty: new_qty, ..s[0] }] + s.drop_first()
    } else {
        seq![s[0]] + update_qty_id(s.drop_first(), id, new_qty)
    }
}

/// Quantity of the first order in `s` whose id is `id` (0 when absent).
pub open spec fn qty_of_id(s: Seq<Order>, id: OrderId) -> Qty
    decreases s.len(),
{
    if s.len() == 0 {
        0
    } else if s[0].id == id {
        s[0].qty
    } else {
        qty_of_id(s.drop_first(), id)
    }
}

/// Quantity summed over orders is preserved by `push`.
pub proof fn lemma_qty_sum_push(s: Seq<Order>, o: Order)
    ensures
        qty_sum(s.push(o)) == qty_sum(s) + o.qty,
    decreases s.len(),
{
    if s.len() == 0 {
        assert(s.push(o).drop_first() =~= s);
    } else {
        assert(s.push(o).drop_first() =~= s.drop_first().push(o));
        lemma_qty_sum_push(s.drop_first(), o);
    }
}

/// The interface of a per-price-level order queue.
///
/// `orders()` is the queue's resting orders in priority order (the front
/// matches first). The executable operations are pinned to spec-level
/// transitions so engine-level proofs are exact, and `match_spec_laws` is the
/// proof obligation every discipline discharges once for the laws the engine
/// needs independently of the policy.
pub trait QueueDiscipline: Sized {
    /// The resting orders at this level, in priority order.
    spec fn orders(&self) -> Seq<Order>;

    /// The timestamp of the last activity on this level.
    spec fn last_ts_spec(&self) -> u128;

    /// The discipline's internal consistency invariant.
    spec fn inv(&self) -> bool;

    /// The discipline's matching transition: from the resting queue, the
    /// taker's id, quantity, the level price and the trade timestamp, the
    /// new queue, the remaining taker quantity and the emitted trades.
    spec fn match_spec(q: Seq<Order>, taker_id: OrderId, taker_qty: Qty, price: Price, ts: u128) -> (
        Seq<Order>,
        Qty,
        Seq<Trade>,
    );

    /// Policy-independent laws of the matching transition.
    proof fn match_spec_laws(q: Seq<Order>, taker_id: OrderId, taker_qty: Qty, price: Price, ts: u128)
        ensures
            ({
                let (nq, rem, trades) = Self::match_spec(q, taker_id, taker_qty, price, ts);
                &&& rem <= taker_qty
                &&& qty_sum(nq) == qty_sum(q) - (taker_qty - rem)
                &&& trade_qty_sum(trades) == taker_qty - rem
                &&& (forall|i: int|
                    0 <= i < trades.len() ==> {
                        &&& (#[trigger] trades[i]).taker_id == taker_id
                        &&& trades[i].price == price
                        &&& trades[i].ts == ts
                        &&& contains_id(q, trades[i].maker_id)
                    })
                &&& (rem > 0 ==> nq.len() == 0)
                &&& (forall|id: OrderId|
                    #[trigger] contains_id(nq, id) ==> contains_id(q, id))
                &&& (forall|id: OrderId|
                    contains_id(q, id) ==> #[trigger] contains_id(nq, id)
                        || trades_contain_maker(trades, id))
                &&& (distinct_ids(q) ==> distinct_ids(nq))
                &&& (all_qty_positive(q) ==> all_qty_positive(nq))
                &&& (all_qty_positive(q) && taker_qty > 0 && q.len() > 0 ==> trades.len() > 0)
                &&& (forall|k: int|
                    0 <= k < nq.len() ==> exists|j: int|
                        {
                            &&& 0 <= j < q.len()
                            &&& (#[trigger] nq[k]).id == q[j].id
                            &&& nq[k].side == q[j].side
                            &&& nq[k].order_type == q[j].order_type
                            &&& nq[k].ts == q[j].ts
                            &&& nq[k].qty <= q[j].qty
                        })
            }),
    ;

    /// The invariant bounds the total resting quantity by `u64::MAX`.
    proof fn inv_sum_bound(&self)
        requires
            self.inv(),
        ensures
            0 <= qty_sum(self.orders()) <= u64::MAX,
    ;

    /// A fresh empty level.
    fn new_empty() -> (r: Self)
        ensures
            r.inv(),
            r.orders() == Seq::<Order>::empty(),
            r.last_ts_spec() == 0u128,
    ;

    /// Append an order at the back of the queue.
    fn enqueue(&mut self, order: Order)
        requires
            old(self).inv(),
            qty_sum(old(self).orders()) + order.qty <= u64::MAX,
        ensures
            final(self).inv(),
            final(self).orders() == old(self).orders().push(order),
            final(self).last_ts_spec() == order.ts,
    ;

    /// Match a taker against this level at `price`, stamping emitted trades
    /// with `ts`. Returns the remaining taker quantity and the trades.
    fn match_against(&mut self, taker_id: OrderId, taker_side: Side, taker_qty: Qty, price: Price, ts: u128) -> (r: (
        Qty,
        Vec<Trade>,
    ))
        requires
            old(self).inv(),
        ensures
            final(self).inv(),
            ({
                let (nq, rem, trades) = Self::match_spec(
                    old(self).orders(),
                    taker_id,
                    taker_qty,
                    price,
                    ts,
                );
                &&& final(self).orders() == nq
                &&& r.0 == rem
                &&& r.1@ == trades
            }),
            final(self).last_ts_spec() == ts,
    ;

    /// Remove the order with the given id, returning its quantity; returns 0
    /// and leaves the queue unchanged when the id is absent. `ts` stamps the
    /// level's activity time when a removal happens.
    fn cancel(&mut self, order_id: OrderId, ts: u128) -> (r: Qty)
        requires
            old(self).inv(),
        ensures
            final(self).inv(),
            final(self).orders() == remove_id(old(self).orders(), order_id),
            r == qty_of_id(old(self).orders(), order_id),
            contains_id(old(self).orders(), order_id) ==> final(self).last_ts_spec() == ts,
            !contains_id(old(self).orders(), order_id) ==> *final(self) == *old(self),
    ;

    /// Replace the quantity of the resting order with the given id, keeping
    /// its queue position. Returns false and changes nothing when the id is
    /// absent.
    fn set_qty(&mut self, order_id: OrderId, new_qty: Qty, ts: u128) -> (r: bool)
        requires
            old(self).inv(),
            qty_sum(old(self).orders()) - qty_of_id(old(self).orders(), order_id) + new_qty
                <= u64::MAX,
        ensures
            final(self).inv(),
            r == contains_id(old(self).orders(), order_id),
            final(self).orders() == update_qty_id(old(self).orders(), order_id, new_qty),
            !r ==> *final(self) == *old(self),
            r ==> final(self).last_ts_spec() == ts,
    ;

    /// Total resting quantity at this level.
    fn total_qty(&self) -> (r: Qty)
        requires
            self.inv(),
        ensures
            r == qty_sum(self.orders()),
    ;

    /// Whether the level holds no orders.
    fn is_empty(&self) -> (r: bool)
        requires
            self.inv(),
        ensures
            r == (self.orders().len() == 0),
    ;

    /// The quantity of the resting order with the given id (0 when absent).
    fn qty_of(&self, order_id: OrderId) -> (r: Qty)
        requires
            self.inv(),
        ensures
            r == qty_of_id(self.orders(), order_id),
    ;

    /// Whether the level holds an order with the given id.
    fn contains_order(&self, order_id: OrderId) -> (r: bool)
        requires
            self.inv(),
        ensures
            r == contains_id(self.orders(), order_id),
    ;

    /// Mark this level as active at `ts`.
    fn touch(&mut self, ts: u128)
        requires
            old(self).inv(),
        ensures
            final(self).inv(),
            final(self).orders() == old(self).orders(),
            final(self).last_ts_spec() == ts,
    ;

    /// The timestamp of the last activity on this level.
    fn last_ts(&self) -> (r: u128)
        requires
            self.inv(),
        ensures
            r == self.last_ts_spec(),
    ;

    /// The number of orders in the queue.
    fn order_count(&self) -> (r: usize)
        requires
            self.inv(),
        ensures
            r == self.orders().len(),
    ;

    /// The timestamp of the oldest (front) order, `None` when empty.
    fn oldest_order_ts(&self) -> (r: Option<u128>)
        requires
            self.inv(),
        ensures
            self.orders().len() == 0 ==> r is None,
            self.orders().len() > 0 ==> r == Some(self.orders()[0].ts),
    ;
}

} // verus!
