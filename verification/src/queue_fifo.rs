//! FIFO (time-priority) queue discipline: orders at a level match strictly
//! in enqueue order, and cancelling an interior order does not disturb the
//! relative order of the survivors.

use vstd::prelude::*;

use crate::queue::{
    all_qty_positive, contains_id, distinct_ids, lemma_qty_sum_push, qty_of_id, qty_sum,
    remove_id, trade_qty_sum, trades_contain_maker, update_qty_id, QueueDiscipline,
};
use crate::types::{Order, OrderId, Price, Qty, Side, Trade};

verus! {

/// The FIFO matching transition: consume resting orders front to back until
/// the taker quantity is exhausted or the queue is empty; the last consumed
/// maker may be left partially filled at the front.
pub open spec fn fifo_match(
    q: Seq<Order>,
    taker_id: OrderId,
    taker_qty: Qty,
    price: Price,
    ts: u128,
) -> (Seq<Order>, Qty, Seq<Trade>)
    decreases q.len(),
{
    if taker_qty == 0 || q.len() == 0 {
        (q, taker_qty, Seq::<Trade>::empty())
    } else {
        let m = q[0];
        if taker_qty >= m.qty {
            let t = Trade { maker_id: m.id, taker_id, price, qty: m.qty, ts };
            let rest = fifo_match(q.drop_first(), taker_id, (taker_qty - m.qty) as u64, price, ts);
            (rest.0, rest.1, seq![t] + rest.2)
        } else {
            let t = Trade { maker_id: m.id, taker_id, price, qty: taker_qty, ts };
            let reduced = Order { qty: (m.qty - taker_qty) as u64, ..m };
            (seq![reduced] + q.drop_first(), 0, seq![t])
        }
    }
}

/// The sum of quantities over `seq![t] + s` splits off `t.qty`.
proof fn lemma_trade_qty_sum_cons(t: Trade, s: Seq<Trade>)
    ensures
        trade_qty_sum(seq![t] + s) == t.qty + trade_qty_sum(s),
{
    assert((seq![t] + s).drop_first() =~= s);
    assert((seq![t] + s)[0] == t);
}

/// The quantity sum over orders is nonnegative.
pub proof fn lemma_qty_sum_nonneg(s: Seq<Order>)
    ensures
        qty_sum(s) >= 0,
    decreases s.len(),
{
    if s.len() > 0 {
        lemma_qty_sum_nonneg(s.drop_first());
    }
}

/// Removing the order at index `i` subtracts its quantity from the sum.
pub proof fn lemma_qty_sum_remove(s: Seq<Order>, i: int)
    requires
        0 <= i < s.len(),
    ensures
        qty_sum(s.remove(i)) == qty_sum(s) - s[i].qty,
    decreases i,
{
    if i == 0 {
        assert(s.remove(0) =~= s.drop_first());
    } else {
        assert(s.remove(i).drop_first() =~= s.drop_first().remove(i - 1));
        assert(s.remove(i)[0] == s[0]);
        lemma_qty_sum_remove(s.drop_first(), i - 1);
    }
}

/// Replacing the order at index `i` adjusts the sum by the difference.
pub proof fn lemma_qty_sum_update(s: Seq<Order>, i: int, o: Order)
    requires
        0 <= i < s.len(),
    ensures
        qty_sum(s.update(i, o)) == qty_sum(s) - s[i].qty + o.qty,
    decreases i,
{
    if i == 0 {
        assert(s.update(0, o).drop_first() =~= s.drop_first());
        assert(s.update(0, o)[0] == o);
    } else {
        assert(s.update(i, o).drop_first() =~= s.drop_first().update(i - 1, o));
        assert(s.update(i, o)[0] == s[0]);
        lemma_qty_sum_update(s.drop_first(), i - 1, o);
    }
}

/// When the first occurrence of `id` in `s` is at index `i`, removing by id
/// is removing at `i`, and the cancelled quantity is that order's.
pub proof fn lemma_remove_id_at(s: Seq<Order>, id: OrderId, i: int)
    requires
        0 <= i < s.len(),
        s[i].id == id,
        forall|j: int| 0 <= j < i ==> s[j].id != id,
    ensures
        remove_id(s, id) == s.remove(i),
        qty_of_id(s, id) == s[i].qty,
    decreases i,
{
    if i == 0 {
        assert(remove_id(s, id) =~= s.remove(0));
    } else {
        assert(s.drop_first()[i - 1].id == id);
        assert(forall|j: int| 0 <= j < i - 1 ==> s.drop_first()[j].id != id);
        lemma_remove_id_at(s.drop_first(), id, i - 1);
        assert(remove_id(s, id) =~= seq![s[0]] + s.drop_first().remove(i - 1));
        assert(seq![s[0]] + s.drop_first().remove(i - 1) =~= s.remove(i));
    }
}

/// When the first occurrence of `id` in `s` is at index `i`, updating by id
/// is updating at `i`.
pub proof fn lemma_update_qty_id_at(s: Seq<Order>, id: OrderId, new_qty: Qty, i: int)
    requires
        0 <= i < s.len(),
        s[i].id == id,
        forall|j: int| 0 <= j < i ==> s[j].id != id,
    ensures
        update_qty_id(s, id, new_qty) == s.update(i, Order { qty: new_qty, ..s[i] }),
    decreases i,
{
    if i == 0 {
        assert(update_qty_id(s, id, new_qty) =~= s.update(
            0,
            Order { qty: new_qty, ..s[0] },
        ));
    } else {
        assert(s.drop_first()[i - 1].id == id);
        assert(forall|j: int| 0 <= j < i - 1 ==> s.drop_first()[j].id != id);
        lemma_update_qty_id_at(s.drop_first(), id, new_qty, i - 1);
        assert(update_qty_id(s, id, new_qty) =~= s.update(
            i,
            Order { qty: new_qty, ..s[i] },
        ));
    }
}

/// Updating an absent id changes nothing.
pub proof fn lemma_update_qty_id_absent(s: Seq<Order>, id: OrderId, new_qty: Qty)
    requires
        !contains_id(s, id),
    ensures
        update_qty_id(s, id, new_qty) == s,
    decreases s.len(),
{
    if s.len() > 0 {
        assert(s[0].id != id);
        assert(!contains_id(s.drop_first(), id)) by {
            if contains_id(s.drop_first(), id) {
                let j = choose|j: int|
                    0 <= j < s.drop_first().len() && s.drop_first()[j].id == id;
                assert(s[j + 1].id == id);
            }
        }
        lemma_update_qty_id_absent(s.drop_first(), id, new_qty);
        assert(update_qty_id(s, id, new_qty) =~= s);
    }
}

/// Removing an absent id changes nothing and cancels zero quantity.
pub proof fn lemma_remove_id_absent(s: Seq<Order>, id: OrderId)
    requires
        !contains_id(s, id),
    ensures
        remove_id(s, id) == s,
        qty_of_id(s, id) == 0,
    decreases s.len(),
{
    if s.len() > 0 {
        assert(s[0].id != id);
        assert(!contains_id(s.drop_first(), id)) by {
            if contains_id(s.drop_first(), id) {
                let j = choose|j: int|
                    0 <= j < s.drop_first().len() && s.drop_first()[j].id == id;
                assert(s[j + 1].id == id);
            }
        }
        lemma_remove_id_absent(s.drop_first(), id);
        assert(remove_id(s, id) =~= s);
    }
}

/// The policy-independent matching laws, proved for the FIFO transition.
pub proof fn lemma_fifo_match_laws(
    q: Seq<Order>,
    taker_id: OrderId,
    taker_qty: Qty,
    price: Price,
    ts: u128,
)
    ensures
        ({
            let (nq, rem, trades) = fifo_match(q, taker_id, taker_qty, price, ts);
            &&& rem <= taker_qty
            &&& qty_sum(nq) == qty_sum(q) - (taker_qty - rem)
            &&& trade_qty_sum(trades) == taker_qty - rem
            &&& (forall|i: int|
                0 <= i < trades.len() ==> {
                    &&& (#[trigger] trades[i]).taker_id == taker_id
                    &&& trades[i].price == price
                    &&& trades[i].ts == ts
                    &&& contains_id(q, trades[i].maker_id)
                })
            &&& (rem > 0 ==> nq.len() == 0)
            &&& (forall|id: OrderId| #[trigger] contains_id(nq, id) ==> contains_id(q, id))
            &&& (forall|id: OrderId|
                contains_id(q, id) ==> #[trigger] contains_id(nq, id) || trades_contain_maker(
                    trades,
                    id,
                ))
            &&& (distinct_ids(q) ==> distinct_ids(nq))
            &&& (all_qty_positive(q) ==> all_qty_positive(nq))
            &&& (all_qty_positive(q) && taker_qty > 0 && q.len() > 0 ==> trades.len() > 0)
            &&& (forall|k: int|
                0 <= k < nq.len() ==> exists|j: int|
                    {
                        &&& 0 <= j < q.len()
                        &&& (#[trigger] nq[k]).id == q[j].id
                        &&& nq[k].side == q[j].side
                        &&& nq[k].order_type == q[j].order_type
                        &&& nq[k].ts == q[j].ts
                        &&& nq[k].qty <= q[j].qty
                    })
        }),
    decreases q.len(),
{
    let (nq, rem, trades) = fifo_match(q, taker_id, taker_qty, price, ts);
    if taker_qty == 0 || q.len() == 0 {
        // no trades, queue unchanged
    } else {
        let m = q[0];
        let tail = q.drop_first();
        // ids of the tail occur in q, shifted by one
        assert forall|id: OrderId| #[trigger] contains_id(tail, id) implies contains_id(q, id) by {
            let j = choose|j: int| 0 <= j < tail.len() && tail[j].id == id;
            assert(q[j + 1].id == id);
        }
        if taker_qty >= m.qty {
            let t = Trade { maker_id: m.id, taker_id, price, qty: m.qty, ts };
            let (nq2, rem2, trades2) = fifo_match(
                tail,
                taker_id,
                (taker_qty - m.qty) as u64,
                price,
                ts,
            );
            lemma_fifo_match_laws(tail, taker_id, (taker_qty - m.qty) as u64, price, ts);
            lemma_trade_qty_sum_cons(t, trades2);
            assert(trades =~= seq![t] + trades2);
            assert(contains_id(q, m.id)) by {
                assert(q[0].id == m.id);
            }
            assert forall|i: int| 0 <= i < trades.len() implies {
                &&& (#[trigger] trades[i]).taker_id == taker_id
                &&& trades[i].price == price
                &&& trades[i].ts == ts
                &&& contains_id(q, trades[i].maker_id)
            } by {
                if i > 0 {
                    assert(trades[i] == trades2[i - 1]);
                }
            }
            assert forall|id: OrderId| contains_id(q, id) implies #[trigger] contains_id(nq, id)
                || trades_contain_maker(trades, id) by {
                let j = choose|j: int| 0 <= j < q.len() && q[j].id == id;
                if j == 0 {
                    assert(trades[0].maker_id == id);
                } else {
                    assert(tail[j - 1].id == id);
                    assert(contains_id(tail, id));
                    if trades_contain_maker(trades2, id) {
                        let k = choose|k: int|
                            0 <= k < trades2.len() && trades2[k].maker_id == id;
                        assert(trades[k + 1].maker_id == id);
                    }
                }
            }
            if distinct_ids(q) {
                assert(distinct_ids(tail)) by {
                    assert forall|i: int, j: int| 0 <= i < j < tail.len() implies tail[i].id
                        != tail[j].id by {
                        assert(q[i + 1].id == tail[i].id && q[j + 1].id == tail[j].id);
                    }
                }
            }
            if all_qty_positive(q) {
                assert(all_qty_positive(tail)) by {
                    assert forall|i: int| 0 <= i < tail.len() implies tail[i].qty > 0 by {
                        assert(tail[i] == q[i + 1]);
                    }
                }
            }
            assert forall|k: int| 0 <= k < nq.len() implies exists|j: int|
                {
                    &&& 0 <= j < q.len()
                    &&& (#[trigger] nq[k]).id == q[j].id
                    &&& nq[k].side == q[j].side
                    &&& nq[k].order_type == q[j].order_type
                    &&& nq[k].ts == q[j].ts
                    &&& nq[k].qty <= q[j].qty
                } by {
                let j2 = choose|j2: int|
                    {
                        &&& 0 <= j2 < tail.len()
                        &&& (#[trigger] nq[k]).id == tail[j2].id
                        &&& nq[k].side == tail[j2].side
                        &&& nq[k].order_type == tail[j2].order_type
                        &&& nq[k].ts == tail[j2].ts
                        &&& nq[k].qty <= tail[j2].qty
                    };
                assert(q[j2 + 1] == tail[j2]);
            }
        } else {
            let reduced = Order { qty: (m.qty - taker_qty) as u64, ..m };
            let t = Trade { maker_id: m.id, taker_id, price, qty: taker_qty, ts };
            lemma_trade_qty_sum_cons(t, Seq::<Trade>::empty());
            assert(trades =~= seq![t] + Seq::<Trade>::empty());
            assert(nq =~= seq![reduced] + tail);
            assert(nq[0] == reduced);
            assert(nq.drop_first() =~= tail);
            assert(trades.drop_first() =~= Seq::<Trade>::empty());
            assert(contains_id(q, m.id)) by {
                assert(q[0].id == m.id);
            }
            assert forall|id: OrderId| #[trigger] contains_id(nq, id) implies contains_id(q, id) by {
                let j = choose|j: int| 0 <= j < nq.len() && nq[j].id == id;
                assert(q[j].id == id);
            }
            assert forall|id: OrderId| contains_id(q, id) implies #[trigger] contains_id(nq, id)
                || trades_contain_maker(trades, id) by {
                let j = choose|j: int| 0 <= j < q.len() && q[j].id == id;
                assert(nq[j].id == id);
            }
            if distinct_ids(q) {
                assert forall|i: int, j: int| 0 <= i < j < nq.len() implies nq[i].id
                    != nq[j].id by {
                    assert(nq[i].id == q[i].id && nq[j].id == q[j].id);
                }
            }
            if all_qty_positive(q) {
                assert forall|i: int| 0 <= i < nq.len() implies nq[i].qty > 0 by {
                    if i > 0 {
                        assert(nq[i] == q[i]);
                    }
                }
            }
            assert forall|k: int| 0 <= k < nq.len() implies exists|j: int|
                {
                    &&& 0 <= j < q.len()
                    &&& (#[trigger] nq[k]).id == q[j].id
                    &&& nq[k].side == q[j].side
                    &&& nq[k].order_type == q[j].order_type
                    &&& nq[k].ts == q[j].ts
                    &&& nq[k].qty <= q[j].qty
                } by {
                if k == 0 {
                    assert(nq[0].id == q[0].id && nq[0].side == q[0].side && nq[0].order_type
                        == q[0].order_type && nq[0].ts == q[0].ts && nq[0].qty <= q[0].qty);
                } else {
                    assert(nq[k] == q[k]);
                    assert(nq[k].id == q[k].id && nq[k].side == q[k].side && nq[k].order_type
                        == q[k].order_type && nq[k].ts == q[k].ts && nq[k].qty <= q[k].qty);
                }
            }
        }
    }
}

/// Law: FIFO time priority — the trades of one matching pass consume the
/// queue strictly in enqueue order: the i-th emitted trade's maker is the
/// i-th resting order of the level.
pub proof fn lemma_fifo_time_priority(
    q: Seq<Order>,
    taker_id: OrderId,
    taker_qty: Qty,
    price: Price,
    ts: u128,
)
    ensures
        ({
            let (nq, rem, trades) = fifo_match(q, taker_id, taker_qty, price, ts);
            &&& trades.len() <= q.len()
            &&& (forall|i: int|
                0 <= i < trades.len() ==> (#[trigger] trades[i]).maker_id == q[i].id)
        }),
    decreases q.len(),
{
    let (nq, rem, trades) = fifo_match(q, taker_id, taker_qty, price, ts);
    if taker_qty == 0 || q.len() == 0 {
    } else {
        let m = q[0];
        let tail = q.drop_first();
        if taker_qty >= m.qty {
            let (nq2, rem2, trades2) = fifo_match(
                tail,
                taker_id,
                (taker_qty - m.qty) as u64,
                price,
                ts,
            );
            lemma_fifo_time_priority(tail, taker_id, (taker_qty - m.qty) as u64, price, ts);
            assert forall|i: int| 0 <= i < trades.len() implies (#[trigger] trades[i]).maker_id
                == q[i].id by {
                if i == 0 {
                    assert(trades[0].maker_id == m.id);
                } else {
                    assert(trades[i] == trades2[i - 1]);
                    assert(tail[i - 1] == q[i]);
                }
            }
        } else {
            assert(trades[0].maker_id == q[0].id);
        }
    }
}

/// A FIFO price level: resting orders in arrival order plus a cached total
/// quantity and the timestamp of the last activity.
#[derive(Debug, Clone)]
pub struct FifoLevel {
    orders: Vec<Order>,
    total_qty: Qty,
    last_activity_ts: u128,
}

impl FifoLevel {
    /// Create a new empty FIFO level.
    pub fn new() -> (r: FifoLevel)
        ensures
            r.inv(),
            r.orders() == Seq::<Order>::empty(),
            r.last_ts_spec() == 0u128,
    {
        FifoLevel { orders: Vec::new(), total_qty: 0, last_activity_ts: 0 }
    }

    /// Create a new FIFO level holding one order.
    pub fn with_order(order: Order) -> (r: FifoLevel)
        ensures
            r.inv(),
            r.orders() == seq![order],
            r.last_ts_spec() == order.ts,
    {
        let mut level = FifoLevel::new();
        level.enqueue(order);
        proof {
            assert(level.orders() =~= seq![order]);
        }
        level
    }
}

impl Default for FifoLevel {
    /// An empty level.
    fn default() -> (r: FifoLevel)
        ensures
            r.inv(),
            r.orders() == Seq::<Order>::empty(),
            r.last_ts_spec() == 0u128,
    {
        FifoLevel::new()
    }
}

impl QueueDiscipline for FifoLevel {
    closed spec fn orders(&self) -> Seq<Order> {
        self.orders@
    }

    closed spec fn last_ts_spec(&self) -> u128 {
        self.last_activity_ts
    }

    closed spec fn inv(&self) -> bool {
        self.total_qty == qty_sum(self.orders@)
    }

    open spec fn match_spec(
        q: Seq<Order>,
        taker_id: OrderId,
        taker_qty: Qty,
        price: Price,
        ts: u128,
    ) -> (Seq<Order>, Qty, Seq<Trade>) {
        fifo_match(q, taker_id, taker_qty, price, ts)
    }

    proof fn match_spec_laws(
        q: Seq<Order>,
        taker_id: OrderId,
        taker_qty: Qty,
        price: Price,
        ts: u128,
    ) {
        lemma_fifo_match_laws(q, taker_id, taker_qty, price, ts);
    }

    proof fn inv_sum_bound(&self) {
    }

    fn new_empty() -> (r: FifoLevel) {
        FifoLevel::new()
    }

    fn enqueue(&mut self, order: Order) {
        proof {
            lemma_qty_sum_push(self.orders@, order);
        }
        self.total_qty = self.total_qty + order.qty;
        self.orders.push(order);
        self.last_activity_ts = order.ts;
    }

    fn match_against(&mut self, taker_id: OrderId, taker_side: Side, taker_qty: Qty, price: Price, ts: u128) -> (r: (
        Qty,
        Vec<Trade>,
    )) {
        let ghost q0 = self.orders@;
        let mut trades: Vec<Trade> = Vec::new();
        let mut remaining: Qty = taker_qty;

        while remaining > 0 && self.orders.len() > 0
            invariant
                self.total_qty == qty_sum(self.orders@),
                remaining <= taker_qty,
                fifo_match(q0, taker_id, taker_qty, price, ts).0 == fifo_match(
                    self.orders@,
                    taker_id,
                    remaining,
                    price,
                    ts,
                ).0,
                fifo_match(q0, taker_id, taker_qty, price, ts).1 == fifo_match(
                    self.orders@,
                    taker_id,
                    remaining,
                    price,
                    ts,
                ).1,
                fifo_match(q0, taker_id, taker_qty, price, ts).2 == trades@ + fifo_match(
                    self.orders@,
                    taker_id,
                    remaining,
                    price,
                    ts,
                ).2,
            decreases self.orders@.len(), remaining,
        {
            let ghost cur = self.orders@;
            let m = self.orders[0];
            proof {
                lemma_qty_sum_nonneg(cur.drop_first());
                assert(qty_sum(cur) == m.qty + qty_sum(cur.drop_first()));
            }
            if remaining >= m.qty {
                let t = Trade { maker_id: m.id, taker_id, price, qty: m.qty, ts };
                trades.push(t);
                self.orders.remove(0);
                self.total_qty = self.total_qty - m.qty;
                let ghost trades_pre = trades@.drop_last();
                proof {
                    assert(self.orders@ =~= cur.drop_first());
                    let rest = fifo_match(
                        self.orders@,
                        taker_id,
                        (remaining - m.qty) as u64,
                        price,
                        ts,
                    );
                    assert(fifo_match(cur, taker_id, remaining, price, ts).2 =~= seq![t]
                        + rest.2);
                    assert(trades_pre + (seq![t] + rest.2) =~= trades@ + rest.2);
                    assert(fifo_match(q0, taker_id, taker_qty, price, ts).2 == trades_pre
                        + fifo_match(cur, taker_id, remaining, price, ts).2);
                }
                remaining = remaining - m.qty;
            } else {
                let t = Trade { maker_id: m.id, taker_id, price, qty: remaining, ts };
                trades.push(t);
                let reduced = Order { qty: m.qty - remaining, ..m };
                self.orders.remove(0);
                self.orders.insert(0, reduced);
                self.total_qty = self.total_qty - remaining;
                let ghost trades_pre = trades@.drop_last();
                proof {
                    assert(self.orders@ =~= seq![reduced] + cur.drop_first());
                    assert(self.orders@ == fifo_match(cur, taker_id, remaining, price, ts).0);
                    lemma_qty_sum_update(cur, 0, reduced);
                    assert(self.orders@ =~= cur.update(0, reduced));
                    let done = fifo_match(self.orders@, taker_id, 0, price, ts);
                    assert(done.2 =~= Seq::<Trade>::empty());
                    assert(fifo_match(cur, taker_id, remaining, price, ts).2 =~= seq![t]);
                    assert(trades_pre + seq![t] =~= trades@);
                    assert(trades@ + done.2 =~= trades@);
                }
                remaining = 0;
            }
        }
        proof {
            let done = fifo_match(self.orders@, taker_id, remaining, price, ts);
            assert(done.0 == self.orders@ && done.1 == remaining && done.2
                =~= Seq::<Trade>::empty());
            assert(trades@ + done.2 =~= trades@);
        }
        self.last_activity_ts = ts;
        (remaining, trades)
    }

    fn cancel(&mut self, order_id: OrderId, ts: u128) -> (r: Qty) {
        let ghost q0 = self.orders@;
        let mut i: usize = 0;
        while i < self.orders.len()
            invariant
                *self == *old(self),
                self.orders@ == q0,
                self.total_qty == qty_sum(self.orders@),
                0 <= i <= self.orders@.len(),
                forall|j: int| 0 <= j < i ==> self.orders@[j].id != order_id,
            decreases self.orders@.len() - i,
        {
            if self.orders[i].id == order_id {
                let cancelled = self.orders[i].qty;
                proof {
                    lemma_remove_id_at(q0, order_id, i as int);
                    lemma_qty_sum_remove(q0, i as int);
                    lemma_qty_sum_nonneg(q0.remove(i as int));
                }
                self.orders.remove(i);
                self.total_qty = self.total_qty - cancelled;
                self.last_activity_ts = ts;
                return cancelled;
            }
            i = i + 1;
        }
        proof {
            assert(!contains_id(q0, order_id)) by {
                if contains_id(q0, order_id) {
                    let j = choose|j: int| 0 <= j < q0.len() && q0[j].id == order_id;
                    assert(q0[j].id != order_id);
                }
            }
            lemma_remove_id_absent(q0, order_id);
        }
        0
    }

    fn set_qty(&mut self, order_id: OrderId, new_qty: Qty, ts: u128) -> (r: bool) {
        let ghost q0 = self.orders@;
        let mut i: usize = 0;
        while i < self.orders.len()
            invariant
                *self == *old(self),
                self.orders@ == q0,
                self.total_qty == qty_sum(self.orders@),
                qty_sum(self.orders@) - qty_of_id(self.orders@, order_id) + new_qty <= u64::MAX,
                0 <= i <= self.orders@.len(),
                forall|j: int| 0 <= j < i ==> self.orders@[j].id != order_id,
            decreases self.orders@.len() - i,
        {
            if self.orders[i].id == order_id {
                let m = self.orders[i];
                let updated = Order { qty: new_qty, ..m };
                proof {
                    lemma_remove_id_at(q0, order_id, i as int);
                    lemma_qty_sum_update(q0, i as int, updated);
                    lemma_qty_sum_remove(q0, i as int);
                    lemma_qty_sum_nonneg(q0.remove(i as int));
                }
                self.orders.remove(i);
                self.orders.insert(i, updated);
                self.total_qty = self.total_qty - m.qty + new_qty;
                self.last_activity_ts = ts;
                proof {
                    assert(self.orders@ =~= q0.update(i as int, updated));
                    assert(contains_id(q0, order_id)) by {
                        assert(q0[i as int].id == order_id);
                    }
                    lemma_update_qty_id_at(q0, order_id, new_qty, i as int);
                }
                return true;
            }
            i = i + 1;
        }
        proof {
            assert(!contains_id(q0, order_id)) by {
                if contains_id(q0, order_id) {
                    let j = choose|j: int| 0 <= j < q0.len() && q0[j].id == order_id;
                    assert(q0[j].id != order_id);
                }
            }
            lemma_update_qty_id_absent(q0, order_id, new_qty);
        }
        false
    }

    fn total_qty(&self) -> (r: Qty) {
        self.total_qty
    }

    fn is_empty(&self) -> (r: bool) {
        self.orders.len() == 0
    }

    fn contains_order(&self, order_id: OrderId) -> (r: bool) {
        let mut i: usize = 0;
        while i < self.orders.len()
            invariant
                0 <= i <= self.orders@.len(),
                forall|j: int| 0 <= j < i ==> self.orders@[j].id != order_id,
            decreases self.orders@.len() - i,
        {
            if self.orders[i].id == order_id {
                return true;
            }
            i = i + 1;
        }
        proof {
            assert(!contains_id(self.orders@, order_id)) by {
                if contains_id(self.orders@, order_id) {
                    let j = choose|j: int|
                        0 <= j < self.orders@.len() && self.orders@[j].id == order_id;
                    assert(self.orders@[j].id != order_id);
                }
            }
        }
        false
    }

    fn qty_of(&self, order_id: OrderId) -> (r: Qty) {
        let ghost q0 = self.orders@;
        let mut i: usize = 0;
        while i < self.orders.len()
            invariant
                self.orders@ == q0,
                0 <= i <= self.orders@.len(),
                forall|j: int| 0 <= j < i ==> self.orders@[j].id != order_id,
            decreases self.orders@.len() - i,
        {
            if self.orders[i].id == order_id {
                proof {
                    lemma_remove_id_at(q0, order_id, i as int);
                }
                return self.orders[i].qty;
            }
            i = i + 1;
        }
        proof {
            assert(!contains_id(q0, order_id)) by {
                if contains_id(q0, order_id) {
                    let j = choose|j: int| 0 <= j < q0.len() && q0[j].id == order_id;
                    assert(q0[j].id != order_id);
                }
            }
            lemma_remove_id_absent(q0, order_id);
        }
        0
    }

    fn touch(&mut self, ts: u128) {
        self.last_activity_ts = ts;
    }

    fn last_ts(&self) -> (r: u128) {
        self.last_activity_ts
    }

    fn order_count(&self) -> (r: usize) {
        self.orders.len()
    }

    fn oldest_order_ts(&self) -> (r: Option<u128>) {
        if self.orders.len() > 0 {
            Some(self.orders[0].ts)
        } else {
            None
        }
    }
}

} // verus!
