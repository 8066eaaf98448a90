//! Bounded buffers and reuse helpers: a circular time-series buffer, an
//! order pool, a string interner, and a peak-memory tracker fed by the
//! embedder.

use vstd::prelude::*;

use crate::types::{Order, OrderId, OrderType, Qty, Side};

verus! {

/// A bounded FIFO buffer: pushes evict the oldest element beyond the
/// capacity.
pub struct CircularBuffer<T> {
    data: Vec<T>,
    max_size: usize,
    total_added: usize,
}

impl<T> CircularBuffer<T> {
    /// The buffered elements, oldest first.
    pub closed spec fn view(&self) -> Seq<T> {
        self.data@
    }

    /// The capacity.
    pub closed spec fn spec_capacity(&self) -> usize {
        self.max_size
    }

    /// The total number of elements ever pushed.
    pub closed spec fn spec_total_added(&self) -> usize {
        self.total_added
    }

    /// The buffer never exceeds its capacity.
    pub open spec fn inv(&self) -> bool {
        self.view().len() <= self.spec_capacity()
    }

    /// Create a new buffer with the given capacity.
    pub fn new(max_size: usize) -> (r: CircularBuffer<T>)
        ensures
            r.inv(),
            r.view().len() == 0,
            r.spec_capacity() == max_size,
            r.spec_total_added() == 0,
    {
        CircularBuffer { data: Vec::new(), max_size, total_added: 0 }
    }

    /// Push an element, evicting the oldest when full.
    pub fn push(&mut self, item: T)
        requires
            old(self).inv(),
        ensures
            final(self).inv(),
            final(self).spec_capacity() == old(self).spec_capacity(),
            final(self).spec_total_added() == (if old(self).spec_total_added() < usize::MAX {
                old(self).spec_total_added() + 1
            } else {
                old(self).spec_total_added() as int
            }),
            old(self).spec_capacity() == 0 ==> final(self).view() == old(self).view(),
            old(self).spec_capacity() > 0 ==> final(self).view() == (if old(self).view().len()
                >= old(self).spec_capacity() {
                old(self).view().drop_first().push(item)
            } else {
                old(self).view().push(item)
            }),
    {
        if self.max_size == 0 {
            if self.total_added < usize::MAX {
                self.total_added = self.total_added + 1;
            }
            return;
        }
        if self.data.len() >= self.max_size {
            self.data.remove(0);
            proof {
                assert(self.data@ =~= old(self).data@.drop_first());
            }
        }
        self.data.push(item);
        if self.total_added < usize::MAX {
            self.total_added = self.total_added + 1;
        }
    }

    /// The current number of buffered elements.
    pub fn len(&self) -> (r: usize)
        ensures
            r == self.view().len(),
    {
        self.data.len()
    }

    /// Whether the buffer is empty.
    pub fn is_empty(&self) -> (r: bool)
        ensures
            r == (self.view().len() == 0),
    {
        self.data.len() == 0
    }

    /// The capacity.
    pub fn capacity(&self) -> (r: usize)
        ensures
            r == self.spec_capacity(),
    {
        self.max_size
    }

    /// The total number of elements ever pushed.
    pub fn total_added(&self) -> (r: usize)
        ensures
            r == self.spec_total_added(),
    {
        self.total_added
    }

    /// The most recent element.
    pub fn back(&self) -> (r: Option<&T>)
        ensures
            self.view().len() == 0 ==> r is None,
            self.view().len() > 0 ==> (r matches Some(x) && *x == self.view().last()),
    {
        if self.data.len() > 0 {
            Some(&self.data[self.data.len() - 1])
        } else {
            None
        }
    }

    /// The oldest element.
    pub fn front(&self) -> (r: Option<&T>)
        ensures
            self.view().len() == 0 ==> r is None,
            self.view().len() > 0 ==> (r matches Some(x) && *x == self.view()[0]),
    {
        if self.data.len() > 0 {
            Some(&self.data[0])
        } else {
            None
        }
    }

    /// Remove all elements (the capacity and total stay).
    pub fn clear(&mut self)
        ensures
            final(self).view().len() == 0,
            final(self).inv(),
            final(self).spec_capacity() == old(self).spec_capacity(),
            final(self).spec_total_added() == old(self).spec_total_added(),
    {
        self.data.clear();
    }

    /// Shrink the capacity, evicting the oldest elements beyond it; growing
    /// is not possible this way.
    pub fn shrink_to(&mut self, new_size: usize)
        requires
            old(self).inv(),
        ensures
            final(self).inv(),
            new_size >= old(self).spec_capacity() ==> *final(self) == *old(self),
            new_size < old(self).spec_capacity() ==> {
                &&& final(self).spec_capacity() == new_size
                &&& final(self).view() == old(self).view().skip(
                    (if old(self).view().len() > new_size {
                        old(self).view().len() - new_size
                    } else {
                        0int
                    }),
                )
                &&& final(self).spec_total_added() == old(self).spec_total_added()
            },
    {
        if new_size < self.max_size {
            self.max_size = new_size;
            let n0 = self.data.len();
            let ghost v0 = self.data@;
            let mut dropped: usize = 0;
            while self.data.len() > new_size
                invariant
                    v0.len() == n0,
                    0 <= dropped,
                    dropped as int <= v0.len(),
                    self.data@ == v0.skip(dropped as int),
                    self.max_size == new_size,
                    self.total_added == old(self).total_added,
                    v0.len() > new_size ==> dropped as int <= v0.len() - new_size,
                    v0.len() <= new_size ==> dropped == 0,
                decreases self.data@.len(),
            {
                proof {
                    assert(v0.skip(dropped as int).len() == v0.len() - dropped);
                    assert(dropped < n0);
                }
                self.data.remove(0);
                proof {
                    assert(v0.skip(dropped as int).remove(0) =~= v0.skip(dropped as int + 1));
                }
                dropped = dropped + 1;
            }
            proof {
                if v0.len() > new_size {
                    assert(dropped as int == v0.len() - new_size);
                } else {
                    assert(dropped == 0);
                    assert(v0.skip(0) =~= v0);
                }
            }
        }
    }

    /// The buffered elements as a vector, oldest first.
    pub fn to_vec(&self) -> (r: Vec<T>)
        where T: Copy
        ensures
            r@ == self.view(),
    {
        let mut r: Vec<T> = Vec::new();
        let mut i: usize = 0;
        while i < self.data.len()
            invariant
                0 <= i <= self.data@.len(),
                r@ == self.data@.subrange(0, i as int),
            decreases self.data@.len() - i,
        {
            r.push(self.data[i]);
            proof {
                assert(r@ =~= self.data@.subrange(0, i as int + 1));
            }
            i = i + 1;
        }
        proof {
            assert(self.data@.subrange(0, self.data@.len() as int) =~= self.data@);
        }
        r
    }
}

/// A pool of reusable order values, bounded at a fixed size.
pub struct OrderPool {
    available: Vec<Order>,
    total_created: usize,
    total_reused: usize,
}

/// The pool keeps at most this many returned orders.
pub const ORDER_POOL_LIMIT: usize = 1000;

/// A counter bumped by one, saturating at the `usize` range.
pub open spec fn counter_bump(n: usize) -> int {
    if n < usize::MAX {
        n + 1
    } else {
        n as int
    }
}

impl OrderPool {
    /// The number of pooled orders.
    pub closed spec fn spec_available(&self) -> int {
        self.available@.len() as int
    }

    /// The number of orders created fresh.
    pub closed spec fn spec_created(&self) -> usize {
        self.total_created
    }

    /// The number of orders served from the pool.
    pub closed spec fn spec_reused(&self) -> usize {
        self.total_reused
    }

    /// Create an empty pool.
    pub fn new() -> (r: OrderPool)
        ensures
            r.spec_available() == 0,
            r.spec_created() == 0,
            r.spec_reused() == 0,
    {
        OrderPool { available: Vec::new(), total_created: 0, total_reused: 0 }
    }

    /// Take an order with the given fields, reusing a pooled one when
    /// available: exactly one of the created/reused counters bumps, and a
    /// reuse consumes one pooled order.
    pub fn get_order(&mut self, id: OrderId, side: Side, qty: Qty, order_type: OrderType, ts: u128) -> (r:
        Order)
        ensures
            r == (Order { id, side, qty, order_type, ts }),
            old(self).spec_available() > 0 ==> {
                &&& final(self).spec_available() == old(self).spec_available() - 1
                &&& final(self).spec_reused() == counter_bump(old(self).spec_reused())
                &&& final(self).spec_created() == old(self).spec_created()
            },
            old(self).spec_available() == 0 ==> {
                &&& final(self).spec_available() == 0
                &&& final(self).spec_created() == counter_bump(old(self).spec_created())
                &&& final(self).spec_reused() == old(self).spec_reused()
            },
    {
        match self.available.pop() {
            Option::Some(_) => {
                if self.total_reused < usize::MAX {
                    self.total_reused = self.total_reused + 1;
                }
                Order { id, side, qty, order_type, ts }
            },
            Option::None => {
                if self.total_created < usize::MAX {
                    self.total_created = self.total_created + 1;
                }
                Order { id, side, qty, order_type, ts }
            },
        }
    }

    /// Return an order to the pool: stored for reuse below the pool limit
    /// and dropped beyond it; the counters are untouched.
    pub fn return_order(&mut self, order: Order)
        ensures
            old(self).spec_available() < ORDER_POOL_LIMIT ==> final(self).spec_available() == old(
                self,
            ).spec_available() + 1,
            old(self).spec_available() >= ORDER_POOL_LIMIT ==> final(self).spec_available() == old(
                self,
            ).spec_available(),
            final(self).spec_created() == old(self).spec_created(),
            final(self).spec_reused() == old(self).spec_reused(),
    {
        if self.available.len() < ORDER_POOL_LIMIT {
            self.available.push(order);
        }
    }

    /// Pool statistics: a pure read of all three counters.
    pub fn stats(&self) -> (r: PoolStats)
        ensures
            r.available == self.spec_available(),
            r.total_created == self.spec_created(),
            r.total_reused == self.spec_reused(),
    {
        PoolStats {
            available: self.available.len(),
            total_created: self.total_created,
            total_reused: self.total_reused,
        }
    }

    /// Drop all pooled orders; the counters are untouched.
    pub fn clear(&mut self)
        ensures
            final(self).spec_available() == 0,
            final(self).spec_created() == old(self).spec_created(),
            final(self).spec_reused() == old(self).spec_reused(),
    {
        self.available.clear();
    }
}

/// Statistics for the order pool.
#[derive(Debug, Clone, Copy, PartialEq, Eq, Structural)]
pub struct PoolStats {
    pub available: usize,
    pub total_created: usize,
    pub total_reused: usize,
}

/// A string interner: equal strings share one index.
pub struct StringInterner {
    strings: Vec<String>,
}

impl StringInterner {
    /// The interned strings by index.
    pub closed spec fn view(&self) -> Seq<Seq<char>> {
        self.strings@.map_values(|s: String| s@)
    }

    /// Create an empty interner.
    pub fn new() -> (r: StringInterner)
        ensures
            r.view().len() == 0,
    {
        StringInterner { strings: Vec::new() }
    }

    /// Intern a string: the index of an equal stored string, or a fresh
    /// index for a new one.
    pub fn intern(&mut self, s: &str) -> (r: usize)
        ensures
            r < final(self).view().len(),
            final(self).view()[r as int] == s@,
            (exists|i: int| 0 <= i < old(self).view().len() && old(self).view()[i] == s@)
                ==> final(self).view() == old(self).view(),
            !(exists|i: int| 0 <= i < old(self).view().len() && old(self).view()[i] == s@)
                ==> final(self).view() == old(self).view().push(s@),
    {
        let s_owned = s.to_owned();
        let mut i: usize = 0;
        while i < self.strings.len()
            invariant
                *self == *old(self),
                s_owned@ == s@,
                0 <= i <= self.strings@.len(),
                forall|j: int| 0 <= j < i ==> self.view()[j] != s@,
            decreases self.strings@.len() - i,
        {
            if self.strings[i].eq(&s_owned) {
                proof {
                    assert(self.view()[i as int] == s@);
                }
                return i;
            }
            proof {
                assert(self.view()[i as int] == self.strings@[i as int]@);
            }
            i = i + 1;
        }
        proof {
            assert forall|j: int| 0 <= j < self.view().len() implies self.view()[j] != s@ by {}
        }
        let idx = self.strings.len();
        self.strings.push(s.to_owned());
        proof {
            assert(self.view() =~= old(self).view().push(s@));
        }
        idx
    }

    /// Get a string by its index.
    pub fn get(&self, index: usize) -> (r: Option<&String>)
        ensures
            index < self.view().len() ==> (r matches Some(x) && x@ == self.view()[index as int]),
            index >= self.view().len() ==> r is None,
    {
        if index < self.strings.len() {
            Some(&self.strings[index])
        } else {
            None
        }
    }

    /// The number of interned strings.
    pub fn len(&self) -> (r: usize)
        ensures
            r == self.view().len(),
    {
        self.strings.len()
    }

    /// Whether the interner is empty.
    pub fn is_empty(&self) -> (r: bool)
        ensures
            r == (self.view().len() == 0),
    {
        self.strings.len() == 0
    }

    /// Drop all interned strings.
    pub fn clear(&mut self)
        ensures
            final(self).view().len() == 0,
    {
        self.strings.clear();
    }
}

/// A peak-memory tracker over externally sampled usage values (the embedder
/// reads the platform's process statistics and feeds them in).
#[derive(Debug, Clone, Copy, PartialEq, Eq, Structural)]
pub struct MemoryTracker {
    /// The usage at initialization, in bytes.
    pub initial_memory: usize,
    /// The highest usage seen, in bytes.
    pub peak_memory: usize,
}

impl MemoryTracker {
    /// Create a tracker from the current usage sample.
    pub fn new(current_bytes: usize) -> (r: MemoryTracker)
        ensures
            r.initial_memory == current_bytes,
            r.peak_memory == current_bytes,
    {
        MemoryTracker { initial_memory: current_bytes, peak_memory: current_bytes }
    }

    /// Update the peak with a new usage sample.
    pub fn update_peak(&mut self, current_bytes: usize)
        ensures
            final(self).initial_memory == old(self).initial_memory,
            final(self).peak_memory == (if current_bytes > old(self).peak_memory {
                current_bytes as int
            } else {
                old(self).peak_memory as int
            }),
    {
        if current_bytes > self.peak_memory {
            self.peak_memory = current_bytes;
        }
    }

    /// The highest usage seen, in bytes.
    pub fn peak_usage(&self) -> (r: usize)
        ensures
            r == self.peak_memory,
    {
        self.peak_memory
    }

    /// The usage growth since initialization for a new sample.
    pub fn usage_since_init(&self, current_bytes: usize) -> (r: i128)
        ensures
            r == current_bytes - self.initial_memory,
    {
        current_bytes as i128 - self.initial_memory as i128
    }
}

} // verus!
