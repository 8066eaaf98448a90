//! Performance counters for the order book system and their point-in-time
//! snapshot.

use vstd::prelude::*;

verus! {

/// Saturating add of one to a counter.
pub open spec fn bump(n: u64) -> u64 {
    if n < u64::MAX {
        (n + 1) as u64
    } else {
        n
    }
}

/// Performance metrics of the engine: counters and last-observed latencies,
/// all in plain integers; the embedder samples durations and feeds them in
/// as nanoseconds.
#[derive(Debug, Clone, Copy, PartialEq, Eq, Structural)]
pub struct PerformanceMetrics {
    pub orders_processed: u64,
    pub orders_failed: u64,
    pub order_placement_latency_ns: u64,
    pub order_cancellation_latency_ns: u64,
    pub snapshot_generation_latency_ns: u64,
    pub trades_generated: u64,
    pub events_ingested: u64,
    pub ingestion_errors: u64,
}

impl PerformanceMetrics {
    /// Create zeroed metrics.
    pub fn new() -> (r: PerformanceMetrics)
        ensures
            r == (PerformanceMetrics {
                orders_processed: 0u64,
                orders_failed: 0u64,
                order_placement_latency_ns: 0u64,
                order_cancellation_latency_ns: 0u64,
                snapshot_generation_latency_ns: 0u64,
                trades_generated: 0u64,
                events_ingested: 0u64,
                ingestion_errors: 0u64,
            }),
    {
        PerformanceMetrics {
            orders_processed: 0,
            orders_failed: 0,
            order_placement_latency_ns: 0,
            order_cancellation_latency_ns: 0,
            snapshot_generation_latency_ns: 0,
            trades_generated: 0,
            events_ingested: 0,
            ingestion_errors: 0,
        }
    }

    /// Record an order placement: its duration and whether it succeeded.
    pub fn record_order_placement(&mut self, duration_ns: u64, success: bool)
        ensures
            *final(self) == (PerformanceMetrics {
                orders_processed: if success {
                    bump(old(self).orders_processed)
                } else {
                    old(self).orders_processed
                },
                orders_failed: if success {
                    old(self).orders_failed
                } else {
                    bump(old(self).orders_failed)
                },
                order_placement_latency_ns: duration_ns,
                ..*old(self)
            }),
    {
        if success {
            if self.orders_processed < u64::MAX {
                self.orders_processed = self.orders_processed + 1;
            }
        } else {
            if self.orders_failed < u64::MAX {
                self.orders_failed = self.orders_failed + 1;
            }
        }
        self.order_placement_latency_ns = duration_ns;
    }

    /// Record an order cancellation: its duration and whether it succeeded.
    pub fn record_order_cancellation(&mut self, duration_ns: u64, success: bool)
        ensures
            *final(self) == (PerformanceMetrics {
                orders_processed: if success {
                    bump(old(self).orders_processed)
                } else {
                    old(self).orders_processed
                },
                orders_failed: if success {
                    old(self).orders_failed
                } else {
                    bump(old(self).orders_failed)
                },
                order_cancellation_latency_ns: duration_ns,
                ..*old(self)
            }),
    {
        if success {
            if self.orders_processed < u64::MAX {
                self.orders_processed = self.orders_processed + 1;
            }
        } else {
            if self.orders_failed < u64::MAX {
                self.orders_failed = self.orders_failed + 1;
            }
        }
        self.order_cancellation_latency_ns = duration_ns;
    }

    /// Record a snapshot generation duration.
    pub fn record_snapshot_generation(&mut self, duration_ns: u64)
        ensures
            *final(self) == (PerformanceMetrics {
                snapshot_generation_latency_ns: duration_ns,
                ..*old(self)
            }),
    {
        self.snapshot_generation_latency_ns = duration_ns;
    }

    /// Record generated trades.
    pub fn record_trade(&mut self, count: u64)
        ensures
            final(self).trades_generated == (if old(self).trades_generated + count <= u64::MAX {
                old(self).trades_generated + count
            } else {
                u64::MAX as int
            }),
            *final(self) == (PerformanceMetrics {
                trades_generated: final(self).trades_generated,
                ..*old(self)
            }),
    {
        if self.trades_generated <= u64::MAX - count {
            self.trades_generated = self.trades_generated + count;
        } else {
            self.trades_generated = u64::MAX;
        }
    }

    /// Record a data ingestion batch: events read and errors seen.
    pub fn record_data_ingestion(&mut self, events_count: u64, errors_count: u64)
        ensures
            final(self).events_ingested == (if old(self).events_ingested + events_count
                <= u64::MAX {
                old(self).events_ingested + events_count
            } else {
                u64::MAX as int
            }),
            final(self).ingestion_errors == (if old(self).ingestion_errors + errors_count
                <= u64::MAX {
                old(self).ingestion_errors + errors_count
            } else {
                u64::MAX as int
            }),
            *final(self) == (PerformanceMetrics {
                events_ingested: final(self).events_ingested,
                ingestion_errors: final(self).ingestion_errors,
                ..*old(self)
            }),
    {
        if self.events_ingested <= u64::MAX - events_count {
            self.events_ingested = self.events_ingested + events_count;
        } else {
            self.events_ingested = u64::MAX;
        }
        if self.ingestion_errors <= u64::MAX - errors_count {
            self.ingestion_errors = self.ingestion_errors + errors_count;
        } else {
            self.ingestion_errors = u64::MAX;
        }
    }

    /// A point-in-time copy of the counters.
    pub fn get_snapshot(&self) -> (r: PerformanceSnapshot)
        ensures
            r.orders_processed == self.orders_processed,
            r.orders_failed == self.orders_failed,
            r.order_placement_latency_ns == self.order_placement_latency_ns,
            r.order_cancellation_latency_ns == self.order_cancellation_latency_ns,
            r.snapshot_generation_latency_ns == self.snapshot_generation_latency_ns,
            r.trades_generated == self.trades_generated,
            r.events_ingested == self.events_ingested,
            r.ingestion_errors == self.ingestion_errors,
    {
        PerformanceSnapshot {
            orders_processed: self.orders_processed,
            orders_failed: self.orders_failed,
            order_placement_latency_ns: self.order_placement_latency_ns,
            order_cancellation_latency_ns: self.order_cancellation_latency_ns,
            snapshot_generation_latency_ns: self.snapshot_generation_latency_ns,
            trades_generated: self.trades_generated,
            events_ingested: self.events_ingested,
            ingestion_errors: self.ingestion_errors,
        }
    }

    /// Zero every counter and latency.
    pub fn reset(&mut self)
        ensures
            *final(self) == (PerformanceMetrics {
                orders_processed: 0u64,
                orders_failed: 0u64,
                order_placement_latency_ns: 0u64,
                order_cancellation_latency_ns: 0u64,
                snapshot_generation_latency_ns: 0u64,
                trades_generated: 0u64,
                events_ingested: 0u64,
                ingestion_errors: 0u64,
            }),
    {
        self.orders_processed = 0;
        self.orders_failed = 0;
        self.order_placement_latency_ns = 0;
        self.order_cancellation_latency_ns = 0;
        self.snapshot_generation_latency_ns = 0;
        self.trades_generated = 0;
        self.events_ingested = 0;
        self.ingestion_errors = 0;
    }
}

/// A snapshot of the performance counters at one instant.
#[derive(Debug, Clone, Copy, PartialEq, Eq, Structural)]
pub struct PerformanceSnapshot {
    pub orders_processed: u64,
    pub orders_failed: u64,
    pub order_placement_latency_ns: u64,
    pub order_cancellation_latency_ns: u64,
    pub snapshot_generation_latency_ns: u64,
    pub trades_generated: u64,
    pub events_ingested: u64,
    pub ingestion_errors: u64,
}

} // verus!
