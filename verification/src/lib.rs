//! A limit order book matching engine with an attached market simulator.
//!
//! The core is a price-time priority book over a pluggable per-level queue
//! discipline, a deterministic market simulator (synthetic maker/taker flow,
//! network latency model, historical replay), and a format-agnostic event
//! ingest layer with validation.

pub mod types;
pub mod textfmt;
pub mod time;
pub mod price_utils;
pub mod data;
pub mod error;
pub mod engine;
pub mod memory;
pub mod metrics;
pub mod queue;
pub mod sim;
pub mod queue_fifo;

pub use types::{Order, OrderId, OrderType, Price, Qty, Side, Trade, Metrics};
pub use error::{EngineError, EngineResult, ErrorSeverity};
pub use engine::{OrderBook, DepthSnapshot, BookLevelPoint};
pub use data::{MarketEvent, MarketStatusType, DataError, DataResult, DataSourceMetadata};
pub use sim::{NetModel, SimulationMode, MarketMakerConfig, OrderGenerationConfig, Rng64, DriverAction, driver_after_step};
pub use time::{now_ns, ms_to_ns, ns_to_ms, elapsed_ns, format_ns};
pub use data::CsvDataSource;
pub use sim::Simulator;
pub use memory::{CircularBuffer, OrderPool, PoolStats, StringInterner, MemoryTracker};
pub use metrics::{PerformanceMetrics, PerformanceSnapshot};
pub use queue::QueueDiscipline;
pub use queue_fifo::FifoLevel;
