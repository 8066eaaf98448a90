//! Component tests: domain types, errors, queues, buffers, counters, time
//! and text formatting.

use orderbook::{
    CircularBuffer, DataError, DataSourceMetadata, EngineError, ErrorSeverity, FifoLevel,
    MarketEvent, MarketStatusType, MemoryTracker, Metrics, Order, OrderPool, OrderType,
    PerformanceMetrics, QueueDiscipline, Side, StringInterner,
};
use orderbook::{elapsed_ns, format_ns, ms_to_ns, ns_to_ms};
use orderbook::{NetModel, Rng64};
use orderbook::data::{parse_price_bytes, parse_u128_bytes, parse_u64_bytes};

fn create_test_order(id: u64, side: Side, qty: u64, price: u64) -> Order {
    Order {
        id,
        side,
        qty,
        order_type: OrderType::Limit { price },
        ts: 1000,
    }
}

#[test]
fn test_order_creation() {
    let limit_order = Order::new_limit(1, Side::Buy, 100, 502500, 1000);
    assert_eq!(limit_order.id, 1);
    assert_eq!(limit_order.side, Side::Buy);
    assert_eq!(limit_order.qty, 100);
    assert_eq!(limit_order.price(), Some(502500));
    assert!(limit_order.is_limit());
    assert!(!limit_order.is_market());

    let market_order = Order::new_market(2, Side::Sell, 50, 2000);
    assert_eq!(market_order.id, 2);
    assert_eq!(market_order.side, Side::Sell);
    assert_eq!(market_order.qty, 50);
    assert_eq!(market_order.price(), None);
    assert!(!market_order.is_limit());
    assert!(market_order.is_market());
}

#[test]
fn test_side_opposite() {
    assert_eq!(Side::Buy.opposite(), Side::Sell);
    assert_eq!(Side::Sell.opposite(), Side::Buy);
}

#[test]
fn test_metrics_creation() {
    let metrics = Metrics::new();
    assert_eq!(metrics.inventory, 0);
    assert_eq!(metrics.cash, 0);
    assert_eq!(metrics.pnl, 0);

    let default_metrics = Metrics::default();
    assert_eq!(default_metrics, metrics);
}

#[test]
fn test_metrics_trade_updates() {
    let mut metrics = Metrics::new();

    // buy 100 at $50.00 (500000 ticks)
    metrics.update_trade(Side::Buy, 100, 500000);
    assert_eq!(metrics.inventory, 100);
    assert_eq!(metrics.cash, -50000000);

    // sell 50 at $51.00 (510000 ticks)
    metrics.update_trade(Side::Sell, 50, 510000);
    assert_eq!(metrics.inventory, 50);
    assert_eq!(metrics.cash, -24500000);
}

#[test]
fn test_metrics_pnl_calculation() {
    let mut metrics = Metrics::new();
    metrics.update_trade(Side::Buy, 100, 500000);
    metrics.calculate_pnl(Some(510000));
    assert_eq!(metrics.pnl, 1000000);
    metrics.calculate_pnl(None);
    assert_eq!(metrics.pnl, metrics.cash);
}

#[test]
fn test_price_utils() {
    assert_eq!(orderbook::price_utils::format(1002500), "100.2500");
    assert_eq!(orderbook::price_utils::format(500000), "50.0000");
    assert_eq!(orderbook::price_utils::spread(1000000, 1000500), 500);
    assert_eq!(orderbook::price_utils::mid_price_ticks(1000000, 1000500), 1000250);
}

#[test]
fn test_error_creation() {
    let err = EngineError::UnknownOrder { order_id: 123 };
    assert_eq!(err.message(), "Order with ID 123 not found");
    assert!(err.is_recoverable());
    assert_eq!(err.severity(), ErrorSeverity::Warning);

    let err = EngineError::InvalidPrice { price: 0 };
    assert!(err.message().contains("Invalid price: 0"));
    assert!(!err.is_recoverable());
    assert_eq!(err.severity(), ErrorSeverity::Error);
}

#[test]
fn test_error_helpers() {
    let err = EngineError::reject("Test rejection");
    assert_eq!(err.message(), "Order rejected: Test rejection");

    let err = EngineError::internal("Internal issue");
    assert_eq!(err.message(), "Order book internal error: Internal issue");
    assert_eq!(err.severity(), ErrorSeverity::Critical);
}

#[test]
fn test_severity_levels() {
    assert_eq!(ErrorSeverity::Info.to_tracing_level(), tracing::Level::INFO);
    assert_eq!(ErrorSeverity::Warning.to_tracing_level(), tracing::Level::WARN);
    assert_eq!(ErrorSeverity::Error.to_tracing_level(), tracing::Level::ERROR);
    assert_eq!(ErrorSeverity::Critical.to_tracing_level(), tracing::Level::ERROR);
}

#[test]
fn test_error_severity_mapping() {
    let info_error = EngineError::reject("Test");
    assert_eq!(info_error.severity(), ErrorSeverity::Info);

    let critical_error = EngineError::internal("System failure");
    assert_eq!(critical_error.severity(), ErrorSeverity::Critical);
}

#[test]
fn test_data_error_creation() {
    let err = DataError::file_not_found("test.csv");
    assert_eq!(err, DataError::FileNotFound { path: "test.csv".to_string() });

    let err = DataError::parse_error("test.csv", 5, "Invalid number");
    assert_eq!(
        err,
        DataError::ParseError {
            file: "test.csv".to_string(),
            line: 5,
            message: "Invalid number".to_string()
        }
    );

    let err = DataError::validation("Price cannot be negative");
    assert_eq!(
        err,
        DataError::ValidationError { message: "Price cannot be negative".to_string() }
    );
}

#[test]
fn test_data_source_metadata() {
    let metadata = DataSourceMetadata::new("test.csv", "CSV")
        .with_property("symbol", "AAPL")
        .with_event_count(1000)
        .with_time_range(1000, 2000)
        .with_file_size(1024);

    assert_eq!(metadata.name, "test.csv");
    assert_eq!(metadata.source_type, "CSV");
    assert_eq!(metadata.event_count, Some(1000));
    assert_eq!(metadata.time_range, Some((1000, 2000)));
    assert_eq!(metadata.file_size, Some(1024));
    assert_eq!(metadata.properties.len(), 1);
    assert_eq!(metadata.properties[0], ("symbol".to_string(), "AAPL".to_string()));
}

#[test]
fn test_market_event_validation() {
    let bad_trade = MarketEvent::Trade {
        price: 0,
        qty: 100,
        side: Side::Buy,
        timestamp: 1000,
        trade_id: None,
    };
    assert!(bad_trade.validate().is_err());

    let good_trade = MarketEvent::Trade {
        price: 500000,
        qty: 100,
        side: Side::Buy,
        timestamp: 1000,
        trade_id: None,
    };
    assert!(good_trade.validate().is_ok());
    assert!(good_trade.affects_book());
    assert!(!good_trade.is_market_data());
    assert_eq!(good_trade.timestamp(), 1000);

    let crossed_quote = MarketEvent::Quote {
        bid: Some(510000),
        ask: Some(500000),
        bid_qty: Some(10),
        ask_qty: Some(10),
        timestamp: 2000,
    };
    assert!(crossed_quote.validate().is_err());
    assert!(crossed_quote.is_market_data());

    let status = MarketEvent::MarketStatus {
        status: MarketStatusType::Open,
        timestamp: 3000,
        message: None,
    };
    assert!(status.validate().is_ok());
    assert!(!status.affects_book());
}

#[test]
fn test_fifo_level_creation() {
    let level = FifoLevel::new();
    assert!(level.is_empty());
    assert_eq!(level.total_qty(), 0);
    assert_eq!(level.order_count(), 0);
    assert!(level.oldest_order_ts().is_none());
}

#[test]
fn test_fifo_level_with_order() {
    let order = create_test_order(1, Side::Buy, 100, 5000);
    let level = FifoLevel::with_order(order.clone());

    assert!(!level.is_empty());
    assert_eq!(level.total_qty(), 100);
    assert_eq!(level.order_count(), 1);
    assert_eq!(level.oldest_order_ts(), Some(order.ts));
}

#[test]
fn test_enqueue_orders() {
    let mut level = FifoLevel::new();

    let order1 = create_test_order(1, Side::Buy, 100, 5000);
    let order2 = create_test_order(2, Side::Buy, 200, 5000);

    level.enqueue(order1.clone());
    assert_eq!(level.total_qty(), 100);
    assert_eq!(level.order_count(), 1);

    level.enqueue(order2);
    assert_eq!(level.total_qty(), 300);
    assert_eq!(level.order_count(), 2);
    assert_eq!(level.oldest_order_ts(), Some(order1.ts));
}

#[test]
fn test_fifo_matching_partial_fill() {
    let mut level = FifoLevel::new();

    let order1 = create_test_order(1, Side::Buy, 100, 5000);
    let order2 = create_test_order(2, Side::Buy, 200, 5000);

    level.enqueue(order1);
    level.enqueue(order2);

    let (remaining_qty, trades) = level.match_against(3, Side::Sell, 150, 5000, 2000);

    assert_eq!(remaining_qty, 0);
    assert_eq!(trades.len(), 2);

    assert_eq!(trades[0].maker_id, 1);
    assert_eq!(trades[0].taker_id, 3);
    assert_eq!(trades[0].qty, 100);
    assert_eq!(trades[0].price, 5000);

    assert_eq!(trades[1].maker_id, 2);
    assert_eq!(trades[1].taker_id, 3);
    assert_eq!(trades[1].qty, 50);
    assert_eq!(trades[1].price, 5000);

    assert_eq!(level.total_qty(), 150);
    assert_eq!(level.order_count(), 1);
}

#[test]
fn test_fifo_matching_complete_fill() {
    let mut level = FifoLevel::new();

    let order = create_test_order(1, Side::Buy, 100, 5000);
    level.enqueue(order);

    let (remaining_qty, trades) = level.match_against(2, Side::Sell, 100, 5000, 2000);

    assert_eq!(remaining_qty, 0);
    assert_eq!(trades.len(), 1);
    assert_eq!(trades[0].qty, 100);

    assert!(level.is_empty());
    assert_eq!(level.total_qty(), 0);
    assert_eq!(level.order_count(), 0);
}

#[test]
fn test_fifo_matching_insufficient_liquidity() {
    let mut level = FifoLevel::new();

    let order = create_test_order(1, Side::Buy, 100, 5000);
    level.enqueue(order);

    let (remaining_qty, trades) = level.match_against(2, Side::Sell, 200, 5000, 2000);

    assert_eq!(remaining_qty, 100);
    assert_eq!(trades.len(), 1);
    assert_eq!(trades[0].qty, 100);

    assert!(level.is_empty());
    assert_eq!(level.total_qty(), 0);
}

#[test]
fn test_cancel_order() {
    let mut level = FifoLevel::new();

    let order1 = create_test_order(1, Side::Buy, 100, 5000);
    let order2 = create_test_order(2, Side::Buy, 200, 5000);
    let order3 = create_test_order(3, Side::Buy, 150, 5000);

    level.enqueue(order1);
    level.enqueue(order2);
    level.enqueue(order3);

    let cancelled_qty = level.cancel(2, 3000);
    assert_eq!(cancelled_qty, 200);
    assert_eq!(level.total_qty(), 250);
    assert_eq!(level.order_count(), 2);

    let cancelled_qty = level.cancel(999, 3000);
    assert_eq!(cancelled_qty, 0);
    assert_eq!(level.total_qty(), 250);
    assert_eq!(level.order_count(), 2);

    let (remaining_qty, trades) = level.match_against(4, Side::Sell, 50, 5000, 4000);
    assert_eq!(remaining_qty, 0);
    assert_eq!(trades.len(), 1);
    assert_eq!(trades[0].maker_id, 1);
    assert_eq!(trades[0].qty, 50);
}

#[test]
fn test_cancel_all_orders() {
    let mut level = FifoLevel::new();

    let order1 = create_test_order(1, Side::Buy, 100, 5000);
    let order2 = create_test_order(2, Side::Buy, 200, 5000);

    level.enqueue(order1);
    level.enqueue(order2);

    level.cancel(1, 3000);
    level.cancel(2, 3000);

    assert!(level.is_empty());
    assert_eq!(level.total_qty(), 0);
    assert_eq!(level.order_count(), 0);
    assert!(level.oldest_order_ts().is_none());
}

#[test]
fn test_circular_buffer() {
    let mut buffer = CircularBuffer::new(3);

    assert!(buffer.is_empty());
    assert_eq!(buffer.len(), 0);
    assert_eq!(buffer.capacity(), 3);

    buffer.push(1);
    buffer.push(2);
    buffer.push(3);

    assert_eq!(buffer.len(), 3);
    assert_eq!(buffer.total_added(), 3);
    assert_eq!(buffer.front(), Some(&1));
    assert_eq!(buffer.back(), Some(&3));

    buffer.push(4);
    assert_eq!(buffer.len(), 3);
    assert_eq!(buffer.total_added(), 4);
    assert_eq!(buffer.front(), Some(&2));
    assert_eq!(buffer.back(), Some(&4));

    let vec = buffer.to_vec();
    assert_eq!(vec, vec![2, 3, 4]);
}

#[test]
fn test_circular_buffer_shrink() {
    let mut buffer = CircularBuffer::new(5);

    for i in 1..=5 {
        buffer.push(i);
    }

    assert_eq!(buffer.len(), 5);

    buffer.shrink_to(3);
    assert_eq!(buffer.len(), 3);
    assert_eq!(buffer.capacity(), 3);
    assert_eq!(buffer.to_vec(), vec![3, 4, 5]);
}

#[test]
fn test_order_pool() {
    let mut pool = OrderPool::new();

    let order1 = pool.get_order(1, Side::Buy, 100, OrderType::Market, 12345);
    let stats = pool.stats();
    assert_eq!(stats.total_created, 1);
    assert_eq!(stats.total_reused, 0);
    assert_eq!(stats.available, 0);

    pool.return_order(order1);
    let stats = pool.stats();
    assert_eq!(stats.available, 1);

    let order2 = pool.get_order(2, Side::Sell, 200, OrderType::Market, 12346);
    let stats = pool.stats();
    assert_eq!(stats.total_created, 1);
    assert_eq!(stats.total_reused, 1);
    assert_eq!(stats.available, 0);

    assert_eq!(order2.id, 2);
    assert_eq!(order2.qty, 200);
}

#[test]
fn test_string_interner() {
    let mut interner = StringInterner::new();

    assert!(interner.is_empty());

    let index1 = interner.intern("hello");
    let index2 = interner.intern("world");
    let index3 = interner.intern("hello");

    assert_eq!(index1, index3);
    assert_ne!(index1, index2);
    assert_eq!(interner.len(), 2);

    assert_eq!(interner.get(index1).map(|s| s.as_str()), Some("hello"));
    assert_eq!(interner.get(index2).map(|s| s.as_str()), Some("world"));
    assert!(interner.get(999).is_none());
}

#[test]
fn test_memory_tracker() {
    let mut tracker = MemoryTracker::new(4096);
    assert_eq!(tracker.peak_usage(), 4096);

    tracker.update_peak(8192);
    assert_eq!(tracker.peak_usage(), 8192);

    // a lower sample never lowers the peak
    tracker.update_peak(1024);
    assert_eq!(tracker.peak_usage(), 8192);

    assert_eq!(tracker.usage_since_init(10240), 10240 - 4096);
}

#[test]
fn test_metrics_reset() {
    let mut metrics = PerformanceMetrics::new();

    metrics.record_order_placement(100_000, true);
    metrics.record_data_ingestion(100, 5);

    let snapshot = metrics.get_snapshot();
    assert!(snapshot.orders_processed > 0);
    assert!(snapshot.events_ingested > 0);

    metrics.reset();
    let snapshot = metrics.get_snapshot();
    assert_eq!(snapshot.orders_processed, 0);
    assert_eq!(snapshot.events_ingested, 0);
}

#[test]
fn test_time_conversions() {
    let ms = 1000u64;
    let ns = ms_to_ns(ms);
    assert_eq!(ns, 1_000_000_000);
    assert_eq!(ns_to_ms(ns), ms);
}

#[test]
fn test_elapsed_calculation() {
    let start = 1_000_000_000u128;
    let end = 1_500_000_000u128;
    assert_eq!(elapsed_ns(start, end), 500_000_000);

    // saturation on underflow
    assert_eq!(elapsed_ns(end, start), 0);
}

#[test]
fn test_format_ns() {
    let ns = 1_500_000_000u128;
    let formatted = format_ns(ns);
    assert!(formatted.contains("1.500000000"));
    assert_eq!(formatted, "1.500000000");
    assert_eq!(format_ns(42), "0.000000042");
}

#[test]
fn test_network_model() {
    let net = NetModel::default();
    let mut rng = Rng64::seed_from_u64(42);

    let mut drops = 0;
    let mut reorders = 0;
    for _ in 0..1000 {
        let latency = net.simulate_latency(&mut rng);
        assert!(latency <= net.base_latency_ns + net.jitter_ns);
        if net.should_drop(&mut rng) {
            drops += 1;
        }
        if net.should_reorder(&mut rng) {
            reorders += 1;
        }
    }
    // about 0.1% drops and 1% reorders over a thousand draws
    assert!(drops < 10);
    assert!(reorders < 50);
}

#[test]
fn test_price_parsing_half_even() {
    // four digits map exactly
    assert_eq!(parse_price_bytes(b"100.2500"), Some(1002500));
    assert_eq!(parse_price_bytes(b"50"), Some(500000));
    assert_eq!(parse_price_bytes(b"0.0001"), Some(1));
    // a fifth digit rounds half to even
    assert_eq!(parse_price_bytes(b"0.00015"), Some(2));
    assert_eq!(parse_price_bytes(b"0.00025"), Some(2));
    assert_eq!(parse_price_bytes(b"0.000251"), Some(3));
    assert_eq!(parse_price_bytes(b"0.00026"), Some(3));
    // malformed strings are refused
    assert_eq!(parse_price_bytes(b""), None);
    assert_eq!(parse_price_bytes(b".5"), None);
    assert_eq!(parse_price_bytes(b"12a"), None);
}

#[test]
fn test_integer_parsing() {
    assert_eq!(parse_u64_bytes(b"0"), Some(0));
    assert_eq!(parse_u64_bytes(b"18446744073709551615"), Some(u64::MAX));
    assert_eq!(parse_u64_bytes(b"18446744073709551616"), None);
    assert_eq!(parse_u64_bytes(b"-1"), None);
    assert_eq!(parse_u64_bytes(b""), None);
    assert_eq!(parse_u128_bytes(b"123456789012345678901"), Some(123456789012345678901));
}
