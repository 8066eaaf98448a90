//! End-to-end scenarios of the matching engine and the simulator.

use orderbook::{
    driver_after_step, CsvDataSource, DriverAction, EngineError, FifoLevel, MarketEvent, Order,
    OrderBook, Side, Simulator,
};

fn book() -> OrderBook<FifoLevel> {
    OrderBook::<FifoLevel>::new()
}

#[test]
fn simple_fill() {
    // Buy 100 @ $50 rests; Sell 60 @ $50 crosses for one trade.
    let mut b = book();
    b.place(Order::new_limit(1, Side::Buy, 100, 500000, 10)).unwrap();
    let trades = b.place(Order::new_limit(2, Side::Sell, 60, 500000, 20)).unwrap();
    assert_eq!(trades.len(), 1);
    assert_eq!(trades[0].maker_id, 1);
    assert_eq!(trades[0].taker_id, 2);
    assert_eq!(trades[0].price, 500000);
    assert_eq!(trades[0].qty, 60);
    assert_eq!(b.best_bid(), Some(500000));
    assert_eq!(b.best_ask(), None);
    let snap = b.snapshot(10, 30);
    assert_eq!(snap.bids.len(), 1);
    assert_eq!(snap.bids[0].qty, 40);
}

#[test]
fn market_sweep_two_levels() {
    // Two bid levels; a market sell for 150 sweeps them best-first.
    let mut b = book();
    b.place(Order::new_limit(1, Side::Buy, 100, 500000, 10)).unwrap();
    b.place(Order::new_limit(2, Side::Buy, 100, 499000, 20)).unwrap();
    let trades = b.place(Order::new_market(3, Side::Sell, 150, 30)).unwrap();
    assert_eq!(trades.len(), 2);
    assert_eq!((trades[0].maker_id, trades[0].taker_id, trades[0].price, trades[0].qty), (1, 3, 500000, 100));
    assert_eq!((trades[1].maker_id, trades[1].taker_id, trades[1].price, trades[1].qty), (2, 3, 499000, 50));
    assert_eq!(b.best_bid(), Some(499000));
    let snap = b.snapshot(10, 40);
    assert_eq!(snap.bids.len(), 1);
    assert_eq!(snap.bids[0].qty, 50);
}

#[test]
fn cancel_preserves_priority() {
    // Cancelling the middle order leaves the survivors in time priority.
    let mut b = book();
    b.place(Order::new_limit(1, Side::Buy, 100, 500000, 10)).unwrap();
    b.place(Order::new_limit(2, Side::Buy, 200, 500000, 20)).unwrap();
    b.place(Order::new_limit(3, Side::Buy, 150, 500000, 30)).unwrap();
    let cancelled = b.cancel(2, 40).unwrap();
    assert_eq!(cancelled, 200);
    let trades = b.place(Order::new_limit(4, Side::Sell, 50, 500000, 50)).unwrap();
    assert_eq!(trades.len(), 1);
    assert_eq!((trades[0].maker_id, trades[0].taker_id, trades[0].price, trades[0].qty), (1, 4, 500000, 50));
    let snap = b.snapshot(10, 60);
    assert_eq!(snap.bids.len(), 1);
    assert_eq!(snap.bids[0].qty, 200);
}

#[test]
fn modify_size_increase_loses_priority() {
    // A size increase re-enqueues at the tail, so the next maker fills first.
    let mut b = book();
    b.place(Order::new_limit(1, Side::Buy, 100, 500000, 10)).unwrap();
    b.place(Order::new_limit(2, Side::Buy, 200, 500000, 20)).unwrap();
    b.place(Order::new_limit(3, Side::Buy, 150, 500000, 30)).unwrap();
    b.modify(1, Some(300), None, 40).unwrap();
    let trades = b.place(Order::new_limit(4, Side::Sell, 50, 500000, 50)).unwrap();
    assert_eq!(trades.len(), 1);
    assert_eq!((trades[0].maker_id, trades[0].taker_id, trades[0].price, trades[0].qty), (2, 4, 500000, 50));
}

#[test]
fn modify_size_decrease_keeps_priority() {
    let mut b = book();
    b.place(Order::new_limit(1, Side::Buy, 100, 500000, 10)).unwrap();
    b.place(Order::new_limit(2, Side::Buy, 200, 500000, 20)).unwrap();
    b.modify(1, Some(60), None, 30).unwrap();
    let trades = b.place(Order::new_limit(3, Side::Sell, 50, 500000, 40)).unwrap();
    assert_eq!(trades.len(), 1);
    assert_eq!(trades[0].maker_id, 1);
}

#[test]
fn cancel_twice_reports_unknown_order() {
    // The second cancel of one id always fails with the unknown-order error.
    let mut b = book();
    b.place(Order::new_limit(7, Side::Buy, 10, 500000, 1)).unwrap();
    assert_eq!(b.cancel(7, 2), Ok(10));
    assert_eq!(b.cancel(7, 3), Err(EngineError::UnknownOrder { order_id: 7 }));
}

#[test]
fn place_then_cancel_round_trip() {
    // A non-crossing limit placed and cancelled leaves the book as it was.
    let mut b = book();
    b.place(Order::new_limit(1, Side::Buy, 100, 490000, 10)).unwrap();
    b.place(Order::new_limit(2, Side::Sell, 100, 510000, 20)).unwrap();
    let before = b.snapshot(10, 99);
    let trades = b.place(Order::new_limit(3, Side::Buy, 40, 495000, 30)).unwrap();
    assert!(trades.is_empty());
    assert_eq!(b.cancel(3, 40), Ok(40));
    let after = b.snapshot(10, 99);
    assert_eq!(before, after);
}

#[test]
fn snapshot_isolation() {
    // Mutating the book after taking a snapshot does not change the snapshot.
    let mut b = book();
    b.place(Order::new_limit(1, Side::Buy, 100, 500000, 10)).unwrap();
    let snap = b.snapshot(10, 20);
    b.place(Order::new_limit(2, Side::Buy, 50, 500000, 30)).unwrap();
    b.cancel(1, 40).unwrap();
    assert_eq!(snap.best_bid, Some(500000));
    assert_eq!(snap.bids.len(), 1);
    assert_eq!(snap.bids[0].qty, 100);
}

#[test]
fn rejects_invalid_orders() {
    let mut b = book();
    assert_eq!(
        b.place(Order::new_limit(1, Side::Buy, 0, 500000, 10)),
        Err(EngineError::InvalidQty { qty: 0 })
    );
    assert_eq!(
        b.place(Order::new_limit(1, Side::Buy, 10, 0, 10)),
        Err(EngineError::InvalidPrice { price: 0 })
    );
    assert_eq!(b.place(Order::new_market(1, Side::Buy, 10, 10)), Err(EngineError::NoLiquidity));
    b.place(Order::new_limit(1, Side::Buy, 10, 500000, 10)).unwrap();
    assert_eq!(
        b.place(Order::new_limit(1, Side::Buy, 10, 500000, 20)),
        Err(EngineError::DuplicateOrderId { order_id: 1 })
    );
}

#[test]
fn book_never_crossed() {
    // After every operation the best bid stays below the best ask.
    let mut b = book();
    b.place(Order::new_limit(1, Side::Buy, 100, 500000, 1)).unwrap();
    b.place(Order::new_limit(2, Side::Sell, 80, 505000, 2)).unwrap();
    b.place(Order::new_limit(3, Side::Buy, 120, 505000, 3)).unwrap();
    if let (Some(bid), Some(ask)) = (b.best_bid(), b.best_ask()) {
        assert!(bid < ask);
    }
    b.place(Order::new_limit(4, Side::Sell, 300, 500000, 4)).unwrap();
    if let (Some(bid), Some(ask)) = (b.best_bid(), b.best_ask()) {
        assert!(bid < ask);
    }
}

#[test]
fn csv_replay_validation_error_then_valid_row() {
    // A zero-price trade row fails validation without moving the position;
    // the next (valid) row parses normally.
    let records = vec![
        "trade,1000,0,100,buy".to_string(),
        "trade,2000,50.25,100,buy".to_string(),
    ];
    let mut src = CsvDataSource::from_records(records, "events.csv");
    let first = src.next_event();
    assert!(matches!(first, Err(orderbook::DataError::ValidationError { .. })));
    assert_eq!(src.current_position(), None);
    let second = src.next_event().unwrap().unwrap();
    match second {
        MarketEvent::Trade { price, qty, side, timestamp, .. } => {
            assert_eq!(price, 502500);
            assert_eq!(qty, 100);
            assert_eq!(side, Side::Buy);
            assert_eq!(timestamp, 2000);
        }
        other => panic!("unexpected event: {:?}", other),
    }
    assert_eq!(src.current_position(), Some(2000));
}

#[test]
fn csv_parse_order_and_cancel_records() {
    let records = vec![
        "order,1000,42,b,75,100.0,limit".to_string(),
        "cancel,2000,42,user request".to_string(),
        "order,3000,43,sell,10,0,market".to_string(),
    ];
    let mut src = CsvDataSource::from_records(records, "events.csv");
    match src.next_event().unwrap().unwrap() {
        MarketEvent::OrderPlacement(o) => {
            assert_eq!(o.id, 42);
            assert_eq!(o.side, Side::Buy);
            assert_eq!(o.qty, 75);
            assert_eq!(o.price(), Some(1000000));
        }
        other => panic!("unexpected event: {:?}", other),
    }
    match src.next_event().unwrap().unwrap() {
        MarketEvent::OrderCancellation { order_id, timestamp, reason } => {
            assert_eq!(order_id, 42);
            assert_eq!(timestamp, 2000);
            assert_eq!(reason.as_deref(), Some("user request"));
        }
        other => panic!("unexpected event: {:?}", other),
    }
    match src.next_event().unwrap().unwrap() {
        MarketEvent::OrderPlacement(o) => {
            assert!(o.is_market());
        }
        other => panic!("unexpected event: {:?}", other),
    }
    assert_eq!(src.next_event(), Ok(None));
    assert!(src.is_finished());
}

#[test]
fn csv_seek_and_reset() {
    let records = vec![
        "trade,1000,50.0,10,buy".to_string(),
        "trade,2000,50.5,10,sell".to_string(),
        "trade,3000,51.0,10,buy".to_string(),
    ];
    let mut src = CsvDataSource::from_records(records, "events.csv");
    src.seek_to_time(1500).unwrap();
    match src.next_event().unwrap().unwrap() {
        MarketEvent::Trade { timestamp, .. } => assert_eq!(timestamp, 2000),
        other => panic!("unexpected event: {:?}", other),
    }
    assert!(matches!(
        src.seek_to_time(9999),
        Err(orderbook::DataError::SeekFailed { .. })
    ));
    src.reset().unwrap();
    match src.next_event().unwrap().unwrap() {
        MarketEvent::Trade { timestamp, .. } => assert_eq!(timestamp, 1000),
        other => panic!("unexpected event: {:?}", other),
    }
}

#[test]
fn deterministic_synthetic_run() {
    // Two runs from seed 42 against an empty book emit identical trades.
    let mut sim1 = Simulator::with_seed(book(), 42);
    let t1 = sim1.run_steps(10).unwrap();
    let mut sim2 = Simulator::with_seed(book(), 42);
    let t2 = sim2.run_steps(10).unwrap();
    assert_eq!(t1, t2);
    let s1 = sim1.snapshot();
    let s2 = sim2.snapshot();
    assert_eq!(s1, s2);
}

#[test]
fn historical_replay_places_orders() {
    let records = vec![
        "order,1000,1,buy,100,50.0,limit".to_string(),
        "order,2000,2,sell,60,50.0,limit".to_string(),
    ];
    let src = CsvDataSource::from_records(records, "events.csv");
    let mut sim = Simulator::with_seed(book(), 7).with_data_source(src);
    let t1 = sim.step().unwrap();
    assert!(t1.is_empty());
    let t2 = sim.step().unwrap();
    assert_eq!(t2.len(), 1);
    assert_eq!(t2[0].maker_id, 1);
    assert_eq!(t2[0].taker_id, 2);
    assert_eq!(t2[0].qty, 60);
    // the taker sold 60, so the simulator is short 60
    assert_eq!(sim.get_metrics().inventory, -60);
}

#[test]
fn reset_reruns_identically() {
    // resetting restores the seeded initial state, so the rerun reproduces
    // the first run's trades and snapshots
    let mut sim = Simulator::with_seed(book(), 42);
    let t1 = sim.run_steps(10).unwrap();
    let s1 = sim.snapshot();
    sim.reset();
    let t2 = sim.run_steps(10).unwrap();
    let s2 = sim.snapshot();
    assert_eq!(t1, t2);
    assert_eq!(s1, s2);
}

#[test]
fn driver_decisions() {
    // a success resets the failure count and publishes
    assert_eq!(driver_after_step(7, true, 10, 1_000_000), (0, DriverAction::Publish));
    // a slow success still publishes but warns (over 80% of the interval)
    assert_eq!(driver_after_step(0, true, 900_000, 1_000_000), (0, DriverAction::PublishSlow));
    // failures count up and skip publishing
    assert_eq!(driver_after_step(0, false, 10, 1_000_000), (1, DriverAction::Skip));
    // the tenth straight failure triggers recovery and resets the count
    assert_eq!(driver_after_step(9, false, 10, 1_000_000), (0, DriverAction::Recover));
}

#[test]
fn simulator_reset_restores_initial_state() {
    let mut sim = Simulator::with_seed(book(), 42);
    let _ = sim.run_steps(5).unwrap();
    sim.reset();
    assert_eq!(sim.get_metrics().inventory, 0);
    assert_eq!(sim.get_metrics().cash, 0);
    assert_eq!(sim.get_metrics().pnl, 0);
    assert_eq!(sim.current_time(), 0);
    assert_eq!(sim.snapshot().recent_spreads.len(), 0);
}

#[test]
fn manual_place_updates_metrics() {
    let mut sim = Simulator::with_seed(book(), 1);
    sim.place_order(Order::new_limit(100, Side::Buy, 50, 500000, 10)).unwrap();
    let trades = sim.place_order(Order::new_limit(101, Side::Sell, 50, 500000, 20)).unwrap();
    assert_eq!(trades.len(), 1);
    // the taker sold 50 at 500000: inventory -50, cash +25000000
    assert_eq!(sim.get_metrics().inventory, -50);
    assert_eq!(sim.get_metrics().cash, 25_000_000);
}
