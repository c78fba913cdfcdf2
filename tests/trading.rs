use trading_system::{
    balances_for, CandleHistory, Decision, ExchangeFilters, KLineMinute, MarketRequest, Portfolio,
    SetupError, FLAT, LONG, SENTINEL,
};

fn bar(close: i64, closed: bool, start: u64) -> KLineMinute {
    KLineMinute {
        start_time: start,
        end_time: start + 59_999,
        symbol: "ETHUSDT".to_string(),
        open: close,
        high: close,
        low: close,
        close,
        quantity: 1,
        num_trades: 1,
        closed,
    }
}

fn filters(step: i64, min_notional: i64) -> ExchangeFilters {
    ExchangeFilters::new(&vec![step], &vec![min_notional]).ok().unwrap()
}

#[test]
fn candle_history_is_bounded_and_fifo() {
    let mut h = CandleHistory::new(5);
    let mut seed = 11u64;
    let mut closed_starts = Vec::new();
    for i in 0..200u64 {
        seed = seed.wrapping_mul(6364136223846793005).wrapping_add(1);
        let closed = (seed >> 40) % 3 != 0;
        let ready = h.append(bar(i as i64, closed, i * 60_000));
        if closed {
            closed_starts.push(i * 60_000);
        }
        assert!(h.len() <= 5);
        assert_eq!(ready, closed && h.len() == 5);
        let tail: Vec<u64> = closed_starts.iter().rev().take(5).rev().cloned().collect();
        let held: Vec<u64> = (0..h.len()).map(|k| h.get(k).start_time).collect();
        assert_eq!(held, tail);
    }
}

#[test]
fn open_bars_are_dropped() {
    let mut h = CandleHistory::new(2);
    assert!(!h.append(bar(1, false, 0)));
    assert_eq!(h.len(), 0);
    assert!(!h.append(bar(1, true, 0)));
    assert!(h.append(bar(2, true, 60_000)));
    assert!(h.append(bar(3, true, 120_000)));
    assert_eq!(h.get(0).close, 2);
    assert_eq!(h.latest().unwrap().close, 3);
}

#[test]
fn history_capacity_from_lookback() {
    let h = CandleHistory::with_lookback(60 * 1000 * 24 * 60, 60 * 1000).unwrap();
    assert_eq!(h.limit_len(), 1440);
    assert!(CandleHistory::with_lookback(10, 60).is_none());
}

#[test]
fn flat_signal_on_flat_slot_holds() {
    let p = Portfolio::new(vec![100], 3);
    let f = ExchangeFilters::new(&vec![1000, 1000, 1000], &vec![10, 10, 10]).ok().unwrap();
    for t in 0..3 {
        let d = p.plan_transition(0, FLAT, t, "X", &vec![100, 100, 100, 100], &f, 0);
        assert!(matches!(d, Decision::Hold));
    }
}

#[test]
fn flat_signal_on_other_ticker_holds() {
    let mut p = Portfolio::new(vec![100], 3);
    p.commit(0, 2);
    let f = ExchangeFilters::new(&vec![1000, 1000, 1000], &vec![10, 10, 10]).ok().unwrap();
    for t in [0usize, 2] {
        let d = p.plan_transition(0, FLAT, t, "X", &vec![100, 100, 100, 100], &f, 0);
        assert!(matches!(d, Decision::Hold));
    }
    let d = p.plan_transition(0, FLAT, 1, "X", &vec![100, 100, 100, 100], &f, 0);
    assert!(matches!(d, Decision::Submit { new_status: 0, .. }));
}

#[test]
fn long_signal_on_held_slot_holds() {
    let mut p = Portfolio::new(vec![100], 2);
    p.commit(0, 1);
    let f = ExchangeFilters::new(&vec![1000, 1000], &vec![10, 10]).ok().unwrap();
    let d = p.plan_transition(0, LONG, 1, "X", &vec![100, 100, 100], &f, 0);
    assert!(matches!(d, Decision::Hold));
}

#[test]
fn end_to_end_buy_then_sell() {
    // ETHUSDT, one slot with the whole capital, step 0.00001, min notional 10
    let mut p = Portfolio::new(vec![1], 1);
    let f = filters(1_000, 1_000_000_000);
    let balances = vec![10_000_000_000, 0];
    match p.plan_transition(0, LONG, 0, "ETHUSDT", &balances, &f, 1_000) {
        Decision::Submit { request, new_status } => {
            assert_eq!(request.side, "BUY");
            assert_eq!(request.symbol, "ETHUSDT");
            assert_eq!(request.quote_order_qty, 10_000_000_000);
            assert_eq!(request.quantity, SENTINEL);
            assert_eq!(new_status, 1);
            p.commit(0, new_status);
        }
        _ => panic!("expected a purchase"),
    }
    assert_eq!(p.status_of(0), 1);
    // 0.05 ETH held
    let balances = vec![0, 5_000_000];
    match p.plan_transition(0, FLAT, 0, "ETHUSDT", &balances, &f, 2_000) {
        Decision::Submit { request, new_status } => {
            assert_eq!(request.side, "SELL");
            assert_eq!(request.quantity, 5_000_000 - 5_000_000 % 1_000);
            assert_eq!(request.quote_order_qty, SENTINEL);
            assert_eq!(new_status, 0);
            p.commit(0, new_status);
        }
        _ => panic!("expected a sale"),
    }
    assert_eq!(p.status_of(0), 0);
}

#[test]
fn sale_quantity_rounds_down_to_step() {
    let mut p = Portfolio::new(vec![1], 1);
    p.commit(0, 1);
    let f = filters(1_000, 1_000_000_000);
    match p.plan_transition(0, FLAT, 0, "ETHUSDT", &vec![0, 5_012_345], &f, 0) {
        Decision::Submit { request, .. } => assert_eq!(request.quantity, 5_012_000),
        _ => panic!("expected a sale"),
    }
}

#[test]
fn entry_below_min_notional_is_skipped() {
    let p = Portfolio::new(vec![1], 1);
    let f = filters(1_000, 1_000_000_000);
    // 5 USDT available, 10 needed
    let d = p.plan_transition(0, LONG, 0, "ETHUSDT", &vec![500_000_000, 0], &f, 0);
    assert!(matches!(d, Decision::BelowMinNotional));
    assert_eq!(p.status_of(0), 0);
    // exactly the minimum is not enough either
    let d = p.plan_transition(0, LONG, 0, "ETHUSDT", &vec![1_000_000_000, 0], &f, 0);
    assert!(matches!(d, Decision::BelowMinNotional));
}

#[test]
fn unavailable_balance_is_skipped() {
    let p = Portfolio::new(vec![1], 1);
    let f = filters(1_000, 1_000_000_000);
    let d = p.plan_transition(0, LONG, 0, "ETHUSDT", &vec![-1, 0], &f, 0);
    assert!(matches!(d, Decision::UnavailableBalance));
}

#[test]
fn relative_split_counts_slots_in_same_state() {
    let p = Portfolio::new(vec![50, 50], 2);
    assert_eq!(p.relative_amount(0, 10_000), 5_000);
    let f = ExchangeFilters::new(&vec![1, 1], &vec![1, 1]).ok().unwrap();
    match p.plan_transition(0, LONG, 0, "A", &vec![10_000, 0, 0], &f, 0) {
        Decision::Submit { request, .. } => assert_eq!(request.quote_order_qty, 5_000),
        _ => panic!("expected a purchase"),
    }
    let mut q = Portfolio::new(vec![50, 50], 2);
    q.commit(1, 2);
    assert_eq!(q.relative_amount(0, 10_000), 10_000);
    let mut r = Portfolio::new(vec![20, 30, 50], 2);
    r.commit(2, 1);
    assert_eq!(r.relative_amount(0, 10_000), 4_000);
    assert_eq!(r.relative_amount(2, 777), 777);
}

#[test]
fn zero_weight_pool_moves_nothing() {
    let p = Portfolio::new(vec![0], 1);
    assert_eq!(p.relative_amount(0, 10_000), 0);
}

#[test]
fn restore_checks_states() {
    let mut p = Portfolio::new(vec![1, 1], 2);
    assert!(p.restore(&vec![2, 1]));
    assert_eq!(p.statuses(), vec![2, 1]);
    assert!(!p.restore(&vec![3, 0]));
    assert!(!p.restore(&vec![0]));
    assert_eq!(p.statuses(), vec![2, 1]);
}

#[test]
fn exchange_filters_must_be_populated() {
    assert_eq!(ExchangeFilters::new(&vec![1, -1], &vec![1, 1]).err(), Some(SetupError::StepSizeMissing));
    assert_eq!(ExchangeFilters::new(&vec![1, 0], &vec![-1, 1]).err(), Some(SetupError::StepSizeMissing));
    assert_eq!(ExchangeFilters::new(&vec![1, 1], &vec![0, 1]).err(), Some(SetupError::MinNotionalMissing));
    assert!(ExchangeFilters::new(&vec![1, 1], &vec![1, 1]).is_ok());
}

#[test]
fn every_request_has_exactly_one_amount() {
    for amount in [0i64, 1, 5_000_000, i64::MAX] {
        let b = MarketRequest::buy("ETHUSDT", 1, amount);
        assert!((b.quantity == SENTINEL) != (b.quote_order_qty == SENTINEL));
        let s = MarketRequest::sell("ETHUSDT", 1, amount);
        assert!((s.quantity == SENTINEL) != (s.quote_order_qty == SENTINEL));
    }
}

#[test]
fn request_query_strings() {
    let b = MarketRequest::buy("ETHUSDT", 1_600_000_000_000, 10_000_000_000);
    assert_eq!(
        b.to_string(),
        "symbol=ETHUSDT&side=BUY&timestamp=1600000000000&quoteOrderQty=100.00000000&type=MARKET"
    );
    let s = MarketRequest::sell("LTCUSDT", 7, 5_000_001);
    assert_eq!(
        s.to_string(),
        "symbol=LTCUSDT&side=SELL&timestamp=7&quantity=0.05000001&type=MARKET"
    );
}

#[test]
fn balances_follow_symbol_order() {
    let symbols = vec!["USDT".to_string(), "ETH".to_string(), "BTC".to_string()];
    let assets = vec!["BTC".to_string(), "USDT".to_string(), "BNB".to_string(), "BTC".to_string()];
    let free = vec![1, 2, 3, 4];
    assert_eq!(balances_for(&symbols, &assets, &free), vec![2, -1, 4]);
}
