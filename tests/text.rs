use trading_system::{
    crossover_signal, epoch_ms, format_vars, millis_to_u64, hex_lower, is_payload, kline_query, minute_tick,
    order_url, parse_fixed, parse_vars, post_batch_len, rest_request, run_all, sign_hmac256, signal_for, str_eq,
    APIError, ApiCall, Command, HttpMethod, MarketRequest, Readings, StrategyKind, ADX_THRESHOLD,
};

#[test]
fn parse_fixed_reads_exchange_decimals() {
    assert_eq!(parse_fixed("0.00001000"), Some(1_000));
    assert_eq!(parse_fixed("10.00000000"), Some(1_000_000_000));
    assert_eq!(parse_fixed("1850.5"), Some(185_050_000_000));
    assert_eq!(parse_fixed("42"), Some(4_200_000_000));
    assert_eq!(parse_fixed("92233720368.54775807"), Some(i64::MAX));
    assert_eq!(parse_fixed("92233720368.54775808"), None);
    assert_eq!(parse_fixed("999999999999999999999999"), None);
    assert_eq!(parse_fixed(""), None);
    assert_eq!(parse_fixed("."), None);
    assert_eq!(parse_fixed("1."), None);
    assert_eq!(parse_fixed(".5"), None);
    assert_eq!(parse_fixed("1.123456789"), None);
    assert_eq!(parse_fixed("-1"), None);
    assert_eq!(parse_fixed("1.2.3"), None);
    assert_eq!(parse_fixed("1e5"), None);
}

#[test]
fn hmac_signature_known_vectors() {
    assert_eq!(
        sign_hmac256("key", "The quick brown fox jumps over the lazy dog"),
        "f7bc83f430538424b13298e6aa6fb143ef4d59a14946175997479dbc2d1a3cd8"
    );
    assert_eq!(
        sign_hmac256(
            "NhqPtmdSJYdKjVHjA7PZj4Mge3R5YNiP1e3UZjInClVN65XAbvqqM6A7H5fATj0j",
            "symbol=LTCBTC&side=BUY&type=LIMIT&timeInForce=GTC&quantity=1&price=0.1&recvWindow=5000&timestamp=1499827319559"
        ),
        "c8db56825ae71d6d79447849e617115f4a920fa2acdcab2b053c4b2838bd6b71"
    );
}

#[test]
fn hex_rendering_pads_each_byte() {
    assert_eq!(hex_lower(&vec![0, 1, 15, 16, 171, 255]), "00010f10abff");
    assert_eq!(hex_lower(&vec![]), "");
}

#[test]
fn rest_urls() {
    let r = rest_request(ApiCall::NewListenKey, 0, "", "k");
    assert_eq!(r.url, "https://api.binance.us/api/v3/userDataStream");
    assert_eq!(r.method, HttpMethod::Post);
    let r = rest_request(ApiCall::ExchangeInfo, 0, "", "k");
    assert_eq!(r.url, "https://api.binance.us/api/v3/exchangeInfo?");
    assert_eq!(r.method, HttpMethod::Get);
    let r = rest_request(ApiCall::HistoricalKlines, 0, "symbol=ETHUSDT", "k");
    assert_eq!(r.url, "https://api.binance.us/api/v3/klines?symbol=ETHUSDT");
    let r = rest_request(ApiCall::AccountInfo, 1234, "", "secret");
    let sig = sign_hmac256("secret", "timestamp=1234&recvWindow=5000");
    assert_eq!(
        r.url,
        format!("https://api.binance.us/api/v3/account?timestamp=1234&recvWindow=5000&signature={}", sig)
    );
}

#[test]
fn kline_query_window() {
    assert_eq!(
        kline_query("ETHUSDT", 40_000_000, 500),
        "symbol=ETHUSDT&interval=1m&startTime=10000000&endTime=40000000"
    );
}

#[test]
fn signed_order_url() {
    let req = MarketRequest::buy("ETHUSDT", 5, 100_000_000);
    let query = "symbol=ETHUSDT&side=BUY&timestamp=5&quoteOrderQty=1.00000000&type=MARKET";
    assert_eq!(
        order_url(req, "s"),
        format!("https://api.binance.us/api/v3/order?{}&signature={}", query, sign_hmac256("s", query))
    );
}

#[test]
fn strategy_signals() {
    assert_eq!(crossover_signal(5, 3), 1);
    assert_eq!(crossover_signal(3, 5), 0);
    assert_eq!(crossover_signal(4, 4), 0);
    let strong = Readings { short_avg: 5, long_avg: 3, adx: ADX_THRESHOLD + 1 };
    let weak = Readings { short_avg: 5, long_avg: 3, adx: ADX_THRESHOLD };
    let falling = Readings { short_avg: 2, long_avg: 3, adx: 0 };
    assert_eq!(signal_for(StrategyKind::EmaSmaAdx, strong), 1);
    assert_eq!(signal_for(StrategyKind::EmaSmaAdx, weak), 0);
    assert_eq!(signal_for(StrategyKind::EmaSmaAdx, falling), 0);
    assert_eq!(signal_for(StrategyKind::Adx, strong), 1);
    assert_eq!(signal_for(StrategyKind::Adx, weak), 0);
    assert_eq!(signal_for(StrategyKind::SmaCrossover, falling), 0);
    assert_eq!(signal_for(StrategyKind::EmaSmaCrossover, falling), 0);
    let kinds = vec![StrategyKind::EmaSmaCrossover, StrategyKind::Adx, StrategyKind::EmaSmaAdx];
    assert_eq!(run_all(&kinds, &vec![falling, weak, strong]), vec![0, 0, 1]);
}

#[test]
fn commands_and_cadence() {
    assert_eq!(Command::parse("start"), Some(Command::Start));
    assert_eq!(Command::parse("displayaccountinfo"), Some(Command::DisplayAccountInfo));
    assert_eq!(Command::parse("selltousdt"), Some(Command::SellToUsdt));
    assert_eq!(Command::parse("Start"), None);
    assert_eq!(Command::parse(""), None);
    assert_eq!(minute_tick(0, 3), (1, false));
    assert_eq!(minute_tick(2, 3), (3, true));
}

#[test]
fn saved_states_round_trip() {
    let v = vec![0, 3, 12, 1];
    let text = format_vars(&v);
    assert_eq!(text, "4\n0\n3\n12\n1\n");
    assert_eq!(parse_vars(&text), Some(v));
    assert_eq!(parse_vars("0\n"), Some(vec![]));
    assert_eq!(parse_vars("2\n1\n2"), Some(vec![1, 2]));
    assert_eq!(parse_vars("2\n1\n2\nextra"), Some(vec![1, 2]));
    assert_eq!(parse_vars("3\n1\n2\n"), None);
    assert_eq!(parse_vars("2\n1\nx\n"), None);
    assert_eq!(parse_vars(""), None);
    assert_eq!(parse_vars("a\n"), None);
    assert_eq!(parse_vars("2 \r\n1\t\n3\r\n"), Some(vec![1, 3]));
    assert_eq!(parse_vars(" 2\n1\n3\n"), None);
    assert_eq!(parse_vars("1\n \n"), None);
}

#[test]
fn small_helpers() {
    assert!(is_payload("{\"e\":1}"));
    assert!(!is_payload("ping"));
    assert!(!is_payload(""));
    assert!(str_eq("ETH", "ETH"));
    assert!(!str_eq("ETH", "ETHUSDT"));
    assert_eq!(
        APIError.message(),
        "Something happened while interacting with an external API."
    );
    assert!(epoch_ms() > 1_500_000_000_000);
    assert_eq!(millis_to_u64(None), 0);
    assert_eq!(millis_to_u64(Some(1_600_000_000_123)), 1_600_000_000_123);
    assert_eq!(millis_to_u64(Some(u64::MAX as u128 + 5)), u64::MAX);
}

#[test]
fn post_batches_respect_budget() {
    assert_eq!(post_batch_len(&vec![], 1500), 0);
    assert_eq!(post_batch_len(&vec![500, 500, 499, 10], 1500), 3);
    assert_eq!(post_batch_len(&vec![500, 500, 500], 1500), 2);
    assert_eq!(post_batch_len(&vec![2000, 1], 1500), 1);
    assert_eq!(post_batch_len(&vec![1, 1, 1], 1500), 3);
}
