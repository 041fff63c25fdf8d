use polybot::feeds::binance::{
    message_mid, next_backoff, parse_book_ticker_mid, parse_rest_mid, BinanceFeed, BtcQuote,
};
use polybot::feeds::chainlink::OracleFeed;
use polybot::feeds::coinbase::parse_ticker;
use polybot::feeds::polymarket::{hold_asks, subscription_key, PolyFeed, PolyQuote};
use polybot::feeds::ptb_twap::{parse, parse_px};
use polybot::gamma::MarketInfo;
use polybot::json::read;

const NANO: i64 = 1_000_000_000;

fn market(start_ts: i64, up: &str, down: &str) -> MarketInfo {
    MarketInfo {
        slug: "s".to_string(),
        title: "t".to_string(),
        start_ts,
        end_ts: start_ts + 300,
        up_token_id: up.to_string(),
        down_token_id: down.to_string(),
        twap_enabled: true,
        twap_lookback_sec: 60,
    }
}

#[test]
fn book_ticker_is_the_middle() {
    let text = r#"{"stream": "btcusdt@bookTicker", "data": {"b": "68000.10", "a": "68000.30", "E": 5}}"#;
    let q = parse_book_ticker_mid(text, 9).unwrap();
    assert_eq!(q, BtcQuote { t: 5, price: 68_000_200_000_000 });
    assert_eq!(message_mid(&read(text).unwrap(), 9), Some(q));
    let bare = r#"{"b": "1.5", "a": "2.5"}"#;
    assert_eq!(parse_book_ticker_mid(bare, 9), Some(BtcQuote { t: 9, price: 2 * NANO }));
}

#[test]
fn trades_are_no_quotes() {
    let trade = r#"{"stream": "btcusdt@aggTrade", "data": {"b": "1", "a": "2"}}"#;
    assert_eq!(parse_book_ticker_mid(trade, 9), None);
    for text in [
        r#"{"b": "1.5"}"#,
        r#"{"b": 1.5, "a": 2.5}"#,
        r#"{"b": "0", "a": "2"}"#,
        r#"{"b": "x", "a": "2"}"#,
        "[]",
        "junk",
    ] {
        assert_eq!(parse_book_ticker_mid(text, 9), None, "{text}");
    }
}

#[test]
fn rest_prices() {
    let text = r#"{"symbol": "BTCUSDT", "bidPrice": "10.00", "askPrice": "10.50"}"#;
    assert_eq!(parse_rest_mid(text, 7), Some(BtcQuote { t: 7, price: 10_250_000_000 }));
    assert_eq!(parse_rest_mid(r#"{"bidPrice": "10.00"}"#, 7), None);
}

#[test]
fn rest_is_a_backup() {
    let quote = r#"{"stream": "btcusdt@bookTicker", "data": {"b": "10", "a": "10"}}"#;
    let mut f = BinanceFeed::new(1_000);
    assert!(!f.rest_due(2_999));
    assert!(f.rest_due(3_000));
    assert_eq!(f.on_text(quote, 2_500), Some(BtcQuote { t: 2_500, price: 10 * NANO }));
    assert!(!f.rest_due(4_499));
    assert_eq!(f.on_text(r#"{"stream": "aggTrade", "data": {}}"#, 4_000), None);
    assert!(!f.rest_due(5_999));
    assert_eq!(f.on_text("PONG", 5_000), None);
    assert!(f.rest_due(6_000));
    let near = BtcQuote { t: 6_000, price: 10 * NANO + 9_999_999 };
    assert_eq!(f.on_rest(near), None);
    let far = BtcQuote { t: 6_000, price: 10 * NANO + 10_000_000 };
    assert_eq!(f.on_rest(far), Some(far));
    assert_eq!(f.on_rest(far), None);
}

#[test]
fn reconnects_wait_longer() {
    let mut wait = 1;
    let mut seen = vec![];
    for _ in 0..7 {
        seen.push(wait);
        wait = next_backoff(wait);
    }
    assert_eq!(seen, vec![1, 2, 4, 8, 16, 30, 30]);
}

#[test]
fn coinbase_ticker() {
    let both = r#"{"type": "ticker", "best_bid": "10", "best_ask": "11", "price": "3"}"#;
    assert_eq!(parse_ticker(both), Some(Some(10_500_000_000)));
    let price = r#"{"type": "ticker", "best_bid": "10", "price": "3.25"}"#;
    assert_eq!(parse_ticker(price), Some(Some(3_250_000_000)));
    assert_eq!(parse_ticker(r#"{"type": "ticker", "price": "0"}"#), Some(None));
    assert_eq!(parse_ticker(r#"{"type": "subscriptions"}"#), Some(None));
    assert_eq!(parse_ticker("junk"), None);
}

#[test]
fn twap_prices() {
    for (text, px) in [
        (r#"{"full_accuracy_value": "68000500000000000000000"}"#, Some(68_000_500_000_000)),
        (r#"{"full_accuracy_value": 68000.25}"#, Some(68_000_250_000_000)),
        (r#"{"full_accuracy_value": "68000.25"}"#, Some(68_000_250_000_000)),
        (r#"{"full_accuracy_value": "6.8e22"}"#, Some(68_000_000_000_000)),
        (r#"{"full_accuracy_value": "", "value": 5}"#, Some(5 * NANO)),
        (r#"{"full_accuracy_value": null, "value": "7.5"}"#, Some(7_500_000_000)),
        (r#"{"value": "x"}"#, None),
        ("{}", None),
    ] {
        assert_eq!(parse_px(text), px, "{text}");
    }
}

#[test]
fn twap_updates() {
    let text = r#"{"topic": "crypto_prices_twap_sixty", "type": "update",
        "payload": {"symbol": "BTC/usd", "value": 10.5, "timestamp": 3}}"#;
    assert_eq!(parse(text, 0, 50), Some(BtcQuote { t: 50, price: 10_500_000_000 }));
    assert_eq!(parse(text, 1_000, 1_999), None);
    assert_eq!(parse(text, 1_000, 2_000), Some(BtcQuote { t: 2_000, price: 10_500_000_000 }));
    for text in [
        r#"{"topic": "crypto_prices", "type": "update", "payload": {"symbol": "btc/usd", "value": 1}}"#,
        r#"{"topic": "crypto_prices_twap_sixty", "type": "x", "payload": {"symbol": "btc/usd", "value": 1}}"#,
        r#"{"topic": "crypto_prices_twap_sixty", "type": "update", "payload": {"symbol": "eth/usd", "value": 1}}"#,
        r#"{"topic": "crypto_prices_twap_sixty", "type": "update", "payload": {"value": 1}}"#,
        r#"{"topic": "crypto_prices_twap_sixty", "type": "update", "payload": {"symbol": "btc/usd", "value": 0}}"#,
        r#"{"topic": "crypto_prices_twap_sixty", "type": "update"}"#,
    ] {
        assert_eq!(parse(text, 0, 50), None, "{text}");
    }
}

fn oracle_text(topic: &str, value: &str, t: &str) -> String {
    format!(
        r#"{{"topic": "{topic}", "payload": {{"symbol": "btc/usd", "value": {value}, "timestamp": {t}}}}}"#
    )
}

#[test]
fn a_fresh_average_keeps_the_spot_price_out() {
    let mut f = OracleFeed { quotes: vec![], last_twap_ms: 0 };
    let t = 1_700_000_000_000i64;
    f.handle_text(&oracle_text("crypto_prices_chainlink", "10", &t.to_string()), 1);
    assert_eq!(f.quotes, vec![BtcQuote { t, price: 10 * NANO }]);
    f.handle_text(&oracle_text("crypto_prices_twap_thirty", "\"11\"", &(t + 1).to_string()), 1);
    f.handle_text(&oracle_text("prices.crypto.chainlink", "12", &(t + 15_000).to_string()), 1);
    assert_eq!(f.quotes.len(), 2);
    f.handle_text(&oracle_text("prices.crypto.chainlink", "12", &(t + 15_001).to_string()), 1);
    assert_eq!(f.quotes.len(), 3);
    // a time in seconds is not taken
    f.handle_text(&oracle_text("crypto_prices_twap_thirty", "13", "1700000000"), t + 20_000);
    assert_eq!(f.quotes[3], BtcQuote { t: t + 20_000, price: 13 * NANO });
    f.handle_text(&oracle_text("other", "13", "0"), t);
    f.handle_text(&oracle_text("crypto_prices_twap_thirty", "0", "0"), t);
    f.handle_text("junk", t);
    assert_eq!(f.quotes.len(), 4);
}

#[test]
fn oracle_messages_come_in_lists() {
    let mut f = OracleFeed { quotes: vec![], last_twap_ms: 0 };
    let one = oracle_text("crypto_prices_twap_thirty", "10", "0");
    let two = oracle_text("crypto_prices_twap_thirty", "11", "0");
    f.handle_text(&format!("\u{a0}[{one}, [{two}]]\u{2003}\n"), 5);
    f.handle_text(" PONG\u{a0}", 6);
    f.handle_text("\u{a0}", 6);
    assert_eq!(
        f.quotes,
        vec![BtcQuote { t: 5, price: 10 * NANO }, BtcQuote { t: 5, price: 11 * NANO }]
    );
}

#[test]
fn subscriptions_have_a_key() {
    assert_eq!(subscription_key(&vec![]), "");
    assert_eq!(subscription_key(&vec![market(300, "a", "b")]), "300");
    assert_eq!(subscription_key(&vec![market(300, "a", "b"), market(600, "c", "d")]), "300,600");
}

#[test]
fn asks_of_the_subscribed_markets() {
    let mut f = PolyFeed::new();
    let markets = vec![market(300, "a", "b"), market(600, "c", "d")];
    assert!(!f.is_current(&markets));
    assert_eq!(f.subscribe(&markets), vec!["a", "b", "c", "d"]);
    f.sent(&markets);
    assert!(f.is_current(&markets));
    let book = r#"{"event_type": "book", "asset_id": "a",
        "asks": [{"price": "0.60"}, {"price": 0.55}, {"size": "1"}, {"price": "x"}]}"#;
    assert!(f.apply_text(book, 9).is_empty());
    let best = r#"{"event_type": "best_bid_ask", "asset_id": "b", "best_ask": "0.47"}"#;
    let q = f.apply_text(best, 10);
    assert_eq!(q.len(), 1);
    assert_eq!((q[0].t, q[0].start_ts), (10, 300));
    assert_eq!((q[0].up_ask, q[0].down_ask), (550_000_000, 470_000_000));
    let change = r#"{"event_type": "price_change", "price_changes": [
        {"asset_id": "a", "best_ask": "0.56"}, {"asset_id": "zz", "best_ask": "0.1"},
        {"asset_id": "c", "best_ask": 0.3}, {"asset_id": "d", "best_ask": 0.7},
        {"asset_id": "b"}]}"#;
    let q = f.apply_text(change, 11);
    assert_eq!(q.len(), 2);
    assert_eq!((q[0].up_ask, q[0].down_ask), (560_000_000, 470_000_000));
    assert_eq!((q[1].start_ts, q[1].up_ask, q[1].down_ask), (600, 300_000_000, 700_000_000));
    assert!(f.apply_text("PONG", 12).is_empty() && f.apply_text(" PONG\n", 12).is_empty());
    assert!(f.apply_text("", 12).is_empty() && f.apply_text("\u{a0}", 12).is_empty());
    // white space around a message is no part of it
    assert_eq!(f.apply_text("\u{a0}{}\u{3000}", 12).len(), 2);
    assert_eq!(f.apply_text("{}", 12).len(), 2);
}

#[test]
fn any_ask_that_is_read_is_taken() {
    let mut f = PolyFeed::new();
    f.subscribe(&vec![market(300, "a", "b")]);
    f.apply_text(r#"{"event_type": "best_bid_ask", "asset_id": "a", "best_ask": "0.4"}"#, 1);
    let q = f.apply_text(r#"{"event_type": "best_bid_ask", "asset_id": "b", "best_ask": "2000"}"#, 1);
    assert_eq!((q[0].up_ask, q[0].down_ask), (400_000_000, 2_000_000_000_000));
    let book = r#"{"event_type": "book", "asset_id": "a", "asks": [{"price": 3000}, {"price": 2500}]}"#;
    let q = f.apply_text(book, 2)[0];
    assert_eq!(q.up_ask, 2_500_000_000_000);
    let held = hold_asks(&q);
    assert_eq!((held.up_ask, held.down_ask), (1_000_000_000_000, 1_000_000_000_000));
    let q = PolyQuote { t: 1, start_ts: 300, up_ask: 550_000_000, down_ask: i64::MIN };
    let held = hold_asks(&q);
    assert_eq!((held.t, held.start_ts), (1, 300));
    assert_eq!((held.up_ask, held.down_ask), (550_000_000, -1_000_000_000_000));
}

#[test]
fn an_empty_book_has_no_ask() {
    let mut f = PolyFeed::new();
    f.subscribe(&vec![market(300, "a", "b")]);
    f.apply_text(r#"{"event_type": "best_bid_ask", "asset_id": "a", "best_ask": "0.4"}"#, 1);
    let q = f.apply_text(r#"{"event_type": "best_bid_ask", "asset_id": "b", "best_ask": "0.6"}"#, 1);
    assert_eq!(q.len(), 1);
    assert!(f.apply_text(r#"{"event_type": "book", "asset_id": "a", "asks": []}"#, 2).is_empty());
}

#[test]
fn markets_that_stay_keep_their_asks() {
    let mut f = PolyFeed::new();
    let (a, b) = (market(300, "a", "b"), market(600, "c", "d"));
    f.subscribe(&vec![a.clone(), b.clone()]);
    for (id, ask) in [("a", "0.4"), ("b", "0.6"), ("c", "0.3"), ("d", "0.7")] {
        f.apply_text(
            &format!(r#"{{"event_type": "best_bid_ask", "asset_id": "{id}", "best_ask": "{ask}"}}"#),
            1,
        );
    }
    f.subscribe(&vec![b]);
    let q = f.quotes(2);
    assert_eq!(q.len(), 1);
    assert_eq!((q[0].start_ts, q[0].up_ask), (600, 300_000_000));
    f.subscribe(&vec![a]);
    assert!(f.quotes(3).is_empty());
}
