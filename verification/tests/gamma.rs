use polybot::calendar::{chrono_iso, civil_from_days};
use polybot::gamma::{
    btc5m_slug, default_lookback, env_bool, env_i64, events_url, is_rate_limited, market_info,
    market_url, parse_events, parse_json_array, parse_market, parse_open_price, pick_up_down,
    ptb_url, GammaError, PtbStep, PtbWait, GAMMA_BASE,
};
use polybot::json::Item;

fn strings(v: &[&str]) -> Vec<String> {
    v.iter().map(|s| s.to_string()).collect()
}

#[test]
fn slugs_and_addresses() {
    assert_eq!(btc5m_slug(1_700_000_100), "btc-updown-5m-1700000100");
    assert_eq!(btc5m_slug(-5), "btc-updown-5m--5");
    assert_eq!(
        events_url(GAMMA_BASE, "x"),
        "https://gamma-api.polymarket.com/events?slug=x"
    );
    assert_eq!(
        market_url(GAMMA_BASE, "x"),
        "https://gamma-api.polymarket.com/markets/slug/x"
    );
}

#[test]
fn dates() {
    assert_eq!(chrono_iso(0), "1970-01-01T00:00:00Z");
    assert_eq!(chrono_iso(1_700_000_100), "2023-11-14T22:15:00Z");
    assert_eq!(chrono_iso(951_782_399), "2000-02-28T23:59:59Z");
    assert_eq!(chrono_iso(951_782_400), "2000-02-29T00:00:00Z");
    assert_eq!(civil_from_days(-1), (1969, 12, 31));
    assert_eq!(civil_from_days(-719_468), (0, 3, 1));
    assert_eq!(civil_from_days(19_675), (2023, 11, 14));
}

#[test]
fn address_of_an_opening_price() {
    assert_eq!(
        ptb_url("http://p", "btc", 1_700_000_100, true, 60),
        "http://p?symbol=BTC&eventStartTime=2023-11-14T22:15:00Z&variant=fiveminute\
         &endDate=2023-11-14T22:20:00Z&twapEnabled=true&twapLookbackSeconds=60"
    );
    assert_eq!(
        ptb_url("http://p", "Eth", 0, false, 60),
        "http://p?symbol=ETH&eventStartTime=1970-01-01T00:00:00Z&variant=fiveminute\
         &endDate=1970-01-01T00:05:00Z"
    );
    assert!(ptb_url("u", "b", 0, true, -3).ends_with("&twapLookbackSeconds=1"));
}

#[test]
fn arrays_come_as_arrays_or_as_text() {
    let list = Item::Nested(r#"["1", 2, "3"]"#.to_string());
    assert_eq!(parse_json_array(Some(&list)), strings(&["1", "3"]));
    let text = Item::Text(r#"["1","3"]"#.to_string());
    assert_eq!(parse_json_array(Some(&text)), strings(&["1", "3"]));
    let mixed = Item::Text(r#"["1", 2]"#.to_string());
    assert!(parse_json_array(Some(&mixed)).is_empty());
    assert!(parse_json_array(Some(&Item::Null)).is_empty());
    assert!(parse_json_array(None).is_empty());
}

#[test]
fn tokens_by_outcome() {
    let pick = |o: &[&str], t: &[&str]| pick_up_down(&strings(o), &strings(t));
    let up_down = ("a".to_string(), "b".to_string());
    let down_up = ("b".to_string(), "a".to_string());
    assert_eq!(pick(&["Up", "Down"], &["a", "b"]), Ok(up_down.clone()));
    assert_eq!(pick(&["DOWN", "UP"], &["a", "b"]), Ok(down_up.clone()));
    assert_eq!(pick(&["No", "Yes"], &["a", "b"]), Ok(down_up.clone()));
    assert_eq!(pick(&[], &["a", "b"]), Ok(up_down.clone()));
    assert_eq!(pick(&["x", "up"], &["a", "b"]), Ok(down_up));
    assert_eq!(pick(&["x", "down"], &["a", "b"]), Ok(up_down));
    assert_eq!(pick(&["Up", "Down"], &["a"]), Err(GammaError::TokenCount(1)));
    assert_eq!(pick(&["x", "y", "up"], &["a", "b"]), Err(GammaError::NoToken));
}

#[test]
fn outcomes_are_lowered_beyond_ascii() {
    // the Kelvin sign is lowered to k, which is neither outcome
    let got = pick_up_down(&strings(&["\u{212a}", "UP"]), &strings(&["a", "b"]));
    assert_eq!(got, Ok(("b".to_string(), "a".to_string())));
}

#[test]
fn market_of_an_event() {
    let text = r#"[{"markets": [{"question": "Up or down?",
        "clobTokenIds": "[\"11\", \"22\"]", "outcomes": ["Up", "Down"],
        "cryptoMarketConfig": {"twapEnabled": false, "twapLookbackSeconds": 30}}]}]"#;
    let v = parse_events(text).unwrap();
    let m = market_info(&v, 1_700_000_100, true, 60).unwrap();
    assert_eq!(m.slug, "btc-updown-5m-1700000100");
    assert_eq!(m.title, "Up or down?");
    assert_eq!((m.start_ts, m.end_ts), (1_700_000_100, 1_700_000_400));
    assert_eq!((m.up_token_id.as_str(), m.down_token_id.as_str()), ("11", "22"));
    assert_eq!((m.twap_enabled, m.twap_lookback_sec), (false, 30));
}

#[test]
fn fields_come_by_name_or_in_order() {
    let fields = r#"["Q", ["11", "22"], ["Up", "Down"], {"twapLookbackSeconds": 30}]"#;
    let m = market_info(&parse_market(fields).unwrap(), 300, true, 60).unwrap();
    assert_eq!((m.title.as_str(), m.twap_enabled, m.twap_lookback_sec), ("Q", true, 30));
    assert_eq!((m.up_token_id.as_str(), m.down_token_id.as_str()), ("11", "22"));
    let v = parse_events(&format!("[[[{fields}]]]")).unwrap();
    assert_eq!(market_info(&v, 300, true, 60).unwrap().title, "Q");
    let v = parse_events(&format!(r#"{{"markets": [{fields}, {{}}]}}"#)).unwrap();
    assert_eq!(market_info(&v, 300, true, 60).unwrap().down_token_id, "22");
    for bad in ["[]", r#"["Q", null, null]"#, r#"["Q", null, null, null, null]"#, "[1, 2, 3, 4]"] {
        assert!(parse_market(bad).is_err(), "{bad}");
        assert!(parse_events(&format!("[[[{bad}]]]")).is_none(), "{bad}");
    }
    // an event is one field, and its markets may be none
    assert!(parse_events(&format!("[[[{fields}], 1]]")).is_none());
    assert!(parse_events("[[null]]").is_none());
    let v = parse_market("[null, null, null, null]").unwrap();
    assert!(matches!(market_info(&v, 300, true, 60), Err(GammaError::TokenCount(0))));
}

#[test]
fn market_of_its_own_answer() {
    assert!(parse_events("[]").is_none());
    assert!(parse_events("no json").is_none());
    assert!(parse_events(r#"{"markets": []}"#).is_none());
    assert!(matches!(parse_market("no json"), Err(GammaError::NoMarket)));
    let v = parse_market(r#"{"clobTokenIds": ["11", "22"], "outcomes": ["Down", "Up"]}"#).unwrap();
    let m = market_info(&v, 300, true, 60).unwrap();
    assert_eq!(m.title, "btc-updown-5m-300");
    assert_eq!((m.up_token_id.as_str(), m.down_token_id.as_str()), ("22", "11"));
    assert_eq!((m.twap_enabled, m.twap_lookback_sec), (true, 60));
    let v = parse_market(r#"{"clobTokenIds": ["11"]}"#).unwrap();
    assert!(matches!(market_info(&v, 300, true, 60), Err(GammaError::TokenCount(1))));
}

#[test]
fn settings() {
    assert!(env_bool(None, true) && !env_bool(None, false));
    assert!(env_bool(Some(" TRUE "), false) && env_bool(Some("1"), false));
    assert!(!env_bool(Some("on"), true));
    assert_eq!(env_i64(Some(" 42 "), 7), 42);
    assert_eq!(env_i64(Some("-42"), 7), -42);
    assert_eq!(env_i64(Some("4.2"), 7), 7);
    assert_eq!(env_i64(Some("9223372036854775808"), 7), 7);
    assert_eq!(env_i64(None, 7), 7);
    assert_eq!(default_lookback(None), 60);
    assert_eq!(default_lookback(Some("0")), 1);
    assert_eq!(default_lookback(Some("90")), 90);
}

#[test]
fn opening_prices() {
    assert_eq!(parse_open_price(r#"{"openPrice": 68000.5}"#), Ok(68_000_500_000_000));
    assert_eq!(parse_open_price(r#"{"openPrice": "68000.5"}"#), Ok(68_000_500_000_000));
    for text in [r#"{"openPrice": 0}"#, r#"{"openPrice": "-1"}"#, "{}", "[]", "", "null"] {
        assert_eq!(parse_open_price(text), Err(GammaError::NoOpenPrice), "{text}");
    }
}

#[test]
fn rate_limits() {
    assert!(is_rate_limited("ptb http: HTTP status client error (429 Too Many Requests)"));
    assert!(!is_rate_limited("HTTP status 500"));
}

#[test]
fn a_price_at_rest_is_locked_at_the_fourth_attempt() {
    let mut w = PtbWait::new();
    let px = 68_000_000_000_000;
    assert_eq!(w.attempt(None), PtbStep::Retry);
    assert_eq!(w.attempt(Some(px - 1_000_000)), PtbStep::Retry);
    assert_eq!(w.attempt(Some(px)), PtbStep::Retry);
    assert_eq!(w.attempt(Some(px + 99_999)), PtbStep::Retry);
    assert_eq!(w.attempt(None), PtbStep::Retry);
    assert_eq!(w.attempt(Some(px)), PtbStep::Retry);
    assert_eq!(w.attempt(Some(px + 1)), PtbStep::Locked(px + 1));
}

#[test]
fn a_moving_price_is_given_up_on() {
    let mut w = PtbWait::new();
    for i in 0..79 {
        assert_eq!(w.attempt(Some(1_000_000_000 + i * 100_000)), PtbStep::Retry);
    }
    assert_eq!(w.attempt(Some(5)), PtbStep::GiveUp(Some(5)));
    let mut w = PtbWait::new();
    for _ in 0..79 {
        assert_eq!(w.attempt(None), PtbStep::Retry);
    }
    assert_eq!(w.attempt(None), PtbStep::GiveUp(None));
}
