use polybot::clob::{
    amount_text, booked_buy, booked_sale, credentials_with, default_max_limit, funder, limit_order,
    login, login_with, order_amount, order_for, signature_type_from_cfg, signing_key, OrderClient,
    OrderError, OrderPlan, SignatureKind,
};
use polybot::config::{Config, ConfigError, StrategyKind};
use polybot::gamma::MarketInfo;
use polybot::strategy::sides::PositionSide;

const DOLLAR: i64 = 1_000_000_000;
const CENT: i64 = 10_000_000;

fn cfg(live: bool) -> Config {
    Config {
        live_trading: live,
        strategy: StrategyKind::VenueSwing,
        private_key: Some("ab12".to_string()),
        funder: None,
        signature_type: None,
        api_key: None,
        api_secret: None,
        api_passphrase: None,
        order_shares: 10 * DOLLAR,
    }
}

fn market() -> MarketInfo {
    MarketInfo {
        slug: "btc-updown-5m-300".to_string(),
        title: "t".to_string(),
        start_ts: 300,
        end_ts: 600,
        up_token_id: "111".to_string(),
        down_token_id: "222".to_string(),
        twap_enabled: true,
        twap_lookback_sec: 60,
    }
}

fn live_client() -> OrderClient {
    let mut c = OrderClient::new(&cfg(true)).unwrap();
    c.connected();
    c
}

#[test]
fn highest_limit() {
    assert_eq!(default_max_limit(), 99 * CENT);
}

#[test]
fn what_is_booked() {
    assert_eq!(booked_buy(634_900_000), 63 * CENT);
    assert_eq!((booked_buy(0), booked_buy(2 * DOLLAR)), (CENT, 99 * CENT));
    assert_eq!(booked_sale(634_900_000), 624_900_000);
    assert_eq!((booked_sale(CENT), booked_sale(2 * CENT), booked_sale(3 * CENT)), (CENT, CENT, 2 * CENT));
}

#[test]
fn amounts_have_two_places() {
    assert_eq!(amount_text(77 * CENT), "0.77");
    assert_eq!(amount_text(10 * DOLLAR), "10.00");
    assert_eq!(amount_text(0), "0.00");
    assert_eq!(amount_text(5 * CENT), "0.05");
    assert_eq!(amount_text(1_234_567_890_123), "1234.57");
    assert_eq!(amount_text(125_000_000), "0.12");
    assert_eq!(amount_text(375_000_000), "0.38");
    assert_eq!(amount_text(-2_500_000_000), "-2.50");
    assert_eq!(amount_text(i64::MIN), "-9223372036.85");
}

#[test]
fn amounts_are_decimals_of_two_places() {
    assert_eq!(order_amount(77 * CENT), (77, 2));
    assert_eq!(order_amount(10 * DOLLAR), (1_000, 2));
    assert_eq!(order_amount(0), (0, 2));
    assert_eq!(order_amount(-2_500_000_000), (-250, 2));
    assert_eq!(order_amount(i64::MAX), (922_337_203_685, 2));
    let d: rust_decimal::Decimal = "10.00".parse().unwrap();
    assert_eq!(order_amount(10 * DOLLAR), (d.mantissa(), d.scale()));
}

#[test]
fn orders() {
    let o = limit_order("42", true, 63 * CENT, 7 * DOLLAR).unwrap();
    assert_eq!((o.token_id.as_str(), o.buy, o.price, o.size), ("42", true, (63, 2), (700, 2)));
    let mut number = vec![0u8; 32];
    number[31] = 42;
    assert_eq!(o.token, number);
    let o = limit_order("770", false, 63 * CENT, 7 * DOLLAR).unwrap();
    assert_eq!((o.token[30], o.token[31], o.buy), (3, 2, false));
    let o = order_for("any", Some(vec![9]), true, CENT, DOLLAR).unwrap();
    assert_eq!((o.token_id.as_str(), o.token, o.price, o.size), ("any", vec![9], (1, 2), (100, 2)));
}

#[test]
fn a_token_is_a_number() {
    let e = limit_order("up", true, 63 * CENT, 7 * DOLLAR).unwrap_err();
    assert_eq!(e, OrderError::BadToken);
    assert_eq!(e.message(), "token id parse");
    assert_eq!(order_for("42", None, true, CENT, DOLLAR).unwrap_err(), OrderError::BadToken);
    let mut m = market();
    m.down_token_id = "down".to_string();
    let mut c = live_client();
    let ahead = c.prepare_market(&m);
    assert_eq!(ahead.error, Some(OrderError::BadToken));
    assert_eq!((ahead.orders.len(), ahead.orders[0].token_id.as_str()), (1, "111"));
    m.up_token_id = "up".to_string();
    let ahead = c.prepare_market(&m);
    assert!(ahead.error == Some(OrderError::BadToken) && ahead.orders.is_empty());
    assert!(ahead.sales.is_empty());
    m.up_token_id = "111".to_string();
    assert_eq!(c.replenishment("down").unwrap_err(), OrderError::BadToken);
    assert_eq!(c.sale_replenishment("down").unwrap_err(), OrderError::BadToken);
    assert_eq!(c.sell_side(&m, PositionSide::Down, DOLLAR).unwrap_err(), OrderError::BadToken);
    let e = c.buy_side(&m, PositionSide::Down, 60 * CENT).unwrap_err();
    assert_eq!(e, OrderError::BadToken);
    assert!(c.buy_side(&m, PositionSide::Up, 60 * CENT).is_ok());
    // an order that is signed already is not read again
    c.presigned("down");
    let plan = c.buy_side(&m, PositionSide::Down, 60 * CENT).unwrap();
    assert!(matches!(plan, OrderPlan::PostPresigned { .. }));
    c.presigned_sale("down");
    let plan = c.sell_side(&m, PositionSide::Down, 10 * DOLLAR).unwrap();
    assert!(matches!(plan, OrderPlan::PostPresigned { .. }));
}

#[test]
fn signature_types() {
    let mut c = cfg(true);
    for (n, kind) in [
        (None, SignatureKind::Eoa),
        (Some(0), SignatureKind::Eoa),
        (Some(1), SignatureKind::Proxy),
        (Some(2), SignatureKind::GnosisSafe),
        (Some(3), SignatureKind::Poly1271),
        (Some(4), SignatureKind::Eoa),
    ] {
        c.signature_type = n;
        assert_eq!(signature_type_from_cfg(&c), kind);
    }
}

#[test]
fn keys_are_prefixed() {
    let mut c = cfg(true);
    assert_eq!(signing_key(&c).unwrap(), "0xab12");
    c.private_key = Some("0xab12".to_string());
    assert_eq!(signing_key(&c).unwrap(), "0xab12");
    c.private_key = Some(String::new());
    assert_eq!(signing_key(&c).unwrap_err(), OrderError::NoPrivateKey);
    c.private_key = None;
    let e = signing_key(&c).unwrap_err();
    assert_eq!(e.message(), "POLYMARKET_PRIVATE_KEY required for live trading");
}

/// A configuration with a key that signs, and the address that it signs for.
fn signing_cfg() -> (Config, Vec<u8>) {
    let mut c = cfg(true);
    let mut key = "0".repeat(63);
    key.push('1');
    c.private_key = Some(key);
    let address = vec![
        0x7e, 0x5f, 0x45, 0x52, 0x09, 0x1a, 0x69, 0x12, 0x5d, 0x5d, 0xfc, 0xb7, 0xb8, 0xc2, 0x65,
        0x90, 0x29, 0x39, 0x5b, 0xdf,
    ];
    (c, address)
}

#[test]
fn a_key_signs_for_its_address() {
    let (mut c, address) = signing_cfg();
    let l = login(&c).unwrap();
    assert_eq!(l.signer, address);
    assert!(l.key.starts_with("0x000"));
    assert!(l.credentials.is_none() && l.funder.is_none());
    assert_eq!(l.signature, SignatureKind::Eoa);
    c.private_key = Some(l.key.clone());
    let again = login(&c).unwrap();
    assert_eq!((again.key, again.signer), (l.key, address));
}

#[test]
fn a_session_needs_a_key() {
    let (mut c, address) = signing_cfg();
    c.private_key = Some("ab12".to_string());
    let e = login(&c).unwrap_err();
    assert_eq!(e, OrderError::BadPrivateKey);
    assert_eq!(e.message(), "invalid private key");
    assert_eq!(login_with(&c, None, None).unwrap_err(), OrderError::BadPrivateKey);
    assert_eq!(login_with(&c, Some(address.clone()), None).unwrap().signer, address);
    c.private_key = None;
    assert_eq!(login(&c).unwrap_err(), OrderError::NoPrivateKey);
    assert_eq!(login_with(&c, Some(address), None).unwrap_err(), OrderError::NoPrivateKey);
}

#[test]
fn credentials_need_all_three() {
    let (mut c, _) = signing_cfg();
    assert!(login(&c).unwrap().credentials.is_none());
    c.api_key = Some("550e8400-e29b-41d4-a716-446655440000".to_string());
    c.api_secret = Some("s".to_string());
    assert!(login(&c).unwrap().credentials.is_none());
    c.api_passphrase = Some("p".to_string());
    let got = login(&c).unwrap().credentials.unwrap();
    assert_eq!(got.key, 0x550e8400_e29b_41d4_a716_446655440000);
    assert_eq!((got.secret.as_str(), got.passphrase.as_str()), ("s", "p"));
    c.api_key = Some("no uuid".to_string());
    let e = login(&c).unwrap_err();
    assert_eq!(e, OrderError::BadApiKey);
    assert_eq!(e.message(), "POLYMARKET_API_KEY must be a UUID");
    assert_eq!(credentials_with(&c, Some(7)).unwrap().unwrap().key, 7);
    assert_eq!(credentials_with(&c, None).unwrap_err(), OrderError::BadApiKey);
}

#[test]
fn a_funder_is_an_address() {
    let (mut c, address) = signing_cfg();
    assert!(funder(&c).unwrap().is_none());
    c.funder = Some(String::new());
    assert!(funder(&c).unwrap().is_none());
    for text in [
        "0x7e5f4552091a69125d5dfcb7b8c2659029395bdf",
        "7E5F4552091A69125D5DFCB7B8C2659029395BDF",
        "0X7E5F4552091a69125d5dfcb7b8c2659029395bdf",
    ] {
        c.funder = Some(text.to_string());
        assert_eq!(funder(&c).unwrap(), Some(address.clone()));
        assert_eq!(login(&c).unwrap().funder, Some(address.clone()));
    }
    for text in [
        "0x1",
        "0x7e5f4552091a69125d5dfcb7b8c2659029395bd",
        "0x7e5f4552091a69125d5dfcb7b8c2659029395bdg",
        "0x7e5f4552091a69125d5dfcb7b8c2659029395bdf00",
        " 0x7e5f4552091a69125d5dfcb7b8c2659029395bdf",
    ] {
        c.funder = Some(text.to_string());
        assert_eq!(funder(&c).unwrap_err(), OrderError::BadFunder);
        assert_eq!(login(&c).unwrap_err().message(), "POLYMARKET_FUNDER address");
    }
}

#[test]
fn a_live_client_needs_a_key() {
    let mut c = cfg(true);
    c.private_key = None;
    assert!(matches!(OrderClient::new(&c), Err(ConfigError::NoPrivateKey)));
    c.live_trading = false;
    assert!(!OrderClient::new(&c).unwrap().is_live());
}

#[test]
fn a_dry_client_places_nothing() {
    let mut c = OrderClient::new(&cfg(false)).unwrap();
    c.connected();
    let ahead = c.prepare_market(&market());
    assert!(ahead.orders.is_empty() && ahead.sales.is_empty() && ahead.error.is_none());
    let plan = c.buy_side(&market(), PositionSide::Up, 50 * CENT).unwrap();
    assert!(matches!(plan, OrderPlan::Dry));
    let plan = c.sell_side(&market(), PositionSide::Up, DOLLAR).unwrap();
    assert!(matches!(plan, OrderPlan::Dry));
}

#[test]
fn live_orders_need_a_session() {
    let mut c = OrderClient::new(&cfg(true)).unwrap();
    let ahead = c.prepare_market(&market());
    assert!(ahead.orders.is_empty() && ahead.error == Some(OrderError::NoSession));
    let e = c.buy_side(&market(), PositionSide::Up, 50 * CENT).unwrap_err();
    assert_eq!(e, OrderError::NoSession);
    assert_eq!(e.message(), "live session not initialized");
    let e = c.sell_side(&market(), PositionSide::Up, DOLLAR).unwrap_err();
    assert_eq!(e, OrderError::NoSession);
}

#[test]
fn orders_come_to_a_dollar_at_least() {
    let mut c = live_client();
    let e = c.buy_side(&market(), PositionSide::Up, 9 * CENT).unwrap_err();
    assert_eq!(e, OrderError::BelowMinimum);
    assert_eq!(e.message(), "minimum order is $1");
    assert!(c.buy_side(&market(), PositionSide::Up, 10 * CENT).is_ok());
    // clamped to a cent
    let e = c.buy_side(&market(), PositionSide::Up, -DOLLAR).unwrap_err();
    assert_eq!(e, OrderError::BelowMinimum);
}

#[test]
fn both_tokens_are_signed_ahead() {
    let c = live_client();
    let ahead = c.prepare_market(&market());
    let orders = ahead.orders;
    assert_eq!(orders.len(), 2);
    assert_eq!((orders[0].token_id.as_str(), orders[1].token_id.as_str()), ("111", "222"));
    for o in orders {
        assert_eq!((o.buy, o.price, o.size), (true, (99, 2), (1_000, 2)));
    }
    let sales = ahead.sales;
    assert_eq!(sales.len(), 2);
    assert_eq!((sales[0].token_id.as_str(), sales[1].token_id.as_str()), ("111", "222"));
    for o in sales {
        assert_eq!((o.buy, o.price, o.size), (false, (1, 2), (1_000, 2)));
    }
}

#[test]
fn an_order_signed_ahead_is_placed_once() {
    let mut c = live_client();
    c.presigned("111");
    c.presigned("222");
    let plan = c.buy_side(&market(), PositionSide::Up, 60 * CENT).unwrap();
    assert!(matches!(plan, OrderPlan::PostPresigned { token_id, limit_px }
        if token_id == "111" && limit_px == 99 * CENT));
    let plan = c.buy_side(&market(), PositionSide::Up, 60 * CENT).unwrap();
    assert!(matches!(plan, OrderPlan::SignAndPost(o) if o.token_id == "111" && o.price == (60, 2)));
    let again = c.replenishment("111").unwrap();
    assert_eq!((again.token_id.as_str(), again.price), ("111", (99, 2)));
    c.presigned("111");
    let plan = c.buy_side(&market(), PositionSide::Up, 2 * DOLLAR).unwrap();
    assert!(matches!(plan, OrderPlan::PostPresigned { .. }));
    let plan = c.buy_side(&market(), PositionSide::Down, 30 * CENT).unwrap();
    assert!(matches!(plan, OrderPlan::PostPresigned { token_id, .. } if token_id == "222"));
}

#[test]
fn no_limit_is_out_of_reach() {
    let mut c = live_client();
    c.presigned("222");
    let plan = c.buy_side(&market(), PositionSide::Down, 80 * CENT).unwrap();
    assert!(matches!(plan, OrderPlan::PostPresigned { limit_px, .. } if limit_px == 99 * CENT));
    let plan = c.buy_side(&market(), PositionSide::Down, 80 * CENT).unwrap();
    assert!(matches!(plan, OrderPlan::SignAndPost(o) if o.price == (80, 2) && o.buy));
}

#[test]
fn sales_cross_the_book() {
    let mut c = live_client();
    let plan = c.sell_side(&market(), PositionSide::Down, 4 * DOLLAR).unwrap();
    assert!(matches!(plan, OrderPlan::SignAndPost(o)
        if o.token_id == "222" && !o.buy && o.price == (1, 2) && o.size == (400, 2)));
}

#[test]
fn a_sale_signed_ahead_is_placed_once() {
    let mut c = live_client();
    c.presigned_sale("111");
    c.presigned_sale("222");
    c.presigned("222");
    // another size is signed anew and leaves what is signed ahead
    let plan = c.sell_side(&market(), PositionSide::Up, 4 * DOLLAR).unwrap();
    assert!(matches!(plan, OrderPlan::SignAndPost(o) if o.size == (400, 2) && o.price == (1, 2)));
    let plan = c.sell_side(&market(), PositionSide::Up, 10 * DOLLAR).unwrap();
    assert!(matches!(plan, OrderPlan::PostPresigned { token_id, limit_px }
        if token_id == "111" && limit_px == CENT));
    let plan = c.sell_side(&market(), PositionSide::Up, 10 * DOLLAR).unwrap();
    assert!(matches!(plan, OrderPlan::SignAndPost(o) if o.size == (1_000, 2) && !o.buy));
    let again = c.sale_replenishment("111").unwrap();
    assert_eq!((again.token_id.as_str(), again.buy, again.price, again.size), ("111", false, (1, 2), (1_000, 2)));
    let plan = c.sell_side(&market(), PositionSide::Down, 10 * DOLLAR).unwrap();
    assert!(matches!(plan, OrderPlan::PostPresigned { token_id, .. } if token_id == "222"));
    let plan = c.buy_side(&market(), PositionSide::Down, 60 * CENT).unwrap();
    assert!(matches!(plan, OrderPlan::PostPresigned { token_id, .. } if token_id == "222"));
}
