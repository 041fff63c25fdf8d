use polybot::config::{Config, ConfigError, RawEnv, StrategyKind};

fn raw() -> RawEnv {
    RawEnv {
        live_trading: None,
        strategy: None,
        private_key: None,
        funder: None,
        signature_type: None,
        api_key: None,
        api_secret: None,
        api_passphrase: None,
        order_shares: None,
    }
}

fn some(s: &str) -> Option<String> {
    Some(s.to_string())
}

#[test]
fn strategies_by_name() {
    for name in ["pairing", "pair", " PAIR "] {
        assert_eq!(StrategyKind::parse(name).unwrap(), StrategyKind::Pairing);
    }
    for name in ["gap_swing", "gap-swing", "gapswing", "gap", "Swing"] {
        assert_eq!(StrategyKind::parse(name).unwrap(), StrategyKind::GapSwing);
    }
    assert_eq!(StrategyKind::parse(" Venue_Swing").unwrap(), StrategyKind::VenueSwing);
    for name in ["venue-swing", "venueswing", "venue"] {
        assert!(StrategyKind::parse(name).is_err());
    }
    for kind in [StrategyKind::Pairing, StrategyKind::GapSwing, StrategyKind::VenueSwing] {
        assert_eq!(StrategyKind::parse(kind.label()).unwrap(), kind);
    }
}

#[test]
fn unknown_strategy() {
    let e = StrategyKind::parse(" Martingale ").unwrap_err();
    assert!(matches!(&e, ConfigError::UnknownStrategy(name) if name == "martingale"));
    assert_eq!(
        e.message(),
        "unknown STRATEGY=martingale (use venue_swing | gap_swing | pairing)"
    );
}

#[test]
fn defaults() {
    let c = Config::from_env(&raw()).unwrap();
    assert!(!c.live_trading);
    assert_eq!(c.strategy, StrategyKind::VenueSwing);
    assert_eq!(c.order_shares, 10_000_000_000);
    assert!(c.private_key.is_none() && c.funder.is_none() && c.signature_type.is_none());
    assert!(c.validate_for_live().is_ok());
}

#[test]
fn values_are_trimmed_and_empty_is_absent() {
    let mut r = raw();
    r.live_trading = some(" true ");
    r.strategy = some("  ");
    r.private_key = some(" abc\n");
    r.funder = some("");
    r.signature_type = some("3");
    r.order_shares = some("2.5");
    let c = Config::from_env(&r).unwrap();
    assert!(c.live_trading);
    assert_eq!(c.strategy, StrategyKind::VenueSwing);
    assert_eq!(c.private_key.as_deref(), Some("abc"));
    assert!(c.funder.is_none());
    assert_eq!(c.signature_type, Some(3));
    assert_eq!(c.order_shares, 2_500_000_000);
    assert!(c.validate_for_live().is_ok());
}

#[test]
fn live_trading_is_true_or_one() {
    for (text, on) in [("true", true), ("1", true), ("TRUE", false), ("yes", false), ("0", false)] {
        let mut r = raw();
        r.live_trading = some(text);
        assert_eq!(Config::from_env(&r).unwrap().live_trading, on, "{text}");
    }
}

#[test]
fn unreadable_numbers_fall_back() {
    let mut r = raw();
    r.signature_type = some("many");
    r.order_shares = some("ten");
    let c = Config::from_env(&r).unwrap();
    assert_eq!(c.signature_type, Some(2));
    assert_eq!(c.order_shares, 10_000_000_000);
    for (text, n) in [("256", 2), ("-1", 2), ("0", 0), ("255", 255), ("-0", 2), ("+7", 7)] {
        r.signature_type = some(text);
        assert_eq!(Config::from_env(&r).unwrap().signature_type, Some(n), "{text}");
    }
}

#[test]
fn an_unknown_strategy_is_no_configuration() {
    let mut r = raw();
    r.strategy = some("Hold");
    let e = Config::from_env(&r).unwrap_err();
    assert!(matches!(e, ConfigError::UnknownStrategy(name) if name == "hold"));
}

#[test]
fn live_trading_needs_a_key() {
    let mut r = raw();
    r.live_trading = some("1");
    let e = Config::from_env(&r).unwrap().validate_for_live().unwrap_err();
    assert!(matches!(&e, ConfigError::NoPrivateKey));
    assert_eq!(e.message(), "LIVE_TRADING=true requires POLYMARKET_PRIVATE_KEY");
}
