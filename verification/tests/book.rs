use polybot::dry_fills::{take_due, Due, FillKind, PendingDryFill};
use polybot::gamma::MarketInfo;
use polybot::poly_book::{
    subscribe_window_starts, trading_window_start, window_end_ms, window_open_ms, MarketQuotes,
    PolyBook,
};
use polybot::strategy::sides::PositionSide;
use polybot::strategy::trades::Reason;
use polybot::subscriptions::{market_token_ids, SubscribePlan, Subscriptions};

const CENT: i64 = 10_000_000;
const START: i64 = 1_700_000_100;

fn market(start_ts: i64) -> MarketInfo {
    MarketInfo {
        slug: format!("m{start_ts}"),
        title: "t".to_string(),
        start_ts,
        end_ts: start_ts + 300,
        up_token_id: format!("u{start_ts}"),
        down_token_id: format!("d{start_ts}"),
        twap_enabled: true,
        twap_lookback_sec: 60,
    }
}

#[test]
fn windows_of_a_time() {
    let open = START * 1_000;
    assert_eq!(trading_window_start(open), START);
    assert_eq!(trading_window_start(open - 1), START - 300);
    assert_eq!(trading_window_start(open + 299_999), START);
    assert_eq!((window_open_ms(START), window_end_ms(START)), (open, open + 300_000));
    assert_eq!(subscribe_window_starts(open), vec![START]);
    assert_eq!(subscribe_window_starts(open + 294_999), vec![START]);
    assert_eq!(subscribe_window_starts(open + 295_000), vec![START, START + 300]);
    assert_eq!(subscribe_window_starts(open + 300_000), vec![START + 300]);
    assert_eq!(trading_window_start(i64::MIN), -9_223_372_036_854_600);
}

#[test]
fn quotes_of_a_window() {
    let mut b = PolyBook::new();
    b.push(START, 10, 40 * CENT, 60 * CENT);
    b.push(START, 20, 41 * CENT, 0);
    b.push(START, 30, 0, 59 * CENT);
    assert_eq!(
        b.latest(START),
        Some(MarketQuotes { t: 20, up_ask: 41 * CENT, down_ask: 0 })
    );
    assert_eq!(b.ask_before(START, 10, PositionSide::Up), None);
    assert_eq!(b.ask_before(START, 11, PositionSide::Up), Some(40 * CENT));
    assert_eq!(b.ask_before(START, 21, PositionSide::Up), Some(41 * CENT));
    assert_eq!(b.ask_before(START, 21, PositionSide::Down), Some(60 * CENT));
    assert_eq!(b.ask_before(START + 300, 21, PositionSide::Down), None);
    assert_eq!(b.history(START), vec![(10, 40 * CENT, 60 * CENT), (20, 41 * CENT, 0)]);
}

#[test]
fn old_quotes_are_dropped_and_windows_forgotten() {
    let mut b = PolyBook::new();
    b.push(START, 0, 40 * CENT, 60 * CENT);
    b.push(START, 15_000, 41 * CENT, 59 * CENT);
    assert_eq!(b.history(START).len(), 2);
    b.push(START, 15_001, 42 * CENT, 58 * CENT);
    assert_eq!(b.history(START).len(), 2);
    b.push(START + 300, 15_001, 42 * CENT, 58 * CENT);
    b.clear_window(START);
    assert!(b.latest(START).is_none() && b.history(START).is_empty());
    assert!(b.latest(START + 300).is_some());
}

#[test]
fn tokens_are_listed_once() {
    let ids = market_token_ids(&vec![market(0), market(300), market(0)]);
    assert_eq!(ids, vec!["u0", "d0", "u300", "d300"]);
}

#[test]
fn an_opening_window_keeps_the_subscription() {
    let mut s = Subscriptions::new();
    let open = START * 1_000;
    assert_eq!(s.unresolved(open), vec![START]);
    assert!(matches!(s.sync(open), SubscribePlan::Unresolved));
    s.resolved(START, market(START));
    assert!(s.unresolved(open).is_empty());
    assert!(matches!(s.sync(open), SubscribePlan::Subscribe(m) if m.len() == 1));
    assert!(matches!(s.sync(open + 1), SubscribePlan::Unchanged));
    assert!(s.is_subscribed(START) && !s.is_subscribed(START + 300));
    let late = open + 295_000;
    assert_eq!(s.unresolved(late), vec![START + 300]);
    s.resolved(START + 300, market(START + 300));
    assert!(matches!(s.sync(late), SubscribePlan::Subscribe(m)
        if m.len() == 2 && m[1].start_ts == START + 300));
    assert!(matches!(s.sync(open + 300_000), SubscribePlan::Rolled));
    assert!(!s.is_subscribed(START) && s.is_subscribed(START + 300));
    assert_eq!(s.market(START).unwrap().slug, format!("m{START}"));
    assert!(s.market(7).is_none());
}

#[test]
fn a_window_that_was_missed_is_subscribed_to() {
    let mut s = Subscriptions::new();
    let open = START * 1_000;
    s.resolved(START, market(START));
    s.resolved(START + 300, market(START + 300));
    s.sync(open);
    assert!(matches!(s.sync(open + 300_000), SubscribePlan::Subscribe(m) if m.len() == 1));
}

#[test]
fn opening_prices_are_fetched_ahead() {
    let mut s = Subscriptions::new();
    let open = START * 1_000;
    // about to open, so every 400 milliseconds
    assert_eq!(s.prefetch(open), vec![START]);
    assert!(s.prefetch(open + 399).is_empty());
    assert_eq!(s.prefetch(open + 400), vec![START]);
    // limited, so not at all for eight seconds
    s.rate_limited(open + 500);
    assert!(s.ptb_429_cooling(open + 8_499) && !s.ptb_429_cooling(open + 8_500));
    assert!(s.prefetch(open + 5_000).is_empty());
    assert_eq!(s.prefetch(open + 8_500), vec![START]);
    s.prefetched(START, 68_000);
    assert_eq!(s.strike(START), Some(68_000));
    assert!(s.prefetch(open + 20_000).is_empty());
    // the next one from ten seconds before, once it is wanted
    assert!(s.prefetch(open + 294_000).is_empty());
    assert_eq!(s.prefetch(open + 299_000), vec![START + 300]);
    // not more than 45 seconds after
    assert!(s.prefetch(open + 345_001).is_empty());
}

fn fill(send_t: i64, start_ts: i64) -> PendingDryFill {
    PendingDryFill {
        send_t,
        start_ts,
        side: PositionSide::Up,
        kind: FillKind::Entry,
        worst_ask: 50 * CENT,
        reason: Reason::SwingTrough,
    }
}

#[test]
fn fills_are_taken_once() {
    let mut q = vec![fill(100, 1), fill(200, 2), fill(150, 1)];
    let due = take_due(Due::At { now: 350, delay_ms: 250 }, &mut q);
    assert_eq!(due, vec![fill(100, 1)]);
    let due = take_due(Due::At { now: 350, delay_ms: 250 }, &mut q);
    assert!(due.is_empty());
    let due = take_due(Due::Window { start_ts: 1 }, &mut q);
    assert_eq!(due, vec![fill(150, 1)]);
    assert_eq!(q, vec![fill(200, 2)]);
    assert_eq!(FillKind::Flatten.label(), "SELL");
    assert_eq!(FillKind::Entry.label(), "ENTRY");
    assert_eq!(FillKind::Pair.label(), "PAIR");
}
