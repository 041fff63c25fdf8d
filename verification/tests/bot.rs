use polybot::bot::state::{Order, WindowReport};
use polybot::bot::Bot;
use polybot::config::{Config, StrategyKind};
use polybot::dry_fills::FillKind;
use polybot::feeds::polymarket::PolyQuote;
use polybot::gamma::MarketInfo;
use polybot::strategy::sides::PositionSide;
use polybot::strategy::trades::{BotAction, Reason};
use polybot::subscriptions::SubscribePlan;

const DOLLAR: i64 = 1_000_000_000;
const CENT: i64 = 10_000_000;
const START: i64 = 1_700_000_100;
const OPEN: i64 = START * 1_000;
const STRIKE: i64 = 100_000 * DOLLAR;
const ATTO: i128 = 1_000_000_000_000_000_000;

fn cfg(strategy: StrategyKind, live: bool) -> Config {
    Config {
        live_trading: live,
        strategy,
        private_key: Some("k".to_string()),
        funder: None,
        signature_type: None,
        api_key: None,
        api_secret: None,
        api_passphrase: None,
        order_shares: 10 * DOLLAR,
    }
}

fn market(start_ts: i64) -> MarketInfo {
    MarketInfo {
        slug: format!("m{start_ts}"),
        title: "t".to_string(),
        start_ts,
        end_ts: start_ts + 300,
        up_token_id: format!("u{start_ts}"),
        down_token_id: format!("d{start_ts}"),
        twap_enabled: true,
        twap_lookback_sec: 60,
    }
}

/// A bot in a window that has just started.
fn started(strategy: StrategyKind, live: bool) -> Bot {
    let mut b = Bot::new(&cfg(strategy, live), OPEN);
    b.resolved(START, market(START));
    assert!(matches!(b.sync_subscriptions(OPEN), SubscribePlan::Subscribe(m) if m.len() == 1));
    assert_eq!(b.window_turn(OPEN), Some((None, START)));
    assert!(b.start_trading_window(START, OPEN).is_empty());
    assert_eq!(b.window_turn(OPEN + 1), None);
    b
}

fn quote(b: &mut Bot, t: i64, up: i64, down: i64) {
    b.on_poly(&PolyQuote { t, start_ts: START, up_ask: up * CENT, down_ask: down * CENT });
}

fn entry(t: i64) -> BotAction {
    BotAction::BuyEntry {
        side: PositionSide::Down,
        signal_t: t,
        worst_ask: 47 * CENT,
        reason: Reason::SwingPeak,
    }
}

fn flatten(t: i64, worst: i64) -> BotAction {
    BotAction::SellFlatten {
        side: PositionSide::Down,
        signal_t: t,
        worst_ask: worst * CENT,
        reason: Reason::Flatten,
    }
}

fn line(z: i64) -> i64 {
    (500_000_000 + z / 4).clamp(0, DOLLAR)
}

#[test]
fn nothing_is_traded_without_a_market() {
    let mut b = Bot::new(&cfg(StrategyKind::VenueSwing, true), OPEN);
    assert_eq!(b.strategy(), StrategyKind::VenueSwing);
    assert!(!b.can_trade(OPEN));
    assert_eq!(b.execute_action(&entry(OPEN), OPEN), Order::Dropped);
    assert!(b.market().is_none() && b.has_room_for_a_price());
}

#[test]
fn nothing_is_traded_before_the_open() {
    let mut b = started(StrategyKind::VenueSwing, true);
    assert!(!b.can_trade(OPEN - 1) && b.can_trade(OPEN));
    assert_eq!(b.execute_action(&entry(OPEN), OPEN - 1), Order::Dropped);
    assert_eq!(
        b.execute_action(&entry(OPEN), OPEN),
        Order::Buy {
            side: PositionSide::Down,
            worst_ask: 47 * CENT,
            reason: Reason::SwingPeak,
            pair: false,
        }
    );
}

#[test]
fn gap_swing_waits_for_its_strike() {
    let mut b = started(StrategyKind::GapSwing, true);
    assert!(!b.can_trade(OPEN) && !b.ptb_locked());
    assert_eq!(b.execute_action(&entry(OPEN), OPEN), Order::Dropped);
    b.on_rtds(OPEN - 1, STRIKE, OPEN);
    assert!(!b.ptb_locked());
    b.on_rtds(OPEN, 0, OPEN);
    assert!(!b.ptb_locked());
    b.on_rest_strike(START + 300, STRIKE, OPEN);
    assert!(!b.ptb_locked());
    b.on_rtds(OPEN, STRIKE, OPEN);
    assert!(b.ptb_locked() && b.can_trade(OPEN));
}

#[test]
fn the_first_strike_stays() {
    let mut b = started(StrategyKind::GapSwing, false);
    b.on_rest_strike(START, STRIKE, OPEN + 9_000);
    b.on_rtds(OPEN + 10_000, STRIKE + DOLLAR, OPEN + 10_000);
    b.ingest_bn(OPEN + 10_000, STRIKE + 5 * DOLLAR);
    let note = b.tape_note(OPEN + 10_000).unwrap();
    assert_eq!(note.delta, Some(5 * DOLLAR));
    assert_eq!((note.fills, note.unpaired, note.pairs), (0, 0, 0));
    assert!(b.tape_note(OPEN + 24_999).is_none());
    assert!(b.tape_note(OPEN + 25_000).is_some());
}

#[test]
fn an_average_of_the_window_that_starts_is_its_strike() {
    let mut b = Bot::new(&cfg(StrategyKind::GapSwing, false), OPEN);
    b.resolved(START, market(START));
    b.sync_subscriptions(OPEN);
    b.on_rtds(OPEN + 5, STRIKE, OPEN + 5);
    assert!(!b.ptb_locked());
    b.start_trading_window(START, OPEN + 10);
    assert!(b.ptb_locked());
}

#[test]
fn a_dry_run_queues_its_orders() {
    let mut b = started(StrategyKind::VenueSwing, false);
    quote(&mut b, OPEN + 10, 55, 45);
    quote(&mut b, OPEN + 100, 54, 46);
    assert_eq!(b.execute_action(&entry(OPEN + 40), OPEN + 40), Order::Queued);
    assert_eq!(b.execute_action(&flatten(OPEN + 40, 47), OPEN + 40), Order::Queued);
    assert_eq!(b.execute_action(&flatten(OPEN + 40, 1), OPEN + 40), Order::Queued);
    assert_eq!(b.pending_fills(), 3);
    assert!(b.process_pending_dry(OPEN + 109).is_empty());
    let fills = b.process_pending_dry(OPEN + 110);
    assert_eq!(b.pending_fills(), 0);
    // the ask just before the fill; a cent off for a sale, a cent at least
    assert_eq!((fills[0].0.kind, fills[0].1), (FillKind::Entry, 46 * CENT));
    assert_eq!((fills[1].0.kind, fills[1].1), (FillKind::Flatten, 46 * CENT));
    assert_eq!((fills[2].0.kind, fills[2].1), (FillKind::Flatten, CENT));
}

#[test]
fn a_fill_without_a_quote_pays_the_worst_ask() {
    let mut b = started(StrategyKind::GapSwing, false);
    b.on_rtds(OPEN, STRIKE, OPEN);
    b.execute_action(&entry(OPEN), OPEN);
    assert!(b.process_pending_dry(OPEN + 249).is_empty());
    assert_eq!(b.process_pending_dry(OPEN + 250)[0].1, 47 * CENT);
}

#[test]
fn only_subscribed_quotes_are_taken() {
    let mut b = started(StrategyKind::VenueSwing, false);
    b.on_poly(&PolyQuote { t: OPEN, start_ts: 7, up_ask: CENT, down_ask: CENT });
    b.execute_action(
        &BotAction::BuyPair {
            side: PositionSide::Up,
            signal_t: OPEN,
            worst_ask: 33 * CENT,
            reason: Reason::EarlyOpposite,
        },
        OPEN,
    );
    let fills = b.flush_dry_fills_for_window(START);
    assert_eq!((fills[0].0.kind, fills[0].1), (FillKind::Pair, 33 * CENT));
}

/// Drives a bot through a peak and a dump.
fn drive(b: &mut Bot, bn: bool) -> Vec<Order> {
    let mut orders = vec![];
    for (dt, d) in [(0, 0), (10_000, 60), (10_200, 40), (12_000, 40), (20_000, 0), (21_000, 0)] {
        let now = OPEN + dt;
        quote(b, now, 40, 45);
        b.feed_asks();
        if bn {
            orders.extend(b.drive_bn(now, STRIKE + d * DOLLAR, now, &line));
        } else {
            orders.extend(b.drive_cb(now, STRIKE + d * DOLLAR, false, now, &line));
        }
        orders.extend(b.drive_tick(now));
    }
    orders
}

#[test]
fn swings_are_traded_live() {
    for strategy in [StrategyKind::GapSwing, StrategyKind::VenueSwing] {
        for bn in [true, false] {
            let mut b = started(strategy, true);
            b.on_rtds(OPEN, STRIKE, OPEN);
            let orders = drive(&mut b, bn);
            assert_eq!(orders.len(), 2, "{strategy:?} {bn}");
            assert!(matches!(orders[0], Order::Buy {
                side: PositionSide::Down, pair: false, reason: Reason::SwingPeak, .. }));
            assert!(matches!(orders[1], Order::Buy {
                side: PositionSide::Up, pair: true, reason: Reason::EarlyOpposite, .. }));
        }
    }
}

#[test]
fn gap_swing_uses_coinbase_only_where_binance_is_silent() {
    let mut b = started(StrategyKind::GapSwing, true);
    b.on_rtds(OPEN, STRIKE, OPEN);
    quote(&mut b, OPEN, 40, 45);
    b.feed_asks();
    for (dt, d) in [(0, 0), (10_000, 60), (10_200, 40), (12_000, 40)] {
        let now = OPEN + dt;
        assert!(b.drive_cb(now, STRIKE + d * DOLLAR, true, now, &line).is_empty());
    }
    b.ingest_bn(OPEN + 13_000, STRIKE);
    b.ingest_cb(OPEN + 13_000, STRIKE + 7 * DOLLAR);
    assert_eq!(b.tape_note(OPEN + 13_000).unwrap().delta, Some(0));
}

#[test]
fn a_swing_window_is_settled_as_a_whole() {
    let mut b = started(StrategyKind::VenueSwing, false);
    b.on_rtds(OPEN, STRIKE, OPEN);
    assert_eq!(drive(&mut b, true), vec![Order::Queued, Order::Queued]);
    b.process_pending_dry(OPEN + 30_000);
    assert_eq!(b.totals().net, 0);
    let end = OPEN + 300_000;
    assert_eq!(b.window_turn(end), Some((Some(START), START + 300)));
    assert!(b.close_tick(START, end).is_empty());
    let report = b.close_window(START);
    // the fills in place were paired before, and nothing is left to play
    assert!(matches!(report, WindowReport::Settled { slug, pairs: 1, trades: 0, net: 0 }
        if slug == format!("m{START}")));
    assert_eq!(b.totals().net, 0);
}

#[test]
fn the_oracle_settles_a_window() {
    for (last, gross) in [(STRIKE - 1, -4 * ATTO), (STRIKE, -4 * ATTO), (STRIKE + 1, 6 * ATTO)] {
        let mut b = Bot::new(&cfg(StrategyKind::Pairing, true), OPEN);
        b.resolved(START, market(START));
        b.sync_subscriptions(OPEN);
        b.official_found(START, STRIKE);
        b.start_trading_window(START, OPEN);
        quote(&mut b, OPEN, 50, 50);
        b.buy_filled(PositionSide::Up, 40 * CENT, false);
        // neither venue's price counts
        b.drive_bn(OPEN + 1, STRIKE + 90 * DOLLAR, OPEN + 1, &line);
        b.drive_cb(OPEN + 2, STRIKE - 90 * DOLLAR, true, OPEN + 2, &line);
        b.on_rtds(OPEN + 299_000, last, OPEN + 299_000);
        assert!(matches!(b.close_window(START), WindowReport::Closed(c) if c.gross == gross));
    }
}

#[test]
fn live_fills_are_booked() {
    let mut b = started(StrategyKind::Pairing, true);
    assert!(b.can_take_legs(3));
    b.buy_filled(PositionSide::Up, 40 * CENT, false);
    b.buy_filled(PositionSide::Down, 50 * CENT, true);
    let report = b.close_window(START);
    assert!(matches!(report, WindowReport::Closed(c)
        if c.legs == 2 && c.gross == ATTO && c.net == 657 * ATTO / 1_000));
    assert_eq!(b.totals().net, 657 * ATTO / 1_000);
    assert!(!b.can_take_legs(1));
}

#[test]
fn live_sales_are_booked() {
    let mut b = started(StrategyKind::Pairing, true);
    b.buy_filled(PositionSide::Up, 40 * CENT, false);
    b.sale_filled(PositionSide::Up, 50 * CENT);
    let report = b.close_window(START);
    assert!(matches!(report, WindowReport::Closed(c) if c.legs == 2 && c.gross == ATTO));
}

#[test]
fn pairing_books_its_dry_fills() {
    let mut b = started(StrategyKind::Pairing, false);
    quote(&mut b, OPEN, 52, 48);
    b.execute_action(&entry(OPEN), OPEN);
    assert_eq!(b.process_pending_dry(OPEN + 250)[0].1, 48 * CENT);
    b.execute_action(&entry(OPEN + 1_000), OPEN + 1_000);
    // the second one is flushed at the end of its window
    quote(&mut b, OPEN + 299_000, 40, 60);
    let report = b.close_window(START);
    // DOWN wins: 20 shares pay a dollar, 4.80 was paid, and 4.70 with no quote of the time left
    assert!(matches!(report, WindowReport::Closed(c) if c.legs == 2
        && c.gross == 1_050 * ATTO / 100));
    assert_eq!(b.pending_fills(), 0);
    assert!(matches!(b.close_window(START), WindowReport::Idle { slug } if slug == format!("m{START}")));
}

#[test]
fn an_unknown_window_is_named_by_its_time() {
    let mut b = started(StrategyKind::Pairing, false);
    let report = b.close_window(300);
    assert!(matches!(report, WindowReport::Idle { slug } if slug == "btc-updown-5m-300"));
}

#[test]
fn pairing_fetches_opening_prices() {
    let mut b = Bot::new(&cfg(StrategyKind::Pairing, false), OPEN);
    assert_eq!(b.prefetch(OPEN), vec![START]);
    assert!(b.needs_official(START));
    assert_eq!(b.official_wait(START, 0), Some(0));
    assert_eq!(b.official_wait(START, 7), Some(250));
    assert_eq!(b.official_wait(START, 8), None);
    b.rate_limited(OPEN + 1);
    assert!(b.prefetch(OPEN + 500).is_empty());
    b.prefetched(START, STRIKE);
    assert!(!b.needs_official(START) && b.needs_official(START + 300));
    b.official_found(START + 300, STRIKE);
    assert!(!b.needs_official(START + 300));
    assert_eq!(b.official_wait(START + 300, 0), None);
    let mut b = Bot::new(&cfg(StrategyKind::GapSwing, false), OPEN);
    assert!(b.prefetch(OPEN).is_empty() && !b.needs_official(START));
    assert_eq!(b.unresolved(OPEN), vec![START]);
    b.resolved(START, market(START));
    assert!(b.unresolved(OPEN).is_empty());
    assert_eq!(b.market_of_window(START).unwrap().slug, format!("m{START}"));
}

#[test]
fn pairing_trades_an_impulse() {
    let mut b = Bot::new(&cfg(StrategyKind::Pairing, true), OPEN);
    b.resolved(START, market(START));
    b.sync_subscriptions(OPEN);
    b.official_found(START, STRIKE);
    b.start_trading_window(START, OPEN);
    quote(&mut b, OPEN, 50, 50);
    b.feed_asks();
    for (dt, d) in [(9_000, 0), (10_000, 0), (10_300, 10), (10_600, 25)] {
        let t = OPEN + dt;
        assert!(b.drive_bn(t, STRIKE + d * DOLLAR, t, &line).is_empty());
        assert!(b.drive_cb(t + 5, STRIKE + d * DOLLAR, true, t, &line).is_empty());
    }
    quote(&mut b, OPEN + 10_900, 45, 55);
    assert!(b.drive_tick(OPEN + 10_900).is_empty());
    let orders = b.drive_tick(OPEN + 16_000);
    assert!(matches!(orders[0], Order::Buy {
        side: PositionSide::Up, reason: Reason::ChaseFill, pair: false, .. }));
    // underwater at the last tick
    quote(&mut b, OPEN + 200_000, 30, 70);
    b.drive_tick(OPEN + 200_000);
    quote(&mut b, OPEN + 201_000, 30, 70);
    b.drive_tick(OPEN + 201_000);
    let orders = b.close_tick(START, OPEN + 299_999);
    assert!(matches!(orders[0], Order::Buy {
        side: PositionSide::Down, reason: Reason::LastTickFlatten, pair: true, .. }));
}

#[test]
fn quotes_before_the_open_are_seeded() {
    let mut b = Bot::new(&cfg(StrategyKind::VenueSwing, true), OPEN);
    b.resolved(START, market(START));
    b.resolved(START - 300, market(START - 300));
    b.sync_subscriptions(OPEN - 2_000);
    quote(&mut b, OPEN - 1_000, 40, 45);
    b.start_trading_window(START, OPEN);
    let mut orders = vec![];
    for (dt, d) in [(0, 0), (10_000, 60), (10_200, 40), (12_000, 40)] {
        orders.extend(b.drive_bn(OPEN + dt, STRIKE + d * DOLLAR, OPEN + dt, &line));
    }
    assert_eq!(orders.len(), 1);
}
