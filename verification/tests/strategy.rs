use polybot::strategy::detector::{CaptureSignal, TrendDetector};
use polybot::strategy::gap_swing::{
    delta_tape, run_window, run_window_with_commits, GapSwingEngine,
};
use polybot::strategy::gates::{
    capture_gate_ok, down_from_up, evaluate_capture_gate, fair_p, gap_against_trend, judge,
    max_against_z, min_expected_dp_for_ask, other_side_ask, should_skip_gap_time,
    should_skip_token_trend, sigma_remaining, CaptureGateInput,
};
use polybot::strategy::intents::clamp_price;
use polybot::strategy::pairing::PairingEngine;
use polybot::strategy::sides::{PositionSide, Side};
use polybot::strategy::sim::{delta_drop_over, net_gap_ok, try_fill, Terms};
use polybot::strategy::swings::{detect_major_swings, major_extremes, zigzag, ExtKind, Extreme};
use polybot::strategy::tape::{ask_at, ask_before, px_at};
use polybot::strategy::trades::{BotAction, Reason, SimTrade, TradeKind};
use polybot::strategy::venue_engine::{keep_prints, VenueSwingEngine};
use polybot::strategy::venue_swing::{
    interleave, run_venue_swing_window, union_merge, venue_tape,
};
use polybot::strategy::window::{next_trade_t_from_commits, CommittedLot, WindowResult};

const DOLLAR: i64 = 1_000_000_000;
const CENT: i64 = 10_000_000;
const TEN: i64 = 10 * DOLLAR;
const END: i64 = 300_000;
const STRIKE: i64 = 100_000 * DOLLAR;
const ATTO: i128 = 1_000_000_000_000_000_000;

/// Prices at distances from the strike.
fn tape(points: &[(i64, i64)]) -> Vec<(i64, i64)> {
    points.iter().map(|(t, d)| (*t, STRIKE + d * DOLLAR)).collect()
}

fn quotes(up: i64, down: i64) -> Vec<(i64, i64, i64)> {
    vec![(0, up * CENT, down * CENT)]
}

fn gap(btc: &[(i64, i64)], asks: &[(i64, i64, i64)], winner: Option<PositionSide>) -> WindowResult {
    run_window(0, END, Some(STRIKE), btc, asks, winner, TEN, Some(END), 250)
}

fn lot(side: PositionSide, fill_t: i64, paired: i64) -> CommittedLot {
    CommittedLot {
        side,
        shares: TEN,
        fill: 40 * CENT,
        fill_t,
        paired,
        anchor_d: 50 * DOLLAR,
        from_trough: side == PositionSide::Up,
    }
}

#[test]
fn a_peak_is_sold_and_a_dump_is_bought() {
    let btc = tape(&[(0, 0), (10_000, 60), (10_200, 40), (20_000, 0)]);
    let res = gap(&btc, &quotes(40, 45), None);
    assert_eq!((res.pairs, res.missed, res.trades.len()), (1, 0, 3));
    let first = res.trades[0];
    assert_eq!(first.kind, TradeKind::Buy);
    assert_eq!(first.side, PositionSide::Down);
    assert_eq!((first.t, first.fill, first.shares), (10_300, 45 * CENT, TEN));
    assert_eq!((first.reason, first.anchor_d), (Reason::SwingPeak, 60 * DOLLAR));
    let second = res.trades[1];
    assert_eq!((second.side, second.t, second.fill), (PositionSide::Up, 20_250, 40 * CENT));
    assert_eq!(second.reason, Reason::EarlyOpposite);
    let pair = res.trades[2];
    assert_eq!((pair.kind, pair.fill, pair.shares), (TradeKind::Pair, 85 * CENT, TEN));
    // 10 * 0.15 less fees of 0.17325 and 0.16800
    assert_eq!(pair.net, 115_875 * ATTO / 100_000);
    assert_eq!(res.total_pnl, pair.net);
}

#[test]
fn an_open_leg_is_flattened() {
    let btc = tape(&[(0, 0), (10_000, 60), (20_000, 45)]);
    let res = gap(&btc, &quotes(70, 45), Some(PositionSide::Up));
    assert_eq!(res.trades.len(), 2);
    let sale = res.trades[1];
    assert_eq!((sale.kind, sale.reason), (TradeKind::Sell, Reason::Flatten));
    assert_eq!((sale.t, sale.fill), (END - 25_000 + 250, 44 * CENT));
    // 10 * 0.44 - 10 * 0.45 - 0.17325 - 0.17248
    assert_eq!(sale.net, -44_573 * ATTO / 100_000);
}

#[test]
fn a_leg_that_cannot_be_sold_settles() {
    let btc = tape(&[(0, 0), (10_000, 60), (20_000, 45)]);
    for (winner, net) in [
        (Some(PositionSide::Down), 532_675),
        (Some(PositionSide::Up), -467_325),
        (None, -17_325),
    ] {
        let res = run_window(
            0, END, Some(STRIKE), &btc, &quotes(70, 45), winner, TEN, Some(END), 24_700,
        );
        let last = *res.trades.last().unwrap();
        assert_eq!((last.kind, last.t), (TradeKind::Settle, END - 1));
        assert_eq!(last.net, net * ATTO / 100_000);
    }
}

#[test]
fn nothing_is_sold_before_it_is_bought() {
    let btc = tape(&[(0, 0), (280_000, 50), (285_000, -10)]);
    let res = gap(&btc, &quotes(60, 41), Some(PositionSide::Down));
    let seen: Vec<(TradeKind, i64)> = res.trades.iter().map(|t| (t.kind, t.t)).collect();
    assert_eq!(seen, vec![(TradeKind::Buy, 285_050), (TradeKind::Settle, END - 1)]);
    // 10 * 0.59 - 0.16933
    assert_eq!(res.total_pnl, 573_067 * ATTO / 100_000);
    let flat = tape(&[(0, 0), (285_000, 0)]);
    for (fill_t, kind, t) in [
        (275_000, TradeKind::Sell, 275_250),
        (275_001, TradeKind::Settle, END - 1),
        (285_050, TradeKind::Settle, END - 1),
    ] {
        let held = [lot(PositionSide::Down, fill_t, 0)];
        let res = run_window_with_commits(
            0, END, Some(STRIKE), &flat, &quotes(60, 41), None, TEN, Some(END), 250, &held,
        );
        assert_eq!(res.trades.len(), 1);
        assert_eq!((res.trades[0].kind, res.trades[0].t), (kind, t));
    }
}

#[test]
fn who_won_moves_only_settlement() {
    let btc = tape(&[(0, 0), (280_000, 50), (285_000, -10)]);
    let play = |winner| gap(&btc, &quotes(60, 41), winner);
    let up = play(Some(PositionSide::Up));
    assert_eq!(up.trades.last().unwrap().kind, TradeKind::Settle);
    for other in [play(Some(PositionSide::Down)), play(None)] {
        assert_eq!((up.trades.len(), up.pairs, up.missed), (other.trades.len(), other.pairs, other.missed));
        for (a, b) in up.trades.iter().zip(&other.trades) {
            let mut a = *a;
            if a.kind == TradeKind::Settle {
                assert_ne!(a.net, b.net);
                a.net = b.net;
            }
            assert_eq!(a, *b);
        }
        let rest = |r: &WindowResult| r.total_pnl - r.trades.last().unwrap().net;
        assert_eq!(rest(&up), rest(&other));
    }
}

#[test]
fn a_flash_dump_is_not_bought_first() {
    // the trough comes within twelve seconds of a fall of more than 55 dollars
    let btc = tape(&[(-20_000, 0), (5_000, -60), (9_000, -40)]);
    assert!(gap(&btc, &quotes(40, 60), None).trades.is_empty());
    // a slower fall is
    let btc = tape(&[(-20_000, 0), (5_000, -20), (11_000, -40), (18_000, -60), (25_000, -40)]);
    let res = gap(&btc, &quotes(40, 60), None);
    assert_eq!(res.trades[0].reason, Reason::SwingTrough);
    assert_eq!(res.trades[0].side, PositionSide::Up);
    // and so is a cheap token
    let btc = tape(&[(-20_000, 0), (5_000, -60), (9_000, -40)]);
    assert_eq!(gap(&btc, &quotes(20, 80), None).trades[0].fill, 20 * CENT);
}

#[test]
fn nothing_is_traded_without_inputs() {
    let btc = tape(&[(0, 0), (10_000, 60), (20_000, 0)]);
    let none = run_window(0, END, None, &btc, &quotes(40, 45), None, TEN, None, 250);
    assert!(none.trades.is_empty() && none.total_pnl == 0);
    assert!(gap(&[], &quotes(40, 45), None).trades.is_empty());
    assert!(gap(&btc, &[], None).trades.is_empty());
}

#[test]
fn first_legs_are_neither_dear_nor_dust() {
    let btc = tape(&[(0, 0), (10_000, 60), (20_000, 45)]);
    for (down, trades) in [(11, 0), (12, 2), (78, 2), (79, 0)] {
        assert_eq!(gap(&btc, &quotes(70, down), None).trades.len(), trades, "{down}");
    }
}

#[test]
fn pairs_must_not_lose() {
    assert!(net_gap_ok(45 * CENT, 50 * CENT));
    assert!(!net_gap_ok(46 * CENT, 50 * CENT));
    assert!(!net_gap_ok(50 * CENT, 50 * CENT));
}

#[test]
fn what_is_known_at_a_time() {
    let s = [(10, 1), (20, 2)];
    assert_eq!((px_at(&s, 9), px_at(&s, 10), px_at(&s, 25)), (None, Some(1), Some(2)));
    let a = [(10, 40 * CENT, 0), (20, 2 * DOLLAR, 50 * CENT)];
    assert_eq!(ask_at(&a, 20, PositionSide::Up), Some(40 * CENT));
    assert_eq!(ask_at(&a, 10, PositionSide::Down), None);
    assert_eq!(ask_at(&a, 20, PositionSide::Down), Some(50 * CENT));
    assert_eq!(ask_before(&a, 20, PositionSide::Down), None);
    assert_eq!(delta_drop_over(&[(0, 50), (10, 20)], 10, 10), Some(30));
    assert_eq!(delta_drop_over(&[(5, 50), (10, 20)], 10, 10), None);
    assert_eq!(delta_tape(&[(1, 7), (2, 5)], Some(6)), vec![(1, 1), (2, -1)]);
    assert!(delta_tape(&[(1, 7)], None).is_empty());
}

#[test]
fn fills() {
    let w = Terms { open_ms: 0, end_ms: END, market_end: END, shares: TEN, delay_ms: 250 };
    let a = [(0, 40 * CENT, 3 * CENT), (1_000, 96 * CENT, 95 * CENT)];
    assert_eq!(try_fill(&w, &a, 100, PositionSide::Up), Some(40 * CENT));
    assert_eq!(try_fill(&w, &a, 100, PositionSide::Down), None);
    assert_eq!(try_fill(&w, &a, 750, PositionSide::Up), None);
    assert_eq!(try_fill(&w, &a, 750, PositionSide::Down), Some(95 * CENT));
    assert_eq!(try_fill(&w, &a, END - 850, PositionSide::Down), None);
    assert_eq!(try_fill(&w, &a, END - 851, PositionSide::Down), Some(95 * CENT));
}

fn ext(t: i64, d: i64, kind: ExtKind) -> Extreme {
    Extreme { t, d: d * DOLLAR, kind }
}

#[test]
fn zigzags_confirm_at_ten_dollars() {
    let grid: Vec<(i64, i64)> = [0, 5, 20, 11, 10, 30, 5, 14, 16, 15]
        .iter()
        .enumerate()
        .map(|(i, d)| (i as i64, d * DOLLAR))
        .collect();
    assert_eq!(
        zigzag(&grid),
        vec![
            ext(2, 20, ExtKind::Peak),
            ext(4, 10, ExtKind::Trough),
            ext(5, 30, ExtKind::Peak),
            ext(6, 5, ExtKind::Trough),
        ]
    );
}

#[test]
fn majors_are_forty_dollars_apart() {
    let raw = [
        ext(1, 60, ExtKind::Peak),
        ext(2, 30, ExtKind::Trough),
        ext(3, 70, ExtKind::Peak),
        ext(4, 20, ExtKind::Trough),
        ext(5, 45, ExtKind::Peak),
        ext(6, 10, ExtKind::Trough),
    ];
    assert_eq!(
        major_extremes(&raw),
        vec![
            ext(1, 60, ExtKind::Peak),
            ext(2, 30, ExtKind::Trough),
            ext(3, 70, ExtKind::Peak),
            ext(4, 20, ExtKind::Trough),
        ]
    );
}

#[test]
fn swings_alternate() {
    let btc = [
        (0, 0),
        (10_000, 60 * DOLLAR),
        (10_200, 40 * DOLLAR),
        (20_000, 0),
        (30_000, -50 * DOLLAR),
        (30_200, -30 * DOLLAR),
        (40_000, 0),
    ];
    let sw = detect_major_swings(&btc, &quotes(40, 45), 0, END, END);
    assert_eq!(sw.len(), 2);
    assert_eq!((sw[0].t, sw[0].d, sw[0].kind), (10_050, 60 * DOLLAR, ExtKind::Peak));
    assert_eq!((sw[0].side, sw[0].ask), (PositionSide::Down, 45 * CENT));
    assert_eq!((sw[1].t, sw[1].d, sw[1].kind), (30_050, -50 * DOLLAR, ExtKind::Trough));
    assert_eq!((sw[1].side, sw[1].ask), (PositionSide::Up, 40 * CENT));
}

#[test]
fn cooldown_after_the_last_fill() {
    assert_eq!(next_trade_t_from_commits(&[], TEN, 7), 7);
    let one = [lot(PositionSide::Down, 1_000, 0)];
    assert_eq!(next_trade_t_from_commits(&one, TEN, 7), 1_400);
    let two = [lot(PositionSide::Up, 2_000, TEN), lot(PositionSide::Down, 1_000, TEN)];
    assert_eq!(next_trade_t_from_commits(&two, TEN, 7), 10_000);
    assert_eq!(next_trade_t_from_commits(&two, 0, 7), 7);
}

#[test]
fn fills_in_place_are_not_bought_again() {
    let btc = tape(&[(0, 0), (10_000, 60), (20_000, 45)]);
    let held = [lot(PositionSide::Down, 5_000, 0)];
    let res = run_window_with_commits(
        0, END, Some(STRIKE), &btc, &quotes(70, 45), None, TEN, Some(END), 250, &held,
    );
    assert!(res.trades.iter().all(|t| t.kind != TradeKind::Buy));
    let paired = [lot(PositionSide::Down, 1_000, TEN), lot(PositionSide::Up, 1_500, TEN)];
    let res = run_window_with_commits(
        0, END, Some(STRIKE), &btc, &quotes(70, 45), None, TEN, Some(END), 250, &paired,
    );
    assert_eq!(res.pairs, 1);
    assert_eq!(res.trades[0].reason, Reason::SwingPeak);
}

#[test]
fn a_window_reads_nothing_ahead() {
    let early = tape(&[(0, 0), (10_000, 60), (20_000, 0)]);
    let mut late = early.clone();
    late.extend(tape(&[(60_000, 90), (70_000, -90), (80_000, 0)]));
    let cut = |btc: &[(i64, i64)]| {
        run_window(0, 50_000, Some(STRIKE), btc, &quotes(40, 45), None, TEN, Some(END), 250).trades
    };
    assert_eq!(cut(&early), cut(&late));
}

#[test]
fn orders_are_asked_for_once() {
    let mut e = GapSwingEngine::new(0, END, None);
    e.on_asks(0, 40 * CENT, 45 * CENT);
    for (t, px) in tape(&[(0, 0), (10_000, 60), (10_200, 40)]) {
        assert!(e.on_binance(t, px).is_empty());
    }
    assert!(!e.set_strike(0) && e.strike().is_none());
    assert!(e.set_strike(STRIKE) && !e.set_strike(STRIKE + 1));
    assert_eq!(e.strike(), Some(STRIKE));
    let orders = e.on_binance(12_000, STRIKE + 40 * DOLLAR);
    assert_eq!(
        orders,
        vec![BotAction::BuyEntry {
            side: PositionSide::Down,
            signal_t: 10_050,
            worst_ask: 47 * CENT,
            reason: Reason::SwingPeak,
        }]
    );
    assert_eq!(e.unpaired_on(PositionSide::Down), TEN as i128);
    assert!(!e.is_flat() && e.has_fills());
    assert!(e.on_binance(12_000, STRIKE + 40 * DOLLAR).is_empty());
    assert!(e.on_binance(20_000, STRIKE).is_empty());
    let orders = e.tick(21_000, 40 * CENT, 45 * CENT);
    assert_eq!(orders.len(), 1);
    assert!(matches!(orders[0], BotAction::BuyPair { side: PositionSide::Up, .. }));
    assert!(e.is_flat() && e.fill_count() == 2);
    assert!(e.tick(22_000, 40 * CENT, 45 * CENT).is_empty());
    assert!(e.on_coinbase(22_000, STRIKE).is_none());
}

#[test]
fn a_sale_is_asked_for_near_the_close() {
    let mut e = GapSwingEngine::new(0, END, Some(STRIKE));
    e.on_asks(0, 70 * CENT, 45 * CENT);
    let mut orders = vec![];
    for (t, px) in tape(&[(0, 0), (10_000, 60), (20_000, 45), (21_000, 45), (276_000, 45)]) {
        orders.extend(e.on_binance(t, px));
    }
    assert!(matches!(orders[0], BotAction::BuyEntry { side: PositionSide::Down, .. }));
    assert!(matches!(orders[1], BotAction::SellFlatten { side: PositionSide::Down, signal_t: 275_000, .. }));
    assert_eq!(orders.len(), 2);
    assert!(e.is_flat());
    assert_eq!(e.finalize(None).total_pnl, 0);
}

#[test]
fn commits_and_sales() {
    let mut e = GapSwingEngine::new(0, END, Some(STRIKE));
    e.commit_buy(PositionSide::Up, TEN, 40 * CENT, 1_000, false, 0);
    assert_eq!(e.unpaired_shares(), TEN as i128);
    e.commit_sell(PositionSide::Down);
    assert_eq!(e.unpaired_shares(), TEN as i128);
    e.commit_sell(PositionSide::Up);
    assert!(e.is_flat());
    e.commit_buy(PositionSide::Down, TEN, 45 * CENT, 2_000, false, 0);
    e.commit_buy(PositionSide::Up, TEN, 40 * CENT, 3_000, true, 0);
    assert!(e.is_flat());
    e.set_shares(5 * DOLLAR);
    e.set_taker_delay_ms(-7);
    e.reset_window(END, 2 * END, None);
    assert!(e.strike().is_none() && !e.has_fills());
    assert!(e.take_pending().is_empty());
    assert_eq!((e.last_pairs(), e.last_sim_pnl()), (0, 0));
}

#[test]
fn venue_prints_start_from_their_open() {
    let p = [(-500, 100), (0, 90), (-900, 120), (1_000, 95), (2_000, 0), (END + 1, 99)];
    assert_eq!(venue_tape(&p, 0, END), vec![(0, 0), (0, 0), (1_000, 5)]);
    assert_eq!(venue_tape(&[(700, 50), (900, 60)], 0, END), vec![(0, 0), (700, 0), (900, 10)]);
    assert!(venue_tape(&[(1, -5)], 0, END).is_empty());
    assert_eq!(interleave(&[(1, 1), (3, 3)], &[(1, 2), (2, 4)]), vec![(1, 1), (1, 2), (2, 4), (3, 3)]);
}

#[test]
fn merged_swings_keep_the_more_extreme() {
    let btc = [(0, 0), (10_000, 60 * DOLLAR), (20_000, 0)];
    let higher = [(0, 0), (12_000, 70 * DOLLAR), (20_000, 0)];
    let a = detect_major_swings(&btc, &quotes(40, 45), 0, END, END);
    let b = detect_major_swings(&higher, &quotes(40, 45), 0, END, END);
    let m = union_merge(&a, &b);
    assert_eq!(m.len(), 1);
    assert_eq!(m[0].d, 70 * DOLLAR);
    assert_eq!(union_merge(&a, &[]), a);
}

#[test]
fn a_cold_venue_leaves_the_other() {
    let bn = tape(&[(0, 0), (10_000, 60), (10_200, 40), (20_000, 0)]);
    let run = |bn: &[(i64, i64)], cb: &[(i64, i64)]| {
        run_venue_swing_window(0, END, bn, cb, &quotes(40, 45), None, TEN, Some(END), 70).trades
    };
    let alone = run(&bn, &[]);
    assert_eq!(alone.len(), 3);
    assert_eq!(alone[0].t, 10_120);
    assert_eq!(run(&[], &bn), alone);
    assert!(run(&[], &[]).is_empty());
}

#[test]
fn a_venue_window_needs_no_strike() {
    let mut with = VenueSwingEngine::new(0, END, None);
    let mut without = VenueSwingEngine::new(0, END, None);
    assert!(with.set_strike(STRIKE) && !with.set_strike(STRIKE + 1));
    let mut n = 0;
    for (t, px) in tape(&[(0, 0), (10_000, 60), (20_000, 0), (21_000, 0)]) {
        for e in [&mut with, &mut without] {
            e.on_asks(t, 40 * CENT, 45 * CENT);
        }
        let a = with.on_binance(t, px);
        assert_eq!(a, without.on_binance(t, px));
        n += a.len();
    }
    assert_eq!(n, 2);
    assert_eq!(with.strike(), Some(STRIKE));
}

#[test]
fn a_silent_venue_keeps_its_open() {
    let seen = [(-90_000, 1), (-50_000, 3), (-80_000, 4), (END - 1, 5), (END, 6)];
    assert_eq!(keep_prints(&seen.to_vec(), 0, END), vec![(-50_000, 3), (END - 1, 5)]);
    let silent = [(-90_000, 10), (-80_000, 20), (-80_000, 40), (-85_000, 50), (5, 60)];
    let kept = keep_prints(&silent.to_vec(), 0, END);
    assert_eq!(kept, vec![(-80_000, 40), (5, 60)]);
    assert_eq!(venue_tape(&kept, 0, END), venue_tape(&silent, 0, END));
    let mut e = VenueSwingEngine::new(0, END, None);
    e.on_asks(0, 40 * CENT, 45 * CENT);
    assert!(e.on_coinbase(100_000, STRIKE).is_empty());
    e.reset_window(END, 2 * END, None);
    let mut orders = vec![];
    for (t, px) in tape(&[(10_000, 60), (20_000, 0), (21_000, 0)]) {
        e.on_asks(END + t, 40 * CENT, 45 * CENT);
        orders.extend(e.on_coinbase(END + t, px));
    }
    assert!(matches!(orders[0], BotAction::BuyEntry { side: PositionSide::Down, .. }));
}

#[test]
fn buys_are_known_by_the_end() {
    let btc = tape(&[(0, 0), (10_000, 60), (20_000, 0)]);
    let run = |asks: &[(i64, i64, i64)], winner: Option<PositionSide>| {
        run_window(0, 50_000, Some(STRIKE), &btc, asks, winner, TEN, Some(END), 250)
    };
    let early = quotes(40, 45);
    let mut late = early.clone();
    late.extend([(60_000, 10 * CENT, 89 * CENT), (END - 2_000, 90 * CENT, 9 * CENT)]);
    let buys = |r: &WindowResult| {
        let entries: Vec<SimTrade> = r
            .trades
            .iter()
            .filter(|t| t.kind == TradeKind::Buy || t.kind == TradeKind::Pair)
            .cloned()
            .collect();
        (entries, r.pairs)
    };
    let known = run(&early, None);
    let more = run(&late, Some(PositionSide::Up));
    assert!(!buys(&known).0.is_empty());
    assert_eq!(buys(&known), buys(&more));
}

#[test]
fn prices_are_clamped_to_cents() {
    for (n, c) in [(374_999_999, 37), (375_000_000, 38), (-DOLLAR, 1), (2 * DOLLAR, 99), (4_000_000, 1)] {
        assert_eq!(clamp_price(n), c * CENT, "{n}");
    }
}

#[test]
fn sigma_of_the_time_left() {
    for (s, sigma) in [
        (-5, 6_000_000_000),
        (0, 6_000_000_000),
        (5, 8_600_000_000),
        (10, 11_200_000_000),
        (45, 26_150_000_000),
        (300, 77_400_000_000),
        (400, 77_400_000_000),
    ] {
        assert_eq!(sigma_remaining(s * DOLLAR), sigma, "{s}");
    }
}

#[test]
fn other_sides() {
    assert_eq!(down_from_up(40 * CENT), 61 * CENT);
    assert_eq!(down_from_up(0), 99 * CENT);
    assert_eq!(down_from_up(2 * DOLLAR), CENT);
    assert_eq!(other_side_ask(Side::Up, 30 * CENT), 71 * CENT);
    assert_eq!(other_side_ask(Side::Down, 30 * CENT), 71 * CENT);
    assert_eq!(min_expected_dp_for_ask(50 * CENT), 59_000_000);
    assert_eq!(min_expected_dp_for_ask(-DOLLAR), -76_000_000);
    assert_eq!(min_expected_dp_for_ask(-155_555_556), -1);
    assert_eq!(PositionSide::from(Side::Up), PositionSide::Up);
    assert_eq!(PositionSide::Up.opposite(), PositionSide::Down);
}

#[test]
fn gaps_against_the_trend() {
    assert!(gap_against_trend(Side::Down, 1) && gap_against_trend(Side::Up, -1));
    assert!(!gap_against_trend(Side::Up, 1) && !gap_against_trend(Side::Down, -1));
    assert!(!gap_against_trend(Side::Up, 0) && !gap_against_trend(Side::Down, 0));
    assert_eq!(max_against_z(25 * DOLLAR), 500_000_000);
    assert_eq!(max_against_z(300 * DOLLAR), 2 * DOLLAR);
    assert_eq!(max_against_z(DOLLAR), 500_000_000);
    let mut i = CaptureGateInput {
        direction: Side::Up,
        gap_usd: -20 * DOLLAR,
        seconds_left: 60 * DOLLAR,
        sigma_rem: 40 * DOLLAR,
        token_ask: 40 * CENT,
        impulse_usd: 0,
        // 0.01 + 0.016 * 0.5
        expected_dp: 18_000_000,
        book_lag: 0,
    };
    assert!(!should_skip_gap_time(&i));
    i.expected_dp = 17_999_000;
    assert!(should_skip_gap_time(&i));
    i.gap_usd = 20 * DOLLAR;
    assert!(!should_skip_gap_time(&i));
    i.gap_usd = -40 * DOLLAR;
    i.expected_dp = DOLLAR;
    assert!(should_skip_gap_time(&i));
}

#[test]
fn tokens_against_the_trend() {
    let skip = |up: i64, down: i64| {
        let asks = [(0, 50 * CENT, 50 * CENT), (3_000, up * CENT, down * CENT)];
        should_skip_token_trend(Side::Up, &asks, 4_000)
    };
    assert!(!skip(50, 50));
    assert!(skip(46, 50));
    assert!(!skip(47, 54));
    assert!(skip(50, 55));
    assert!(!skip(51, 55));
    assert!(!should_skip_token_trend(Side::Up, &[], 4_000));
}

/// A straight line through the middle in place of the normal distribution.
fn line(z: i64) -> i64 {
    (500_000_000 + z / 4).clamp(0, DOLLAR)
}

#[test]
fn captures_are_judged() {
    let r = evaluate_capture_gate(
        Side::Up, 0, 20 * DOLLAR, 100 * DOLLAR, 40 * DOLLAR, 50 * CENT, &line,
    );
    assert!(r.ok);
    assert_eq!((r.expected_dp, r.fair_p, r.book_lag), (125_000_000, 625_000_000, 125_000_000));
    let r = evaluate_capture_gate(
        Side::Down, 0, 20 * DOLLAR, 100 * DOLLAR, 40 * DOLLAR, 50 * CENT, &line,
    );
    assert!(!r.ok);
    assert_eq!(r.fair_p, 375_000_000);
    assert_eq!(fair_p(Side::Up, 20 * DOLLAR, 40 * DOLLAR, &line), 625_000_000);
    assert_eq!(fair_p(Side::Down, 20 * DOLLAR, 40 * DOLLAR, &line), 375_000_000);
    let j = |z, p1, left, ask| judge(Side::Up, z, 500_000_000, p1, left * DOLLAR, ask * CENT).ok;
    assert!(j(0, 600_000_000, 25, 50));
    assert!(!j(0, 600_000_000, 24, 50));
    assert!(!j(0, 600_000_000, 25, 11));
    assert!(!j(0, 600_000_000, 25, 86));
    assert!(!j(1_500_000_001, 600_000_000, 25, 50));
    assert!(!j(0, 558_999_999, 25, 50));
    assert!(j(0, 559_000_000, 25, 50));
    let mut i = CaptureGateInput {
        direction: Side::Up,
        gap_usd: 0,
        seconds_left: 100 * DOLLAR,
        sigma_rem: 40 * DOLLAR,
        token_ask: 50 * CENT,
        impulse_usd: 20 * DOLLAR,
        expected_dp: 0,
        book_lag: 0,
    };
    assert!(capture_gate_ok(&i, &line));
    i.seconds_left = 10 * DOLLAR;
    assert!(!capture_gate_ok(&i, &line));
}

#[test]
fn impulses_start_a_trend() {
    let mut d = TrendDetector::new(0, END, Some(STRIKE));
    d.push_poly(0, 50 * CENT, 50 * CENT);
    d.push_poly(10, 0, 50 * CENT);
    let mut sigs: Vec<CaptureSignal> = vec![];
    for (t, px) in tape(&[(9_000, 0), (10_000, 0), (10_300, 10), (10_600, 25)]) {
        sigs.extend(d.on_bn(t, px, &line));
        sigs.extend(d.on_cb(t + 5, px, &line));
    }
    assert_eq!(sigs.len(), 1);
    assert_eq!((sigs[0].direction, sigs[0].token_ask), (Side::Up, 50 * CENT));
    assert!(sigs[0].tradable);
    assert_eq!(d.strike(), Some(STRIKE));
    assert!(d.sample_count() > 0);
    d.reset_window(END, 2 * END, None);
    assert_eq!((d.strike(), d.sample_count()), (None, 0));
}

#[test]
fn signals_take_turns() {
    let mut d = TrendDetector::new(0, END, Some(STRIKE));
    d.push_poly(0, 50 * CENT, 50 * CENT);
    let mut sigs: Vec<CaptureSignal> = vec![];
    let mut at = 0;
    let mut t = 9_000;
    // an impulse every six seconds, up and down in turn
    while t < END {
        let step = if at == 0 { 1 } else { -1 };
        for (dt, d_usd) in [(0, at), (1_000, at), (1_300, at + 10 * step), (1_600, at + 25 * step)] {
            let px = STRIKE + d_usd * DOLLAR;
            sigs.extend(d.on_bn(t + dt, px, &line));
            sigs.extend(d.on_cb(t + dt + 5, px, &line));
        }
        at += 25 * step;
        t += 6_000;
    }
    assert!(!sigs.is_empty() && sigs.len() <= 3);
    for s in &sigs {
        assert!(s.tradable && 0 <= s.t && s.t < END && s.seconds_left >= 25 * DOLLAR);
        assert!(12 * CENT <= s.token_ask && s.token_ask <= 85 * CENT);
    }
    for w in sigs.windows(2) {
        assert!(w[0].direction != w[1].direction && w[1].t - w[0].t >= 12_000);
    }
}

fn signal() -> CaptureSignal {
    CaptureSignal {
        t: 10_000,
        direction: Side::Up,
        token_ask: 50 * CENT,
        gap_usd: 10 * DOLLAR,
        seconds_left: 290 * DOLLAR,
        book_lag: 20_000_000,
        expected_dp: 100_000_000,
        tradable: true,
    }
}

#[test]
fn an_entry_waits_for_a_pullback() {
    let mut e = PairingEngine::new();
    assert!(e.tick(9_000, 50 * CENT, 51 * CENT, END).is_none());
    assert!(e.on_signal(&signal(), 10_000).is_none());
    assert!(!e.is_flat());
    assert!(e.tick(10_200, 50 * CENT, 51 * CENT, END).is_none());
    assert!(e.tick(10_300, 47 * CENT, 54 * CENT, END).is_none());
    assert!(e.tick(10_400, 46 * CENT, 55 * CENT, END).is_none());
    // seen a moment later
    let a = e.tick(10_500, 45 * CENT, 56 * CENT, END);
    assert_eq!(
        a,
        Some(BotAction::BuyEntry {
            side: PositionSide::Up,
            signal_t: 10_500,
            worst_ask: 47 * CENT,
            reason: Reason::PullbackFill,
        })
    );
}

#[test]
fn an_entry_chases_after_the_deadline() {
    let mut e = PairingEngine::new();
    e.tick(9_000, 50 * CENT, 51 * CENT, END);
    e.on_signal(&signal(), 10_000);
    assert!(e.tick(14_250, 50 * CENT, 51 * CENT, END).is_none());
    let a = e.tick(14_251, 50 * CENT, 51 * CENT, END);
    assert!(matches!(a, Some(BotAction::BuyEntry { reason: Reason::ChaseFill, .. })));
    // a dead holding is paired off in the last ninety seconds
    assert!(e.tick(209_900, 20 * CENT, 81 * CENT, END).is_none());
    let a = e.tick(210_000, 19 * CENT, 82 * CENT, END);
    assert!(matches!(a, Some(BotAction::BuyPair {
        side: PositionSide::Down, reason: Reason::DeadFlatten, .. })));
    assert!(e.is_flat());
}

#[test]
fn an_underwater_holding_is_paired_off_at_the_last_tick() {
    let mut e = PairingEngine::new();
    assert!(e.try_last_tick_flatten(END).is_none());
    e.tick(9_000, 50 * CENT, 51 * CENT, END);
    e.on_signal(&signal(), 10_000);
    e.tick(14_251, 50 * CENT, 51 * CENT, END);
    e.tick(20_000, 45 * CENT, 56 * CENT, END);
    e.tick(20_100, 45 * CENT, 56 * CENT, END);
    let a = e.try_last_tick_flatten(END);
    assert_eq!(
        a,
        Some(BotAction::BuyPair {
            side: PositionSide::Down,
            signal_t: END,
            worst_ask: 58 * CENT,
            reason: Reason::LastTickFlatten,
        })
    );
    e.reset_window();
    assert!(e.is_flat());
}

#[test]
fn poor_signals_are_passed_over() {
    let with = |f: &dyn Fn(&mut CaptureSignal)| {
        let mut e = PairingEngine::new();
        let mut s = signal();
        f(&mut s);
        e.on_signal(&s, 10_000);
        e.is_flat()
    };
    assert!(!with(&|_| ()));
    assert!(with(&|s| s.tradable = false));
    assert!(with(&|s| s.token_ask = 76 * CENT));
    assert!(with(&|s| s.book_lag = 14_999_999));
    assert!(with(&|s| s.gap_usd = -200 * DOLLAR));
}

#[test]
fn reasons_and_kinds_have_texts() {
    assert_eq!(TradeKind::Settle.as_str(), "SETTLE");
    assert_eq!(Reason::SwingPeakSecond.as_str(), "SWING_PEAK_2");
    assert_eq!(Reason::EarlyOpposite.as_str(), "EARLY_OPP");
    assert_eq!(Reason::LastTickFlatten.as_str(), "last tick flatten");
    assert!(Reason::SwingTroughSecond.is_second_leg() && !Reason::SwingTrough.is_second_leg());
}

#[test]
fn the_deviation_grows_with_time() {
    let mut last = sigma_remaining(-DOLLAR);
    assert_eq!(last, 6 * DOLLAR);
    for half in 0..700 {
        let next = sigma_remaining(half * DOLLAR / 2);
        assert!(next >= last);
        last = next;
    }
    assert_eq!(last, 77_400_000_000);
}
