use polybot::pnl::{resolve_winner, taker_fee_usdc, PnlTracker};
use polybot::strategy::sides::PositionSide;

const DOLLAR: i64 = 1_000_000_000;
const CENT: i64 = 10_000_000;
const TEN: i64 = 10 * DOLLAR;
const ATTO: i128 = 1_000_000_000_000_000_000;

/// So many hundred-thousandths of a dollar.
fn cash(n: i128) -> i128 {
    n * ATTO / 100_000
}

#[test]
fn fee_of_a_fill() {
    assert_eq!(taker_fee_usdc(TEN, 50 * CENT), 175_000_000);
    assert_eq!(taker_fee_usdc(TEN, 40 * CENT), 168_000_000);
    assert_eq!(taker_fee_usdc(TEN, 45 * CENT), 173_250_000);
    assert_eq!(taker_fee_usdc(0, 45 * CENT), 0);
}

#[test]
fn fee_is_rounded_to_five_places() {
    // 1 * 0.07 * 0.33 * 0.67 = 0.0154770
    assert_eq!(taker_fee_usdc(DOLLAR, 33 * CENT), 15_480_000);
    // 3 * 0.07 * 0.333 * 0.667 = 0.04664331
    assert_eq!(taker_fee_usdc(3 * DOLLAR, 333_000_000), 46_640_000);
}

#[test]
fn fee_price_is_clamped() {
    assert_eq!(taker_fee_usdc(TEN, 0), taker_fee_usdc(TEN, CENT));
    assert_eq!(taker_fee_usdc(TEN, 2 * DOLLAR), taker_fee_usdc(TEN, 99 * CENT));
}

#[test]
fn clear_asks_name_the_winner() {
    let up = Some(PositionSide::Up);
    let down = Some(PositionSide::Down);
    assert_eq!(resolve_winner(55 * CENT, 45 * CENT, Some(1), Some(2)), up);
    assert_eq!(resolve_winner(45 * CENT, 55 * CENT, Some(2), Some(1)), down);
    assert_eq!(resolve_winner(54 * CENT, 45 * CENT, Some(2), Some(1)), up);
    assert_eq!(resolve_winner(50 * CENT, 50 * CENT, Some(1), Some(2)), down);
    assert_eq!(resolve_winner(50 * CENT, 50 * CENT, Some(2), Some(2)), down);
    assert_eq!(resolve_winner(50 * CENT, 50 * CENT, None, Some(2)), None);
    assert_eq!(resolve_winner(50 * CENT, 50 * CENT, Some(2), None), None);
}

#[test]
fn a_pair_pays_whoever_wins() {
    for winner in [Some(PositionSide::Up), Some(PositionSide::Down), None] {
        let mut p = PnlTracker::new();
        p.open_window("w".to_string(), TEN);
        p.record_buy(PositionSide::Up, 40 * CENT, TEN, false);
        p.record_buy(PositionSide::Down, 50 * CENT, TEN, true);
        let close = p.close_window(winner).unwrap();
        assert_eq!(close.slug, "w");
        assert_eq!(close.legs, 2);
        assert_eq!(close.gross, cash(100_000));
        assert_eq!(close.fees, cash(34_300));
        assert_eq!(close.net, cash(65_700));
        assert_eq!(p.totals().net, cash(65_700));
        assert_eq!(p.totals().gross, cash(100_000));
        assert_eq!(p.totals().fees, cash(34_300));
    }
}

#[test]
fn an_open_leg_pays_if_it_wins() {
    let mut p = PnlTracker::new();
    p.open_window("w".to_string(), TEN);
    p.record_buy(PositionSide::Up, 40 * CENT, TEN, false);
    let close = p.close_window(Some(PositionSide::Up)).unwrap();
    assert_eq!(close.gross, cash(600_000));
    p.open_window("w".to_string(), TEN);
    p.record_buy(PositionSide::Up, 40 * CENT, TEN, false);
    let close = p.close_window(Some(PositionSide::Down)).unwrap();
    assert_eq!(close.gross, cash(-400_000));
    assert_eq!(p.totals().gross, cash(200_000));
}

#[test]
fn a_sale_closes_the_oldest_first() {
    let mut p = PnlTracker::new();
    p.open_window("w".to_string(), TEN);
    p.record_buy(PositionSide::Up, 40 * CENT, TEN, false);
    p.record_buy(PositionSide::Up, 30 * CENT, TEN, false);
    p.record_sell(PositionSide::Up, 60 * CENT, 15 * DOLLAR);
    let lots = &p.window.as_ref().unwrap().lots;
    assert_eq!((lots[0].remaining, lots[1].remaining), (0, 5 * DOLLAR));
    let close = p.close_window(Some(PositionSide::Up)).unwrap();
    // 15 sold at 0.60, 5 settled at 1, 7 paid
    assert_eq!(close.gross, cash(700_000));
    assert_eq!(close.legs, 3);
}

#[test]
fn a_window_without_legs_gives_nothing() {
    let mut p = PnlTracker::new();
    assert!(p.close_window(None).is_none());
    p.open_window("w".to_string(), TEN);
    assert!(p.close_window(Some(PositionSide::Up)).is_none());
    assert_eq!(p.totals().net, 0);
}

#[test]
fn a_settled_window_is_added() {
    let mut p = PnlTracker::new();
    p.open_window("w".to_string(), TEN);
    p.add_window_net(cash(12_345));
    assert!(p.window.is_none());
    assert_eq!((p.totals().net, p.totals().gross, p.totals().fees), (cash(12_345), cash(12_345), 0));
}
