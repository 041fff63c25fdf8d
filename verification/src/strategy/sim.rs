//! Trading loop over the swings and ticks of one window.
//!
//! A swing opens a first leg while nothing is held and completes a pair while
//! the other token is held; a tick completes a pair early after a dump.  What
//! is still unpaired near the close is sold, what is left after that settles.
use vstd::prelude::*;
use crate::fifo::{
    adding_a_holding, can_match, closing_a_holding, first_open, first_open_finds_the_first,
    has_open, match_size, matched_once, one_match_closes_a_holding, open_count,
};
use crate::pnl::{
    fee_of, fee_per_share_is_small, fee_price, taker_fee_usdc, CRYPTO_TAKER_FEE_PERCENT,
    MAX_FEE_PRICE,
};
use crate::units::{ask_ok, clamp, magnitude, shares_ok, time_ok, CENT, MAX_MS, NANO};
use super::sides::PositionSide;
use super::swings::{delta_ok, delta_tape_ok, swings_ok, ExtKind, Swing, MIN_ASK, MIN_LEFT_MS};
use super::tape::{
    ask_at, ask_known, ask_tape_ok, known_ask_is_valid, known_price_is_on_the_tape, price_known,
    px_at, quote_side, side_ask,
};
use super::trades::{Reason, SimTrade, TradeKind};

verus! {

/// Distance of the ticks that an early opposite is looked for on.
pub const TICK_MS: i64 = 500;

/// Delay of the first tick after the open.
pub const FIRST_TICK_MS: i64 = 1_000;

/// Highest ask of a first leg.
pub const MAX_CHEAP_ASK: i64 = 780_000_000;

/// Highest fill of a first leg.
pub const MAX_CHASE_FILL: i64 = 820_000_000;

/// Highest ask of a second leg.
pub const MAX_SECOND_ASK: i64 = 760_000_000;

/// Highest ask of an early opposite.
pub const MAX_EARLY_OPP_ASK: i64 = 880_000_000;

/// Lowest ask of a first leg.
pub const MIN_FIRST_ASK: i64 = 120_000_000;

/// Highest ask that counts as cheap enough for a deep dump.
pub const DUMP_ASK: i64 = 200_000_000;

/// Highest fill.
pub const MAX_FILL: i64 = 950_000_000;

/// Dump below a peak that an early opposite needs.
pub const EARLY_OPP_SWING_USD: i64 = 30_000_000_000;

/// Lowest delta of an UP first leg.
pub const MIN_UP_FIRST_DELTA: i64 = -75_000_000_000;

/// Fall that counts as a flash dump.
pub const RAPID_FALL_USD: i64 = 55_000_000_000;

/// Time over which the fall is measured.
pub const RAPID_FALL_MS: i64 = 12_000;

/// Time before the close that a first leg needs after a pair.
pub const RESTART_MIN_LEFT_MS: i64 = 45_000;

/// Wait after a fill that completed a pair.
pub const PAIR_COOLDOWN_MS: i64 = 8_000;

/// Wait after any other fill.
pub const FIRST_COOLDOWN_MS: i64 = 400;

/// Pairs after which a flat book stops trading.
pub const MAX_PAIRS: u64 = 16;

/// Allowance of each leg for the delay of its fill.
pub const DELAY_BUFFER_PER_LEG: i64 = 5_000_000;

/// What a pair must earn.
pub const MIN_RAW_PAIR_NET: i64 = 0;

/// What a sale gives up against the ask.
pub const SELL_HAIRCUT: i64 = 10_000_000;

/// Time before the close at which unpaired shares are sold.
pub const EMERGENCY_LEFT_MS: i64 = 25_000;

/// Time before the close within which nothing is bought.
pub const NO_FILL_MS: i64 = 600;

/// Time before the close within which nothing is sold.
pub const NO_SELL_MS: i64 = 400;

/// Longest window.
pub const MAX_WINDOW_MS: i64 = 100_000_000;

/// Most that a trade earns or loses.
pub const MAX_NET: i128 = 4_000_000_000_000_000_000_000_000_000;

/// Most fills that a window can start from.
pub const MAX_COMMITS: usize = 1_000_000_000;

/// A bought lot, when it was filled, and how much of it has been paired or sold.
#[derive(Clone, Copy, Debug, PartialEq, Eq, Structural)]
pub struct Lot {
    pub side: PositionSide,
    pub shares: i64,
    pub fill: i64,
    pub fill_t: i64,
    pub fee: i64,
    pub paired: i64,
    pub ext_kind: ExtKind,
    pub anchor_d: i64,
}

/// The first leg that an early opposite is measured from.
#[derive(Clone, Copy, Debug, PartialEq, Eq, Structural)]
pub struct Anchor {
    pub t: i64,
    pub d: i64,
    pub side: PositionSide,
    pub kind: ExtKind,
}

/// The window that is traded: its open, how far it has been seen, its close,
/// the size of an order and the delay from signal to fill.
#[derive(Clone, Copy, Debug, PartialEq, Eq, Structural)]
pub struct Terms {
    pub open_ms: i64,
    pub end_ms: i64,
    pub market_end: i64,
    pub shares: i64,
    pub delay_ms: i64,
}

/// State of the trading loop.
pub struct Sim {
    pub lots: Seq<Lot>,
    pub trades: Seq<SimTrade>,
    pub pairs: int,
    pub missed: int,
    pub next_t: int,
    pub anchor: Option<Anchor>,
}

/// The book of lots: the shares of each that are neither paired nor sold.
pub open spec fn lot_book(lots: Seq<Lot>) -> Seq<(PositionSide, int)> {
    lots.map_values(|l: Lot| (l.side, l.shares - l.paired))
}

/// Whether anything is unpaired.
pub open spec fn any_open(s: Sim) -> bool {
    has_open(lot_book(s.lots), PositionSide::Up) || has_open(
        lot_book(s.lots),
        PositionSide::Down,
    )
}

/// The part of a lot's fee that falls on `q` of its shares.
pub open spec fn fee_part(lot: Lot, q: int) -> int {
    (lot.fee * NANO * q) / (lot.shares as int)
}

/// What `q` shares of an UP lot and of a DOWN lot earn as pairs: a dollar each
/// less both fills and both fees.
pub open spec fn pair_net(up: Lot, down: Lot, q: int) -> int {
    q * (NANO - up.fill - down.fill) - (fee_part(up, q) + fee_part(down, q))
}

/// What a sale of `q` shares of a lot at `px` earns: what it fetches less what
/// they were paid, and the fees.
pub open spec fn sale_net(l: Lot, q: int, px: int) -> int {
    q * px - (q * l.fill + fee_part(l, q)) - fee_of(q, px) * NANO
}

/// The lots after `q` shares of the one at `i` have been paired.
pub open spec fn lots_paired(lots: Seq<Lot>, i: int, q: int) -> Seq<Lot> {
    lots.update(i, Lot { paired: (lots[i].paired + q) as i64, ..lots[i] })
}

/// The state after the first open lots of the two sides have been paired.
pub open spec fn paired_once(s: Sim, t: int) -> Sim {
    let book = lot_book(s.lots);
    let u = first_open(book, PositionSide::Up, 0);
    let d = first_open(book, PositionSide::Down, 0);
    let q = match_size(book);
    Sim {
        lots: lots_paired(lots_paired(s.lots, u, q), d, q),
        trades: s.trades.push(
            SimTrade {
                kind: TradeKind::Pair,
                side: PositionSide::Up,
                t: t as i64,
                fill: (s.lots[u].fill + s.lots[d].fill) as i64,
                shares: q as i64,
                reason: Reason::Pair,
                net: pair_net(s.lots[u], s.lots[d], q) as i128,
                anchor_d: 0,
            },
        ),
        pairs: s.pairs + 1,
        ..s
    }
}

/// The state after everything that can be paired has been.
pub open spec fn paired_up(s: Sim, t: int) -> Sim
    decreases open_count(lot_book(s.lots)),
{
    if can_match(lot_book(s.lots)) {
        proof {
            pairing_lots_matches_the_book(s, t);
            one_match_closes_a_holding(lot_book(s.lots));
        }
        paired_up(paired_once(s, t), t)
    } else {
        s
    }
}

/// A lot of `shares` bought at `fill` at the time `fill_t`.
pub open spec fn new_lot(
    side: PositionSide,
    shares: i64,
    fill: i64,
    fill_t: int,
    kind: ExtKind,
    anchor_d: i64,
) -> Lot {
    Lot {
        side,
        shares,
        fill,
        fill_t: fill_t as i64,
        fee: fee_of(shares as int, fill as int) as i64,
        paired: 0,
        ext_kind: kind,
        anchor_d,
    }
}

/// The state after a buy: the lot is added and paired, the next trade waits
/// longer if that completed a pair, and a first leg becomes the anchor.
pub open spec fn bought(
    s: Sim,
    shares: i64,
    side: PositionSide,
    fill_t: int,
    fill: i64,
    kind: ExtKind,
    reason: Reason,
    anchor_d: i64,
) -> Sim {
    let held = Sim {
        lots: s.lots.push(new_lot(side, shares, fill, fill_t, kind, anchor_d)),
        trades: s.trades.push(
            SimTrade {
                kind: TradeKind::Buy,
                side,
                t: fill_t as i64,
                fill,
                shares,
                reason,
                net: 0,
                anchor_d,
            },
        ),
        ..s
    };
    let after = paired_up(held, fill_t);
    Sim {
        next_t: fill_t + (if after.pairs > s.pairs {
            PAIR_COOLDOWN_MS
        } else {
            FIRST_COOLDOWN_MS
        }),
        anchor: if reason.completes_pair() {
            None
        } else {
            Some(Anchor { t: fill_t as i64, d: anchor_d, side, kind })
        },
        ..after
    }
}

/// A missed trade.
pub open spec fn missed(s: Sim) -> Sim {
    Sim { missed: s.missed + 1, ..s }
}

/// Fee on one share, in hundredths of billionths of billionths of a dollar.
pub open spec fn fee_share(price: int) -> int {
    let p = fee_price(price);
    CRYPTO_TAKER_FEE_PERCENT * p * (NANO - p)
}

/// Whether a pair bought at `a` and `b` earns something after both fees and
/// the allowance for the delay of the fills.
pub open spec fn pair_earns(a: int, b: int) -> bool {
    (NANO - a - b - 2 * DELAY_BUFFER_PER_LEG) * 100_000_000_000 - fee_share(a) - fee_share(b)
        >= MIN_RAW_PAIR_NET
}

/// The fill of a buy that is signalled at `t`: none beyond what has been seen,
/// too close to the market's close, or at an ask that is out of range.
pub open spec fn fill_of(
    w: Terms,
    asks: Seq<(i64, i64, i64)>,
    t: int,
    side: PositionSide,
) -> Option<i64> {
    let fill_t = t + w.delay_ms;
    if fill_t > w.end_ms || fill_t >= w.market_end - NO_FILL_MS {
        None
    } else {
        match ask_known(asks, fill_t, side) {
            Some(fill) => if MIN_ASK <= fill <= MAX_FILL {
                Some(fill)
            } else {
                None
            },
            None => None,
        }
    }
}

/// Highest ask of a second leg.
pub open spec fn second_ask_limit(reason: Reason) -> i64 {
    if reason == Reason::EarlyOpposite {
        MAX_EARLY_OPP_ASK
    } else {
        MAX_SECOND_ASK
    }
}

/// The state after an attempt to complete a pair with `side` at `t`.  Ask and
/// fill must both leave the pair earning; a fill that fails is missed.
pub open spec fn second_leg(
    s: Sim,
    w: Terms,
    asks: Seq<(i64, i64, i64)>,
    t: int,
    side: PositionSide,
    kind: ExtKind,
    reason: Reason,
) -> Sim {
    let first = s.lots[first_open(lot_book(s.lots), side.opposite_spec(), 0)];
    if !has_open(lot_book(s.lots), side.opposite_spec()) {
        s
    } else {
        match ask_known(asks, t, side) {
            None => s,
            Some(ask) => if ask < MIN_ASK || ask > second_ask_limit(reason) || !pair_earns(
                first.fill as int,
                ask as int,
            ) {
                s
            } else {
                match fill_of(w, asks, t, side) {
                    None => missed(s),
                    Some(fill) => if !pair_earns(first.fill as int, fill as int) {
                        missed(s)
                    } else {
                        bought(
                            s,
                            w.shares,
                            side,
                            t + w.delay_ms,
                            fill,
                            kind,
                            reason,
                            first.anchor_d,
                        )
                    },
                }
            },
        }
    }
}

/// The state after a tick at `t` with the delta `d`: a held DOWN that was
/// bought at a peak is completed once the delta has dumped far enough.
pub open spec fn on_tick(s: Sim, w: Terms, asks: Seq<(i64, i64, i64)>, t: int, d: int) -> Sim {
    if any_open(s) && t >= s.next_t && (s.anchor matches Some(a) && a.kind == ExtKind::Peak
        && a.side == PositionSide::Down && d <= a.d - EARLY_OPP_SWING_USD) {
        second_leg(s, w, asks, t, PositionSide::Up, ExtKind::Trough, Reason::EarlyOpposite)
    } else {
        s
    }
}

/// How far the delta fell over the last `lookback` milliseconds.
pub open spec fn fell_over(tape: Seq<(i64, i64)>, t: int, lookback: int) -> Option<int> {
    match (price_known(tape, t), price_known(tape, t - lookback)) {
        (Some(now), Some(prev)) => Some(prev - now),
        _ => None,
    }
}

/// Whether a swing is a trough that UP would be bought at.
pub open spec fn is_up_trough(sw: Swing) -> bool {
    sw.kind == ExtKind::Trough && sw.side == PositionSide::Up
}

/// Whether a swing is a dump that is too deep or too fast to buy into.
pub open spec fn is_falling_knife(sw: Swing, tape: Seq<(i64, i64)>) -> bool {
    is_up_trough(sw) && sw.ask > DUMP_ASK && (sw.d < MIN_UP_FIRST_DELTA || (fell_over(
        tape,
        sw.t as int,
        RAPID_FALL_MS as int,
    ) matches Some(drop) && drop >= RAPID_FALL_USD && sw.d < 0))
}

/// Whether a swing passes the gates of a first leg.
pub open spec fn first_leg_wanted(s: Sim, w: Terms, sw: Swing, tape: Seq<(i64, i64)>) -> bool {
    &&& w.market_end - sw.t >= MIN_LEFT_MS
    &&& s.pairs > 0 ==> w.market_end - sw.t >= RESTART_MIN_LEFT_MS
    &&& MIN_FIRST_ASK <= sw.ask <= MAX_CHEAP_ASK
    &&& !is_falling_knife(sw, tape)
}

/// Whether the fill of a first leg is still wanted.
pub open spec fn first_fill_wanted(w: Terms, sw: Swing, tape: Seq<(i64, i64)>, fill: int) -> bool {
    &&& fill <= MAX_CHASE_FILL
    &&& !(is_up_trough(sw) && fill > DUMP_ASK && (price_known(
        tape,
        sw.t + w.delay_ms,
    ) matches Some(d) && d < MIN_UP_FIRST_DELTA))
}

/// Reason of a first leg.
pub open spec fn first_reason(kind: ExtKind) -> Reason {
    match kind {
        ExtKind::Peak => Reason::SwingPeak,
        ExtKind::Trough => Reason::SwingTrough,
    }
}

/// Reason of a second leg.
pub open spec fn second_reason(kind: ExtKind) -> Reason {
    match kind {
        ExtKind::Peak => Reason::SwingPeakSecond,
        ExtKind::Trough => Reason::SwingTroughSecond,
    }
}

/// The state after a swing: a held opposite is completed, a flat book opens a
/// first leg.
pub open spec fn on_swing(
    s: Sim,
    w: Terms,
    tape: Seq<(i64, i64)>,
    asks: Seq<(i64, i64, i64)>,
    sw: Swing,
) -> Sim {
    if sw.t < s.next_t {
        s
    } else if has_open(lot_book(s.lots), sw.side.opposite_spec()) {
        second_leg(s, w, asks, sw.t as int, sw.side, sw.kind, second_reason(sw.kind))
    } else if any_open(s) || !first_leg_wanted(s, w, sw, tape) {
        s
    } else {
        match fill_of(w, asks, sw.t as int, sw.side) {
            None => missed(s),
            Some(fill) => if first_fill_wanted(w, sw, tape, fill as int) {
                bought(
                    s,
                    w.shares,
                    sw.side,
                    sw.t + w.delay_ms,
                    fill,
                    sw.kind,
                    first_reason(sw.kind),
                    sw.d,
                )
            } else {
                missed(s)
            },
        }
    }
}

/// Whether trading stops: enough pairs are done and nothing is open.
pub open spec fn is_done(s: Sim) -> bool {
    s.pairs >= MAX_PAIRS && !any_open(s)
}

/// Whether the swing at `i` comes before the tick at `j`; a swing comes first
/// at the same time.
pub open spec fn swing_is_next(
    swings: Seq<Swing>,
    ticks: Seq<(i64, i64)>,
    i: int,
    j: int,
) -> bool {
    i < swings.len() && (j >= ticks.len() || swings[i].t <= ticks[j].0)
}

/// The state after the swings from `i` on and the ticks from `j` on, in the
/// order of their times.
pub open spec fn traded_through(
    s: Sim,
    w: Terms,
    tape: Seq<(i64, i64)>,
    asks: Seq<(i64, i64, i64)>,
    swings: Seq<Swing>,
    ticks: Seq<(i64, i64)>,
    i: int,
    j: int,
) -> Sim
    decreases swings.len() - i + ticks.len() - j,
{
    if i < 0 || j < 0 || (i >= swings.len() && j >= ticks.len()) || i > swings.len() || j
        > ticks.len() || is_done(s) {
        s
    } else if swing_is_next(swings, ticks, i, j) {
        traded_through(
            on_swing(s, w, tape, asks, swings[i]),
            w,
            tape,
            asks,
            swings,
            ticks,
            i + 1,
            j,
        )
    } else {
        traded_through(
            on_tick(s, w, asks, ticks[j].0 as int, ticks[j].1 as int),
            w,
            tape,
            asks,
            swings,
            ticks,
            i,
            j + 1,
        )
    }
}

/// The lots after the one at `i` has been closed.
pub open spec fn lots_closed(lots: Seq<Lot>, i: int) -> Seq<Lot> {
    lots.update(i, Lot { paired: lots[i].shares, ..lots[i] })
}

/// The state after the open shares of the lot at `i` have been sold at `px`.
pub open spec fn sold_lot(s: Sim, i: int, px: int, t: int) -> Sim {
    let l = s.lots[i];
    let q = l.shares - l.paired;
    Sim {
        lots: lots_closed(s.lots, i),
        trades: s.trades.push(
            SimTrade {
                kind: TradeKind::Sell,
                side: l.side,
                t: t as i64,
                fill: px as i64,
                shares: q as i64,
                reason: Reason::Flatten,
                net: sale_net(l, q, px) as i128,
                anchor_d: 0,
            },
        ),
        ..s
    }
}

/// Whether a lot is one to sell: of the side, open, and filled by `by`.
pub open spec fn is_for_sale(l: Lot, side: PositionSide, by: int) -> bool {
    l.side == side && l.shares > l.paired && l.fill_t <= by
}

/// The state after the open lots of a side from `i` on that were filled by `by`
/// have been sold at `px`.
pub open spec fn sold_side(s: Sim, side: PositionSide, px: int, t: int, by: int, i: int) -> Sim
    decreases s.lots.len() - i,
{
    if !(0 <= i < s.lots.len()) {
        s
    } else if is_for_sale(s.lots[i], side, by) {
        sold_side(sold_lot(s, i, px, t), side, px, t, by, i + 1)
    } else {
        sold_side(s, side, px, t, by, i + 1)
    }
}

/// The price that a held token sells at: a cent inside its ask, a cent at the
/// least.
pub open spec fn sell_price(ask: int) -> int {
    if ask - SELL_HAIRCUT >= CENT {
        ask - SELL_HAIRCUT
    } else {
        CENT as int
    }
}

/// The state after what was filled of a side by `by` has been sold, if its
/// token is quoted.
pub open spec fn flattened_side(
    s: Sim,
    asks: Seq<(i64, i64, i64)>,
    t: int,
    by: int,
    side: PositionSide,
) -> Sim {
    match ask_known(asks, t, side) {
        Some(ask) => sold_side(s, side, sell_price(ask as int), t, by, 0),
        None => s,
    }
}

/// The state after the sale of what is unpaired near the close.  What is bought
/// after the sale was decided is not part of it.
pub open spec fn flattened(s: Sim, w: Terms, asks: Seq<(i64, i64, i64)>) -> Sim {
    let last_t = w.market_end - EMERGENCY_LEFT_MS;
    let t = last_t + w.delay_ms;
    if any_open(s) && last_t > w.open_ms && w.end_ms >= last_t && t < w.market_end - NO_SELL_MS {
        flattened_side(
            flattened_side(s, asks, t, last_t, PositionSide::Up),
            asks,
            t,
            last_t,
            PositionSide::Down,
        )
    } else {
        s
    }
}

/// What a share of a lot is worth at the close: a dollar if its side won,
/// nothing if it lost, its last ask if the outcome is not known.
pub open spec fn mark_of(
    side: PositionSide,
    winner: Option<PositionSide>,
    last_ask: (i64, i64, i64),
) -> int {
    match winner {
        Some(won) => if won == side {
            NANO as int
        } else {
            0
        },
        None => quote_side(last_ask, side) as int,
    }
}

/// The state after the open shares of the lot at `i` have settled.
pub open spec fn settled_lot(
    s: Sim,
    i: int,
    winner: Option<PositionSide>,
    last_ask: (i64, i64, i64),
    t: int,
) -> Sim {
    let l = s.lots[i];
    let q = l.shares - l.paired;
    let mark = mark_of(l.side, winner, last_ask);
    Sim {
        lots: lots_closed(s.lots, i),
        trades: s.trades.push(
            SimTrade {
                kind: TradeKind::Settle,
                side: l.side,
                t: t as i64,
                fill: l.fill,
                shares: q as i64,
                reason: Reason::Settle,
                net: (q * mark - (q * l.fill + fee_part(l, q))) as i128,
                anchor_d: 0,
            },
        ),
        ..s
    }
}

/// The state after the open lots from `i` on have settled.
pub open spec fn settled(
    s: Sim,
    winner: Option<PositionSide>,
    last_ask: (i64, i64, i64),
    t: int,
    i: int,
) -> Sim
    decreases s.lots.len() - i,
{
    if !(0 <= i < s.lots.len()) {
        s
    } else if s.lots[i].shares > s.lots[i].paired {
        settled(settled_lot(s, i, winner, last_ask, t), winner, last_ask, t, i + 1)
    } else {
        settled(s, winner, last_ask, t, i + 1)
    }
}

/// The state at the end of a window that starts from `s`.
pub open spec fn played(
    s: Sim,
    w: Terms,
    tape: Seq<(i64, i64)>,
    asks: Seq<(i64, i64, i64)>,
    swings: Seq<Swing>,
    ticks: Seq<(i64, i64)>,
    winner: Option<PositionSide>,
) -> Sim {
    let through = traded_through(s, w, tape, asks, swings, ticks, 0, 0);
    settled(flattened(through, w, asks), winner, asks[asks.len() - 1], w.end_ms - 1, 0)
}

/// The sum of what trades net.
pub open spec fn net_sum(trades: Seq<SimTrade>) -> int
    decreases trades.len(),
{
    if trades.len() == 0 {
        0
    } else {
        net_sum(trades.drop_last()) + trades.last().net
    }
}

/// The book after a lot has been paired is the book with the open shares
/// reduced.
pub proof fn pairing_lots_matches_the_book(s: Sim, t: int)
    requires
        can_match(lot_book(s.lots)),
    ensures
        lot_book(paired_once(s, t).lots) == matched_once(lot_book(s.lots)),
{
    let book = lot_book(s.lots);
    let u = first_open(book, PositionSide::Up, 0);
    let d = first_open(book, PositionSide::Down, 0);
    first_open_finds_the_first(book, PositionSide::Up, 0);
    first_open_finds_the_first(book, PositionSide::Down, 0);
    let q = match_size(book);
    assert(book[u] == (s.lots[u].side, s.lots[u].shares - s.lots[u].paired));
    assert(book[d] == (s.lots[d].side, s.lots[d].shares - s.lots[d].paired));
    assert(u != d);
    assert(lot_book(paired_once(s, t).lots) =~= matched_once(book));
}

/// Whether a lot is valid: its amounts are in range, its fee is the taker fee
/// and what is paired lies between nothing and all of it.
pub open spec fn lot_ok(l: Lot) -> bool {
    &&& shares_ok(l.shares as int)
    &&& ask_ok(l.fill as int)
    &&& delta_ok(l.anchor_d as int)
    &&& l.fee == fee_of(l.shares as int, l.fill as int)
    &&& magnitude(l.fee as int) <= 20_000_000_000_000
    &&& l.shares >= 0 ==> 0 <= l.paired <= l.shares && l.fee >= 0
    &&& l.shares < 0 ==> l.shares <= l.paired <= 0
}

/// Whether a trade is valid: its amounts and its time are in range.
pub open spec fn trade_ok(t: SimTrade) -> bool {
    &&& magnitude(t.net as int) <= MAX_NET
    &&& magnitude(t.t as int) <= 2 * MAX_MS
    &&& shares_ok(t.shares as int)
    &&& delta_ok(t.anchor_d as int)
    &&& t.kind != TradeKind::Pair ==> ask_ok(t.fill as int)
}

/// Whether the state is valid: valid lots, at most one trade per lot beside the
/// buys, and bounded pairs.
pub open spec fn sim_ok(s: Sim) -> bool {
    &&& forall|i: int| 0 <= i < s.lots.len() ==> lot_ok(#[trigger] s.lots[i])
    &&& forall|i: int| 0 <= i < s.trades.len() ==> trade_ok(#[trigger] s.trades[i])
    &&& s.trades.len() + open_count(lot_book(s.lots)) <= 2 * s.lots.len()
    &&& s.pairs + open_count(lot_book(s.lots)) <= u32::MAX + 2 * s.lots.len()
    &&& s.pairs >= 0
    &&& magnitude(s.next_t) <= 3 * MAX_MS
    &&& s.anchor matches Some(a) ==> delta_ok(a.d as int)
}

/// Whether the terms of a window are valid.
pub open spec fn terms_ok(w: Terms) -> bool {
    &&& time_ok(w.open_ms as int)
    &&& time_ok(w.end_ms as int)
    &&& time_ok(w.market_end as int)
    &&& time_ok(w.delay_ms as int)
    &&& shares_ok(w.shares as int)
}

/// State of the trading loop.
pub struct SimState {
    pub lots: Vec<Lot>,
    pub trades: Vec<SimTrade>,
    pub pairs: u64,
    pub missed: u64,
    pub next_t: i64,
    pub anchor: Option<Anchor>,
}

impl View for SimState {
    type V = Sim;

    open spec fn view(&self) -> Sim {
        Sim {
            lots: self.lots@,
            trades: self.trades@,
            pairs: self.pairs as int,
            missed: self.missed as int,
            next_t: self.next_t as int,
            anchor: self.anchor,
        }
    }
}

/// The fee on one share at `price`.
fn fee_share_of(price: i64) -> (r: i128)
    ensures
        r == fee_share(price as int),
        0 <= r <= 1_750_000_000_000_000_000,
{
    let p: i64 = clamp(price, CENT, MAX_FEE_PRICE);
    proof {
        fee_per_share_is_small(p as int);
        assert(CRYPTO_TAKER_FEE_PERCENT * p <= 7_000_000_000);
    }
    CRYPTO_TAKER_FEE_PERCENT as i128 * p as i128 * (NANO - p) as i128
}

/// Whether a pair bought at `a` and `b` earns something.
pub fn net_gap_ok(a: i64, b: i64) -> (r: bool)
    requires
        ask_ok(a as int),
        ask_ok(b as int),
    ensures
        r == pair_earns(a as int, b as int),
{
    let gap: i128 = (NANO - a - b - 2 * DELAY_BUFFER_PER_LEG) as i128;
    gap * 100_000_000_000 - fee_share_of(a) - fee_share_of(b) >= MIN_RAW_PAIR_NET as i128
}

/// The part of a lot's fee is no more than a whole fee can be.
proof fn fee_part_is_small(lot: Lot, q: int)
    requires
        lot_ok(lot),
        0 < q <= lot.shares,
    ensures
        0 <= fee_part(lot, q) <= 20_000_000_000_000_000_000_000,
{
    let fee = lot.fee * NANO;
    assert(0 <= (fee * q) / (lot.shares as int) <= fee) by (nonlinear_arith)
        requires
            0 <= fee,
            0 < q <= lot.shares,
    ;
}

/// The part of a lot's fee that falls on `q` of its shares.
fn lot_fee_part(lot: &Lot, q: i64) -> (r: i128)
    requires
        lot_ok(*lot),
        0 < q <= lot.shares,
    ensures
        r == fee_part(*lot, q as int),
        0 <= r <= 20_000_000_000_000_000_000_000,
{
    let fee: i128 = lot.fee as i128 * 1_000_000_000;
    proof {
        assert(0 <= fee * q <= 20_000_000_000_000_000_000_000 * 1_000_000_000_000_000)
            by (nonlinear_arith)
            requires
                0 <= fee <= 20_000_000_000_000_000_000_000,
                0 <= q <= 1_000_000_000_000_000,
        ;
        fee_part_is_small(*lot, q as int);
    }
    (fee * q as i128) / lot.shares as i128
}

/// Position of the first lot of a side with open shares.
fn first_open_lot(lots: &Vec<Lot>, side: PositionSide) -> (r: usize)
    requires
        forall|i: int| 0 <= i < lots.len() ==> lot_ok(#[trigger] lots[i]),
    ensures
        r == first_open(lot_book(lots@), side, 0),
        r <= lots.len(),
        has_open(lot_book(lots@), side) == (r < lots.len()),
{
    let ghost book = lot_book(lots@);
    let mut i: usize = 0;
    while i < lots.len() && !(lots[i].side == side && lots[i].shares > lots[i].paired)
        invariant
            i <= lots.len(),
            book == lot_book(lots@),
            first_open(book, side, 0) == first_open(book, side, i as int),
        decreases lots.len() - i,
    {
        proof {
            assert(book[i as int] == (lots[i as int].side, lots[i as int].shares
                - lots[i as int].paired));
        }
        i += 1;
    }
    proof {
        if i < lots.len() {
            assert(book[i as int] == (lots[i as int].side, lots[i as int].shares
                - lots[i as int].paired));
        }
    }
    i
}

/// A product of shares and a price per share is bounded.
proof fn cash_is_small(q: int, px: int, limit: int)
    requires
        0 <= q <= 1_000_000_000_000_000,
        magnitude(px) <= limit,
    ensures
        magnitude(q * px) <= 1_000_000_000_000_000 * limit,
{
    assert(magnitude(q * px) <= q * magnitude(px)) by (nonlinear_arith)
        requires
            q >= 0,
    ;
    assert(q * magnitude(px) <= 1_000_000_000_000_000 * limit) by (nonlinear_arith)
        requires
            0 <= q <= 1_000_000_000_000_000,
            0 <= magnitude(px) <= limit,
    ;
}

/// What pairing `q` shares of two lots earns.
pub fn net_of_pair(up: &Lot, down: &Lot, q: i64) -> (r: i128)
    requires
        lot_ok(*up),
        lot_ok(*down),
        0 < q <= up.shares,
        q <= down.shares,
    ensures
        r == pair_net(*up, *down, q as int),
        magnitude(r as int) <= MAX_NET,
{
    let gap: i64 = NANO - up.fill - down.fill;
    proof {
        cash_is_small(q as int, gap as int, 2_001_000_000_000);
    }
    let gross: i128 = q as i128 * gap as i128;
    gross - (lot_fee_part(up, q) + lot_fee_part(down, q))
}

/// What a sale of `q` shares of a lot at `px` earns.
pub fn net_of_sale(lot: &Lot, q: i64, px: i64) -> (r: i128)
    requires
        lot_ok(*lot),
        0 < q <= lot.shares,
        ask_ok(px as int),
    ensures
        r == sale_net(*lot, q as int, px as int),
        magnitude(r as int) <= MAX_NET,
{
    let fee: i64 = taker_fee_usdc(q, px);
    let fee_buy: i128 = lot_fee_part(lot, q);
    proof {
        cash_is_small(q as int, px as int, 1_000_000_000_000);
        cash_is_small(q as int, lot.fill as int, 1_000_000_000_000);
    }
    let paid: i128 = q as i128 * lot.fill as i128 + fee_buy;
    q as i128 * px as i128 - paid - fee as i128 * 1_000_000_000
}

impl SimState {
    /// Whether anything is unpaired.
    fn holds_anything(&self) -> (r: bool)
        requires
            sim_ok(self@),
        ensures
            r == any_open(self@),
    {
        first_open_lot(&self.lots, PositionSide::Up) < self.lots.len() || first_open_lot(
            &self.lots,
            PositionSide::Down,
        ) < self.lots.len()
    }

    /// Pairs the first open lots of the two sides.
    fn pair_once(&mut self, t: i64, ui: usize, di: usize)
        requires
            sim_ok(old(self)@),
            can_match(lot_book(old(self).lots@)),
            ui == first_open(lot_book(old(self).lots@), PositionSide::Up, 0),
            di == first_open(lot_book(old(self).lots@), PositionSide::Down, 0),
            old(self).lots.len() <= 4_000_000_000,
            magnitude(t as int) <= 2 * MAX_MS,
        ensures
            final(self)@ == paired_once(old(self)@, t as int),
            sim_ok(final(self)@),
    {
        let ghost before = self@;
        let ghost book = lot_book(self.lots@);
        proof {
            first_open_finds_the_first(book, PositionSide::Up, 0);
            first_open_finds_the_first(book, PositionSide::Down, 0);
            one_match_closes_a_holding(book);
            pairing_lots_matches_the_book(before, t as int);
            assert(book[ui as int] == (self.lots[ui as int].side, self.lots[ui as int].shares
                - self.lots[ui as int].paired));
            assert(book[di as int] == (self.lots[di as int].side, self.lots[di as int].shares
                - self.lots[di as int].paired));
        }
        let mut up: Lot = self.lots[ui];
        let mut down: Lot = self.lots[di];
        let up_open: i64 = up.shares - up.paired;
        let down_open: i64 = down.shares - down.paired;
        let q: i64 = if up_open <= down_open {
            up_open
        } else {
            down_open
        };
        let net: i128 = net_of_pair(&up, &down, q);
        let fill: i64 = up.fill + down.fill;
        up.paired = up.paired + q;
        down.paired = down.paired + q;
        self.lots.set(ui, up);
        self.lots.set(di, down);
        self.pairs = self.pairs + 1;
        self.trades.push(
            SimTrade {
                kind: TradeKind::Pair,
                side: PositionSide::Up,
                t,
                fill,
                shares: q,
                reason: Reason::Pair,
                net,
                anchor_d: 0,
            },
        );
        proof {
            let after = paired_once(before, t as int);
            assert(self.lots@ =~= after.lots);
            assert(self.trades@ =~= after.trades);
            assert(self@ == after);
            assert forall|i: int| 0 <= i < self@.lots.len() implies lot_ok(
                #[trigger] self@.lots[i],
            ) by {
                assert(lot_ok(before.lots[i]));
            }
            assert forall|i: int| 0 <= i < self@.trades.len() implies trade_ok(
                #[trigger] self@.trades[i],
            ) by {
                if i < before.trades.len() {
                    assert(self@.trades[i] == before.trades[i]);
                }
            }
        }
    }

    /// Pairs everything that can be paired.
    fn pair_up(&mut self, t: i64)
        requires
            sim_ok(old(self)@),
            old(self).lots.len() <= 4_000_000_000,
            magnitude(t as int) <= 2 * MAX_MS,
        ensures
            final(self)@ == paired_up(old(self)@, t as int),
            sim_ok(final(self)@),
            final(self).lots.len() == old(self).lots.len(),
            final(self).missed == old(self).missed,
    {
        let ghost target = paired_up(self@, t as int);
        let mut ui: usize = first_open_lot(&self.lots, PositionSide::Up);
        let mut di: usize = first_open_lot(&self.lots, PositionSide::Down);
        while ui < self.lots.len() && di < self.lots.len()
            invariant
                sim_ok(self@),
                self.lots.len() == old(self).lots.len(),
                self.missed == old(self).missed,
                self.lots.len() <= 4_000_000_000,
                magnitude(t as int) <= 2 * MAX_MS,
                ui == first_open(lot_book(self.lots@), PositionSide::Up, 0),
                di == first_open(lot_book(self.lots@), PositionSide::Down, 0),
                target == paired_up(self@, t as int),
            decreases open_count(lot_book(self.lots@)),
        {
            proof {
                pairing_lots_matches_the_book(self@, t as int);
                one_match_closes_a_holding(lot_book(self.lots@));
            }
            self.pair_once(t, ui, di);
            ui = first_open_lot(&self.lots, PositionSide::Up);
            di = first_open_lot(&self.lots, PositionSide::Down);
        }
    }

    /// Adds a bought lot.
    fn buy(
        &mut self,
        shares: i64,
        side: PositionSide,
        fill_t: i64,
        fill: i64,
        kind: ExtKind,
        reason: Reason,
        anchor_d: i64,
    )
        requires
            sim_ok(old(self)@),
            old(self).lots.len() < 4_000_000_000,
            shares_ok(shares as int),
            ask_ok(fill as int),
            delta_ok(anchor_d as int),
            magnitude(fill_t as int) <= 2 * MAX_MS,
        ensures
            final(self)@ == bought(
                old(self)@,
                shares,
                side,
                fill_t as int,
                fill,
                kind,
                reason,
                anchor_d,
            ),
            sim_ok(final(self)@),
            final(self).lots.len() == old(self).lots.len() + 1,
            final(self).missed == old(self).missed,
    {
        let ghost before = self@;
        let fee: i64 = taker_fee_usdc(shares, fill);
        let lot: Lot = Lot {
            side,
            shares,
            fill,
            fill_t,
            fee,
            paired: 0,
            ext_kind: kind,
            anchor_d,
        };
        self.lots.push(lot);
        self.trades.push(
            SimTrade { kind: TradeKind::Buy, side, t: fill_t, fill, shares, reason, net: 0, anchor_d },
        );
        proof {
            adding_a_holding(lot_book(before.lots), (side, shares as int));
            assert(lot_book(self.lots@) =~= lot_book(before.lots).push((side, shares as int)));
            assert forall|i: int| 0 <= i < self@.lots.len() implies lot_ok(
                #[trigger] self@.lots[i],
            ) by {
                if i < before.lots.len() {
                    assert(self@.lots[i] == before.lots[i]);
                }
            }
            assert forall|i: int| 0 <= i < self@.trades.len() implies trade_ok(
                #[trigger] self@.trades[i],
            ) by {
                if i < before.trades.len() {
                    assert(self@.trades[i] == before.trades[i]);
                }
            }
            assert(sim_ok(self@));
        }
        let pairs: u64 = self.pairs;
        self.pair_up(fill_t);
        self.next_t = if self.pairs > pairs {
            fill_t + PAIR_COOLDOWN_MS
        } else {
            fill_t + FIRST_COOLDOWN_MS
        };
        self.anchor = if reason.is_second_leg() {
            None
        } else {
            Some(Anchor { t: fill_t, d: anchor_d, side, kind })
        };
    }
}

/// What is known of a delta is in range.
pub proof fn known_delta_is_ok(tape: Seq<(i64, i64)>, t: int)
    requires
        delta_tape_ok(tape),
    ensures
        price_known(tape, t) matches Some(d) ==> delta_ok(d as int),
{
    known_price_is_on_the_tape(tape, t);
}

/// The fill of a buy that is signalled at `t`.
pub fn try_fill(w: &Terms, asks: &[(i64, i64, i64)], t: i64, side: PositionSide) -> (r: Option<i64>)
    requires
        terms_ok(*w),
        time_ok(t as int),
    ensures
        r == fill_of(*w, asks@, t as int, side),
        r matches Some(fill) ==> MIN_ASK <= fill <= MAX_FILL,
{
    let fill_t: i64 = t + w.delay_ms;
    if fill_t > w.end_ms || fill_t >= w.market_end - NO_FILL_MS {
        return None;
    }
    match ask_at(asks, fill_t, side) {
        Some(fill) => if fill < MIN_ASK || fill > MAX_FILL {
            None
        } else {
            Some(fill)
        },
        None => None,
    }
}

/// How far the delta fell over the last `lookback_ms`.
pub fn delta_drop_over(tape: &[(i64, i64)], t: i64, lookback_ms: i64) -> (r: Option<i64>)
    requires
        delta_tape_ok(tape@),
        time_ok(t as int),
        time_ok(lookback_ms as int),
    ensures
        match (r, fell_over(tape@, t as int, lookback_ms as int)) {
            (Some(a), Some(b)) => a == b,
            (None, None) => true,
            _ => false,
        },
{
    proof {
        known_delta_is_ok(tape@, t as int);
        known_delta_is_ok(tape@, t - lookback_ms);
    }
    match (px_at(tape, t), px_at(tape, t - lookback_ms)) {
        (Some(now), Some(prev)) => Some(prev - now),
        _ => None,
    }
}

/// Whether a swing is too deep or too fast a dump to buy into.
fn falling_knife(sw: &Swing, tape: &[(i64, i64)]) -> (r: bool)
    requires
        delta_tape_ok(tape@),
        time_ok(sw.t as int),
    ensures
        r == is_falling_knife(*sw, tape@),
{
    if sw.kind == ExtKind::Trough && sw.side == PositionSide::Up && sw.ask > DUMP_ASK {
        if sw.d < MIN_UP_FIRST_DELTA {
            return true;
        }
        match delta_drop_over(tape, sw.t, RAPID_FALL_MS) {
            Some(drop) => drop >= RAPID_FALL_USD && sw.d < 0,
            None => false,
        }
    } else {
        false
    }
}

/// Whether the fill of a first leg is still wanted.
fn first_fill_ok(w: &Terms, sw: &Swing, tape: &[(i64, i64)], fill: i64) -> (r: bool)
    requires
        delta_tape_ok(tape@),
        terms_ok(*w),
        time_ok(sw.t as int),
    ensures
        r == first_fill_wanted(*w, *sw, tape@, fill as int),
{
    if fill > MAX_CHASE_FILL {
        return false;
    }
    if sw.kind == ExtKind::Trough && sw.side == PositionSide::Up && fill > DUMP_ASK {
        match px_at(tape, sw.t + w.delay_ms) {
            Some(d) => d >= MIN_UP_FIRST_DELTA,
            None => true,
        }
    } else {
        true
    }
}

/// What a share is worth at the close.
fn mark(side: PositionSide, winner: Option<PositionSide>, last_ask: (i64, i64, i64)) -> (r: i64)
    ensures
        r == mark_of(side, winner, last_ask),
{
    match winner {
        Some(won) => if won == side {
            NANO
        } else {
            0
        },
        None => side_ask(side, last_ask.1, last_ask.2),
    }
}

impl SimState {
    /// Tries to complete a pair with `side` at `t`.
    fn try_second_leg(
        &mut self,
        w: &Terms,
        asks: &[(i64, i64, i64)],
        t: i64,
        side: PositionSide,
        kind: ExtKind,
        reason: Reason,
    )
        requires
            sim_ok(old(self)@),
            old(self).lots.len() < 4_000_000_000,
            old(self).missed < u64::MAX,
            terms_ok(*w),
            time_ok(t as int),
        ensures
            final(self)@ == second_leg(old(self)@, *w, asks@, t as int, side, kind, reason),
            sim_ok(final(self)@),
            final(self).lots.len() <= old(self).lots.len() + 1,
            final(self).missed <= old(self).missed + 1,
    {
        let i: usize = first_open_lot(&self.lots, side.opposite());
        if i >= self.lots.len() {
            return;
        }
        let first: Lot = self.lots[i];
        proof {
            assert(lot_ok(self@.lots[i as int]));
            known_ask_is_valid(asks@, t as int, side);
            known_ask_is_valid(asks@, t + w.delay_ms, side);
        }
        let ask: i64 = match ask_at(asks, t, side) {
            Some(ask) => ask,
            None => return,
        };
        let limit: i64 = if reason == Reason::EarlyOpposite {
            MAX_EARLY_OPP_ASK
        } else {
            MAX_SECOND_ASK
        };
        if ask < MIN_ASK || ask > limit || !net_gap_ok(first.fill, ask) {
            return;
        }
        match try_fill(w, asks, t, side) {
            None => {
                self.missed = self.missed + 1;
            },
            Some(fill) => {
                if net_gap_ok(first.fill, fill) {
                    self.buy(w.shares, side, t + w.delay_ms, fill, kind, reason, first.anchor_d);
                } else {
                    self.missed = self.missed + 1;
                }
            },
        }
    }

    /// Handles a tick.
    fn handle_tick(&mut self, w: &Terms, asks: &[(i64, i64, i64)], t: i64, d: i64)
        requires
            sim_ok(old(self)@),
            old(self).lots.len() < 4_000_000_000,
            old(self).missed < u64::MAX,
            terms_ok(*w),
            time_ok(t as int),
        ensures
            final(self)@ == on_tick(old(self)@, *w, asks@, t as int, d as int),
            sim_ok(final(self)@),
            final(self).lots.len() <= old(self).lots.len() + 1,
            final(self).missed <= old(self).missed + 1,
    {
        if !self.holds_anything() || t < self.next_t {
            return;
        }
        if let Some(a) = self.anchor {
            if a.kind == ExtKind::Peak && a.side == PositionSide::Down && d <= a.d
                - EARLY_OPP_SWING_USD {
                self.try_second_leg(
                    w,
                    asks,
                    t,
                    PositionSide::Up,
                    ExtKind::Trough,
                    Reason::EarlyOpposite,
                );
            }
        }
    }

    /// Handles a swing.
    fn handle_swing(
        &mut self,
        w: &Terms,
        tape: &[(i64, i64)],
        asks: &[(i64, i64, i64)],
        sw: &Swing,
    )
        requires
            sim_ok(old(self)@),
            old(self).lots.len() < 4_000_000_000,
            old(self).missed < u64::MAX,
            terms_ok(*w),
            time_ok(sw.t as int),
            delta_ok(sw.d as int),
            delta_tape_ok(tape@),
        ensures
            final(self)@ == on_swing(old(self)@, *w, tape@, asks@, *sw),
            sim_ok(final(self)@),
            final(self).lots.len() <= old(self).lots.len() + 1,
            final(self).missed <= old(self).missed + 1,
    {
        if sw.t < self.next_t {
            return;
        }
        if first_open_lot(&self.lots, sw.side.opposite()) < self.lots.len() {
            let reason: Reason = match sw.kind {
                ExtKind::Peak => Reason::SwingPeakSecond,
                ExtKind::Trough => Reason::SwingTroughSecond,
            };
            self.try_second_leg(w, asks, sw.t, sw.side, sw.kind, reason);
            return;
        }
        if self.holds_anything() {
            return;
        }
        let left: i64 = w.market_end - sw.t;
        if left < MIN_LEFT_MS || (self.pairs > 0 && left < RESTART_MIN_LEFT_MS) {
            return;
        }
        if sw.ask > MAX_CHEAP_ASK || sw.ask < MIN_FIRST_ASK || falling_knife(sw, tape) {
            return;
        }
        match try_fill(w, asks, sw.t, sw.side) {
            None => {
                self.missed = self.missed + 1;
            },
            Some(fill) => {
                if first_fill_ok(w, sw, tape, fill) {
                    let reason: Reason = match sw.kind {
                        ExtKind::Peak => Reason::SwingPeak,
                        ExtKind::Trough => Reason::SwingTrough,
                    };
                    self.buy(w.shares, sw.side, sw.t + w.delay_ms, fill, sw.kind, reason, sw.d);
                } else {
                    self.missed = self.missed + 1;
                }
            },
        }
    }

    /// Trades the swings and ticks in the order of their times.
    fn trade_through(
        &mut self,
        w: &Terms,
        tape: &[(i64, i64)],
        asks: &[(i64, i64, i64)],
        swings: &[Swing],
        ticks: &[(i64, i64)],
    )
        requires
            sim_ok(old(self)@),
            old(self).lots.len() + swings.len() + ticks.len() <= 4_000_000_000,
            old(self).missed == 0,
            terms_ok(*w),
            swings_ok(swings@),
            delta_tape_ok(ticks@),
            delta_tape_ok(tape@),
        ensures
            final(self)@ == traded_through(
                old(self)@,
                *w,
                tape@,
                asks@,
                swings@,
                ticks@,
                0,
                0,
            ),
            sim_ok(final(self)@),
            final(self).lots.len() <= old(self).lots.len() + swings.len() + ticks.len(),
            final(self).missed <= swings.len() + ticks.len(),
    {
        let ghost n = self.lots.len();
        let ghost target = traded_through(self@, *w, tape@, asks@, swings@, ticks@, 0, 0);
        let mut i: usize = 0;
        let mut j: usize = 0;
        while i < swings.len() || j < ticks.len()
            invariant_except_break
                target == traded_through(
                    self@,
                    *w,
                    tape@,
                    asks@,
                    swings@,
                    ticks@,
                    i as int,
                    j as int,
                ),
            invariant
                i <= swings.len(),
                j <= ticks.len(),
                sim_ok(self@),
                self.lots.len() <= n + i + j,
                self.missed <= i + j,
                n + swings.len() + ticks.len() <= 4_000_000_000,
                terms_ok(*w),
                swings_ok(swings@),
                delta_tape_ok(ticks@),
                delta_tape_ok(tape@),
            ensures
                self@ == target,
            decreases swings.len() - i + ticks.len() - j,
        {
            if self.pairs >= MAX_PAIRS && !self.holds_anything() {
                break;
            }
            if i < swings.len() && (j >= ticks.len() || swings[i].t <= ticks[j].0) {
                let sw: Swing = swings[i];
                proof {
                    assert(delta_ok(swings@[i as int].d as int));
                }
                self.handle_swing(w, tape, asks, &sw);
                i = i + 1;
            } else {
                proof {
                    assert(delta_ok(ticks@[j as int].1 as int));
                }
                self.handle_tick(w, asks, ticks[j].0, ticks[j].1);
                j = j + 1;
            }
        }
    }

    /// Sells the open shares of the lot at `i`.
    fn sell_lot(&mut self, i: usize, px: i64, t: i64)
        requires
            sim_ok(old(self)@),
            i < old(self).lots.len(),
            old(self).lots[i as int].shares > old(self).lots[i as int].paired,
            old(self).lots.len() <= 4_000_000_000,
            0 < px <= 1_500_000_000,
            magnitude(t as int) <= 2 * MAX_MS,
        ensures
            final(self)@ == sold_lot(old(self)@, i as int, px as int, t as int),
            sim_ok(final(self)@),
    {
        let ghost before = self@;
        proof {
            assert(lot_ok(self@.lots[i as int]));
        }
        let mut lot: Lot = self.lots[i];
        let q: i64 = lot.shares - lot.paired;
        let net: i128 = net_of_sale(&lot, q, px);
        let side: PositionSide = lot.side;
        lot.paired = lot.shares;
        self.lots.set(i, lot);
        self.trades.push(
            SimTrade {
                kind: TradeKind::Sell,
                side,
                t,
                fill: px,
                shares: q,
                reason: Reason::Flatten,
                net,
                anchor_d: 0,
            },
        );
        proof {
            closing_keeps_the_state_ok(before, self@, i as int);
            assert(self@ == sold_lot(before, i as int, px as int, t as int));
        }
    }

    /// Sells what is open on a side and was filled by `by`.
    fn sell_side(&mut self, side: PositionSide, px: i64, t: i64, by: i64)
        requires
            sim_ok(old(self)@),
            old(self).lots.len() <= 4_000_000_000,
            0 < px <= 1_500_000_000,
            magnitude(t as int) <= 2 * MAX_MS,
        ensures
            final(self)@ == sold_side(old(self)@, side, px as int, t as int, by as int, 0),
            sim_ok(final(self)@),
            final(self).lots.len() == old(self).lots.len(),
            final(self).missed == old(self).missed,
    {
        let ghost target = sold_side(self@, side, px as int, t as int, by as int, 0);
        let mut i: usize = 0;
        while i < self.lots.len()
            invariant
                i <= self.lots.len(),
                self.lots.len() == old(self).lots.len(),
                self.missed == old(self).missed,
                sim_ok(self@),
                self.lots.len() <= 4_000_000_000,
                0 < px <= 1_500_000_000,
                magnitude(t as int) <= 2 * MAX_MS,
                target == sold_side(self@, side, px as int, t as int, by as int, i as int),
            decreases self.lots.len() - i,
        {
            if self.lots[i].side == side && self.lots[i].shares > self.lots[i].paired
                && self.lots[i].fill_t <= by {
                self.sell_lot(i, px, t);
            }
            i = i + 1;
        }
    }

    /// Sells what was filled of a side by `by` if its token is quoted.
    fn flatten_side(&mut self, asks: &[(i64, i64, i64)], t: i64, by: i64, side: PositionSide)
        requires
            sim_ok(old(self)@),
            old(self).lots.len() <= 4_000_000_000,
            magnitude(t as int) <= 2 * MAX_MS,
        ensures
            final(self)@ == flattened_side(old(self)@, asks@, t as int, by as int, side),
            sim_ok(final(self)@),
            final(self).lots.len() == old(self).lots.len(),
            final(self).missed == old(self).missed,
    {
        proof {
            known_ask_is_valid(asks@, t as int, side);
        }
        if let Some(ask) = ask_at(asks, t, side) {
            let px: i64 = if ask - SELL_HAIRCUT >= CENT {
                ask - SELL_HAIRCUT
            } else {
                CENT
            };
            self.sell_side(side, px, t, by);
        }
    }

    /// Sells what is unpaired near the close.
    fn flatten(&mut self, w: &Terms, asks: &[(i64, i64, i64)])
        requires
            sim_ok(old(self)@),
            old(self).lots.len() <= 4_000_000_000,
            terms_ok(*w),
        ensures
            final(self)@ == flattened(old(self)@, *w, asks@),
            sim_ok(final(self)@),
            final(self).lots.len() == old(self).lots.len(),
            final(self).missed == old(self).missed,
    {
        let last_t: i64 = w.market_end - EMERGENCY_LEFT_MS;
        let t: i64 = last_t + w.delay_ms;
        if self.holds_anything() && last_t > w.open_ms && w.end_ms >= last_t && t < w.market_end
            - NO_SELL_MS {
            self.flatten_side(asks, t, last_t, PositionSide::Up);
            self.flatten_side(asks, t, last_t, PositionSide::Down);
        }
    }

    /// Settles the open shares of the lot at `i`.
    fn settle_lot(
        &mut self,
        i: usize,
        winner: Option<PositionSide>,
        last_ask: (i64, i64, i64),
        t: i64,
    )
        requires
            sim_ok(old(self)@),
            i < old(self).lots.len(),
            old(self).lots[i as int].shares > old(self).lots[i as int].paired,
            old(self).lots.len() <= 4_000_000_000,
            ask_ok(last_ask.1 as int),
            ask_ok(last_ask.2 as int),
            magnitude(t as int) <= 2 * MAX_MS,
        ensures
            final(self)@ == settled_lot(old(self)@, i as int, winner, last_ask, t as int),
            sim_ok(final(self)@),
    {
        let ghost before = self@;
        proof {
            assert(lot_ok(self@.lots[i as int]));
        }
        let mut lot: Lot = self.lots[i];
        let q: i64 = lot.shares - lot.paired;
        let px: i64 = mark(lot.side, winner, last_ask);
        let fee_buy: i128 = lot_fee_part(&lot, q);
        proof {
            cash_is_small(q as int, px as int, 1_000_000_000_000);
            cash_is_small(q as int, lot.fill as int, 1_000_000_000_000);
        }
        let paid: i128 = q as i128 * lot.fill as i128 + fee_buy;
        let net: i128 = q as i128 * px as i128 - paid;
        let side: PositionSide = lot.side;
        let fill: i64 = lot.fill;
        lot.paired = lot.shares;
        self.lots.set(i, lot);
        self.trades.push(
            SimTrade {
                kind: TradeKind::Settle,
                side,
                t,
                fill,
                shares: q,
                reason: Reason::Settle,
                net,
                anchor_d: 0,
            },
        );
        proof {
            closing_keeps_the_state_ok(before, self@, i as int);
            assert(self@ == settled_lot(before, i as int, winner, last_ask, t as int));
        }
    }

    /// Settles what is open.
    fn settle(&mut self, winner: Option<PositionSide>, last_ask: (i64, i64, i64), t: i64)
        requires
            sim_ok(old(self)@),
            old(self).lots.len() <= 4_000_000_000,
            ask_ok(last_ask.1 as int),
            ask_ok(last_ask.2 as int),
            magnitude(t as int) <= 2 * MAX_MS,
        ensures
            final(self)@ == settled(old(self)@, winner, last_ask, t as int, 0),
            sim_ok(final(self)@),
            final(self).lots.len() == old(self).lots.len(),
            final(self).missed == old(self).missed,
    {
        let ghost target = settled(self@, winner, last_ask, t as int, 0);
        let mut i: usize = 0;
        while i < self.lots.len()
            invariant
                i <= self.lots.len(),
                self.lots.len() == old(self).lots.len(),
                self.missed == old(self).missed,
                sim_ok(self@),
                self.lots.len() <= 4_000_000_000,
                ask_ok(last_ask.1 as int),
                ask_ok(last_ask.2 as int),
                magnitude(t as int) <= 2 * MAX_MS,
                target == settled(self@, winner, last_ask, t as int, i as int),
            decreases self.lots.len() - i,
        {
            if self.lots[i].shares > self.lots[i].paired {
                self.settle_lot(i, winner, last_ask, t);
            }
            i = i + 1;
        }
    }

    /// Plays a window to its end.
    pub fn play(
        &mut self,
        w: &Terms,
        tape: &[(i64, i64)],
        asks: &[(i64, i64, i64)],
        swings: &[Swing],
        ticks: &[(i64, i64)],
        winner: Option<PositionSide>,
    )
        requires
            sim_ok(old(self)@),
            old(self).lots.len() + swings.len() + ticks.len() <= 4_000_000_000,
            old(self).missed == 0,
            terms_ok(*w),
            swings_ok(swings@),
            delta_tape_ok(ticks@),
            delta_tape_ok(tape@),
            ask_tape_ok(asks@),
            asks.len() > 0,
        ensures
            final(self)@ == played(old(self)@, *w, tape@, asks@, swings@, ticks@, winner),
            sim_ok(final(self)@),
            final(self).lots.len() <= old(self).lots.len() + swings.len() + ticks.len(),
            final(self).missed <= swings.len() + ticks.len(),
    {
        self.trade_through(w, tape, asks, swings, ticks);
        self.flatten(w, asks);
        let last_ask: (i64, i64, i64) = asks[asks.len() - 1];
        self.settle(winner, last_ask, w.end_ms - 1);
    }
}

/// A state stays valid when an open lot is closed by one trade.
proof fn closing_keeps_the_state_ok(s: Sim, after: Sim, i: int)
    requires
        sim_ok(s),
        0 <= i < s.lots.len(),
        s.lots[i].shares > s.lots[i].paired,
        after.lots == lots_closed(s.lots, i),
        after.trades.len() == s.trades.len() + 1,
        after.trades.drop_last() =~= s.trades,
        trade_ok(after.trades.last()),
        after.pairs == s.pairs,
        after.next_t == s.next_t,
        after.anchor == s.anchor,
    ensures
        sim_ok(after),
{
    let book = lot_book(s.lots);
    let l = s.lots[i];
    assert(book[i] == (l.side, l.shares - l.paired));
    closing_a_holding(book, i, (l.side, 0));
    assert(lot_book(after.lots) =~= book.update(i, (l.side, 0)));
    assert forall|k: int| 0 <= k < after.lots.len() implies lot_ok(#[trigger] after.lots[k]) by {
        assert(lot_ok(s.lots[k]));
    }
    assert forall|k: int| 0 <= k < after.trades.len() implies trade_ok(#[trigger] after.trades[k]) by {
        if k < s.trades.len() {
            assert(after.trades.drop_last()[k] == s.trades[k]);
        }
    }
}

/// The sum of what trades net.
pub fn sum_of_nets(trades: &[SimTrade]) -> (r: i128)
    requires
        forall|i: int| 0 <= i < trades.len() ==> trade_ok(#[trigger] trades[i]),
        trades.len() <= 8_000_000_000,
    ensures
        r == net_sum(trades@),
        magnitude(r as int) <= trades.len() * 4_000_000_000_000_000_000_000_000_000,
{
    let mut sum: i128 = 0;
    let mut i: usize = 0;
    while i < trades.len()
        invariant
            i <= trades.len() <= 8_000_000_000,
            sum == net_sum(trades@.take(i as int)),
            magnitude(sum as int) <= i * 4_000_000_000_000_000_000_000_000_000,
            forall|k: int| 0 <= k < trades.len() ==> trade_ok(#[trigger] trades[k]),
        decreases trades.len() - i,
    {
        proof {
            let next = trades@.take(i + 1);
            assert(next.drop_last() =~= trades@.take(i as int));
            assert(trade_ok(trades[i as int]));
        }
        sum = sum + trades[i].net;
        i = i + 1;
    }
    proof {
        assert(trades@.take(i as int) =~= trades@);
    }
    sum
}

} // verus!
