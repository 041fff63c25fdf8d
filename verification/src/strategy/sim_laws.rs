//! What holds of every window that is played.
use vstd::prelude::*;
use crate::fifo::{
    adding_a_holding, all_open, can_match, closing_a_holding, first_open,
    first_open_finds_the_first, has_open, match_size, one_match_closes_a_holding,
    one_match_takes_from_both_sides, open_count, open_means_an_open_holding, open_shares,
    open_shares_are_not_negative,
};
use crate::pnl::{fee_of, fee_per_share_is_small, fee_price, CRYPTO_TAKER_FEE_PERCENT};
use crate::units::{rounded_quotient, shares_ok, CENT, NANO};
use super::sides::PositionSide;
use super::sim::{
    any_open, bought, fee_part, fee_share, fill_of, flattened, flattened_side, is_done, is_for_sale,
    lot_book, lots_closed, missed, new_lot, on_swing, on_tick, pair_earns, pair_net, paired_once,
    paired_up, pairing_lots_matches_the_book, played, second_leg, sell_price, settled, settled_lot,
    sold_lot, sold_side, swing_is_next, traded_through, EMERGENCY_LEFT_MS, FIRST_COOLDOWN_MS, Lot,
    MAX_FILL, MAX_PAIRS, NO_FILL_MS, PAIR_COOLDOWN_MS, Sim, Terms,
};
use super::swings::{ExtKind, MIN_ASK, Swing};
use super::tape::ask_known;
use super::trades::{Reason, SimTrade, TradeKind};

verus! {

/// Number of trades of a kind.
pub open spec fn count_of(trades: Seq<SimTrade>, kind: TradeKind) -> int
    decreases trades.len(),
{
    if trades.len() == 0 {
        0
    } else {
        count_of(trades.drop_last(), kind) + (if trades.last().kind == kind {
            1int
        } else {
            0int
        })
    }
}

/// What a trade leaves open of a side: what it buys of it, less what it pairs,
/// sells and settles of it.
pub open spec fn leaves(t: SimTrade, side: PositionSide) -> int {
    match t.kind {
        TradeKind::Buy => if t.side == side && t.shares > 0 {
            t.shares as int
        } else {
            0
        },
        TradeKind::Pair => -t.shares,
        _ => if t.side == side {
            -t.shares
        } else {
            0
        },
    }
}

/// Shares of a side that trades leave open.
pub open spec fn left_on(trades: Seq<SimTrade>, side: PositionSide) -> int
    decreases trades.len(),
{
    if trades.len() == 0 {
        0
    } else {
        left_on(trades.drop_last(), side) + leaves(trades.last(), side)
    }
}

/// Shares that trades leave open.
pub open spec fn shares_left(trades: Seq<SimTrade>) -> int {
    left_on(trades, PositionSide::Up) + left_on(trades, PositionSide::Down)
}

/// Lots that no buy accounts for.
pub open spec fn lots_before(s: Sim) -> int {
    s.lots.len() - count_of(s.trades, TradeKind::Buy)
}

/// Pairs that no trade accounts for.
pub open spec fn pairs_before(s: Sim) -> int {
    s.pairs - count_of(s.trades, TradeKind::Pair)
}

/// Open shares of a side that no trade accounts for.
pub open spec fn shares_before(s: Sim, side: PositionSide) -> int {
    open_shares(lot_book(s.lots), side) - left_on(s.trades, side)
}

/// Whether the books of two states agree: the same lots, pairs and open shares
/// are left unaccounted for.
pub open spec fn same_books(s: Sim, after: Sim) -> bool {
    &&& lots_before(after) == lots_before(s)
    &&& pairs_before(after) == pairs_before(s)
    &&& shares_before(after, PositionSide::Up) == shares_before(s, PositionSide::Up)
    &&& shares_before(after, PositionSide::Down) == shares_before(s, PositionSide::Down)
}

proof fn pushing_a_trade(trades: Seq<SimTrade>, t: SimTrade)
    ensures
        count_of(trades.push(t), TradeKind::Buy) == count_of(trades, TradeKind::Buy) + (if t.kind
            == TradeKind::Buy {
            1int
        } else {
            0
        }),
        count_of(trades.push(t), TradeKind::Pair) == count_of(trades, TradeKind::Pair) + (if t.kind
            == TradeKind::Pair {
            1int
        } else {
            0
        }),
        forall|side: PositionSide| #[trigger]
            left_on(trades.push(t), side) == left_on(trades, side) + leaves(t, side),
{
    assert(trades.push(t).drop_last() =~= trades);
}

/// Whether what is paired of a lot lies between nothing and all of it.
pub open spec fn lot_sound(l: Lot) -> bool {
    &&& shares_ok(l.shares as int)
    &&& l.shares >= 0 ==> 0 <= l.paired <= l.shares
    &&& l.shares < 0 ==> l.shares <= l.paired <= 0
}

/// Whether all lots are sound.
pub open spec fn lots_sound(s: Sim) -> bool {
    forall|i: int| 0 <= i < s.lots.len() ==> lot_sound(#[trigger] s.lots[i])
}

proof fn pairing_keeps_the_books(s: Sim, t: int)
    requires
        lots_sound(s),
    ensures
        same_books(s, paired_up(s, t)),
        lots_sound(paired_up(s, t)),
        paired_up(s, t).lots.len() == s.lots.len(),
        !can_match(lot_book(paired_up(s, t).lots)),
    decreases open_count(lot_book(s.lots)),
{
    let book = lot_book(s.lots);
    if can_match(book) {
        let next = paired_once(s, t);
        let u = first_open(book, PositionSide::Up, 0);
        let d = first_open(book, PositionSide::Down, 0);
        first_open_finds_the_first(book, PositionSide::Up, 0);
        first_open_finds_the_first(book, PositionSide::Down, 0);
        assert(book[u] == (s.lots[u].side, s.lots[u].shares - s.lots[u].paired));
        assert(book[d] == (s.lots[d].side, s.lots[d].shares - s.lots[d].paired));
        pairing_lots_matches_the_book(s, t);
        one_match_closes_a_holding(book);
        one_match_takes_from_both_sides(book);
        assert(lot_sound(s.lots[u]) && lot_sound(s.lots[d]));
        assert(next.trades.last().shares == match_size(book));
        pushing_a_trade(s.trades, next.trades.last());
        assert(next.trades =~= s.trades.push(next.trades.last()));
        assert forall|i: int| 0 <= i < next.lots.len() implies lot_sound(#[trigger] next.lots[i]) by {
            assert(lot_sound(s.lots[i]));
        }
        pairing_keeps_the_books(next, t);
    }
}

proof fn buying_keeps_the_books(
    s: Sim,
    shares: i64,
    side: PositionSide,
    fill_t: int,
    fill: i64,
    kind: ExtKind,
    reason: Reason,
    anchor_d: i64,
)
    requires
        lots_sound(s),
        shares_ok(shares as int),
    ensures
        same_books(s, bought(s, shares, side, fill_t, fill, kind, reason, anchor_d)),
        lots_sound(bought(s, shares, side, fill_t, fill, kind, reason, anchor_d)),
{
    let buy = SimTrade {
        kind: TradeKind::Buy,
        side,
        t: fill_t as i64,
        fill,
        shares,
        reason,
        net: 0,
        anchor_d,
    };
    let held = Sim {
        lots: s.lots.push(new_lot(side, shares, fill, fill_t, kind, anchor_d)),
        trades: s.trades.push(buy),
        ..s
    };
    pushing_a_trade(s.trades, buy);
    adding_a_holding(lot_book(s.lots), (side, shares as int));
    assert(lot_book(held.lots) =~= lot_book(s.lots).push((side, shares as int)));
    assert forall|i: int| 0 <= i < held.lots.len() implies lot_sound(#[trigger] held.lots[i]) by {
        if i < s.lots.len() {
            assert(lot_sound(s.lots[i]));
        }
    }
    pairing_keeps_the_books(held, fill_t);
}

/// Whether a state follows from another by a buy that was signalled at `t`,
/// not before the cooldown was over, and was filled at a known ask.  A first
/// leg is bought with nothing open, a second leg against an open opposite lot
/// that it earns with.
pub open spec fn buys_at(
    s: Sim,
    after: Sim,
    w: Terms,
    asks: Seq<(i64, i64, i64)>,
    t: int,
    side: PositionSide,
    fill: i64,
    kind: ExtKind,
    reason: Reason,
    anchor_d: i64,
) -> bool {
    &&& after == bought(s, w.shares, side, t + w.delay_ms, fill, kind, reason, anchor_d)
    &&& t >= s.next_t
    &&& fill_of(w, asks, t, side) == Some(fill)
    &&& if reason.completes_pair() {
        &&& has_open(lot_book(s.lots), side.opposite_spec())
        &&& pair_earns(
            s.lots[first_open(lot_book(s.lots), side.opposite_spec(), 0)].fill as int,
            fill as int,
        )
        &&& anchor_d == s.lots[first_open(lot_book(s.lots), side.opposite_spec(), 0)].anchor_d
    } else {
        !any_open(s)
    }
}

/// Whether a state follows from another by nothing, a miss or a buy.
pub open spec fn steps_to(s: Sim, after: Sim, w: Terms, asks: Seq<(i64, i64, i64)>) -> bool {
    ||| after == s
    ||| after == missed(s)
    ||| exists|
        t: int,
        side: PositionSide,
        fill: i64,
        kind: ExtKind,
        reason: Reason,
        anchor_d: i64,
    | #[trigger] buys_at(s, after, w, asks, t, side, fill, kind, reason, anchor_d)
}

proof fn second_leg_is_a_step(
    s: Sim,
    w: Terms,
    asks: Seq<(i64, i64, i64)>,
    t: int,
    side: PositionSide,
    kind: ExtKind,
    reason: Reason,
)
    requires
        t >= s.next_t,
        reason.completes_pair(),
    ensures
        steps_to(s, second_leg(s, w, asks, t, side, kind, reason), w, asks),
{
    let after = second_leg(s, w, asks, t, side, kind, reason);
    let first = s.lots[first_open(lot_book(s.lots), side.opposite_spec(), 0)];
    if after != s && after != missed(s) {
        let fill = fill_of(w, asks, t, side)->0;
        assert(buys_at(s, after, w, asks, t, side, fill, kind, reason, first.anchor_d));
    }
}

/// A swing and a tick each lead to nothing, a miss or one buy.
pub proof fn events_are_steps(
    s: Sim,
    w: Terms,
    tape: Seq<(i64, i64)>,
    asks: Seq<(i64, i64, i64)>,
    sw: Swing,
    t: int,
    d: int,
)
    ensures
        steps_to(s, on_swing(s, w, tape, asks, sw), w, asks),
        steps_to(s, on_tick(s, w, asks, t, d), w, asks),
{
    if t >= s.next_t {
        second_leg_is_a_step(
            s,
            w,
            asks,
            t,
            PositionSide::Up,
            ExtKind::Trough,
            Reason::EarlyOpposite,
        );
    }
    let after = on_swing(s, w, tape, asks, sw);
    if sw.t >= s.next_t {
        let second = match sw.kind {
            ExtKind::Peak => Reason::SwingPeakSecond,
            ExtKind::Trough => Reason::SwingTroughSecond,
        };
        second_leg_is_a_step(s, w, asks, sw.t as int, sw.side, sw.kind, second);
        if !has_open(lot_book(s.lots), sw.side.opposite_spec()) && after != s && after != missed(
            s,
        ) {
            let first = match sw.kind {
                ExtKind::Peak => Reason::SwingPeak,
                ExtKind::Trough => Reason::SwingTrough,
            };
            let fill = fill_of(w, asks, sw.t as int, sw.side)->0;
            assert(buys_at(
                s,
                after,
                w,
                asks,
                sw.t as int,
                sw.side,
                fill,
                sw.kind,
                first,
                sw.d,
            ));
        }
    }
}

/// What holds at the start of trading and is kept by every step holds at the
/// end of trading.
pub proof fn trading_keeps(
    keeps: spec_fn(Sim) -> bool,
    s: Sim,
    w: Terms,
    tape: Seq<(i64, i64)>,
    asks: Seq<(i64, i64, i64)>,
    swings: Seq<Swing>,
    ticks: Seq<(i64, i64)>,
    i: int,
    j: int,
)
    requires
        keeps(s),
        forall|a: Sim, b: Sim|
            keeps(a) && !is_done(a) && #[trigger] steps_to(a, b, w, asks) ==> keeps(b),
    ensures
        keeps(traded_through(s, w, tape, asks, swings, ticks, i, j)),
    decreases swings.len() - i + ticks.len() - j,
{
    if i < 0 || j < 0 || (i >= swings.len() && j >= ticks.len()) || i > swings.len() || j
        > ticks.len() || is_done(s) {
    } else if swing_is_next(swings, ticks, i, j) {
        events_are_steps(s, w, tape, asks, swings[i], 0, 0);
        let next = on_swing(s, w, tape, asks, swings[i]);
        trading_keeps(keeps, next, w, tape, asks, swings, ticks, i + 1, j);
    } else {
        events_are_steps(
            s,
            w,
            tape,
            asks,
            arbitrary(),
            ticks[j].0 as int,
            ticks[j].1 as int,
        );
        let next = on_tick(s, w, asks, ticks[j].0 as int, ticks[j].1 as int);
        trading_keeps(keeps, next, w, tape, asks, swings, ticks, i, j + 1);
    }
}

proof fn closing_keeps_the_books(s: Sim, after: Sim, i: int)
    requires
        lots_sound(s),
        0 <= i < s.lots.len(),
        s.lots[i].shares > s.lots[i].paired,
        after.lots == lots_closed(s.lots, i),
        after.pairs == s.pairs,
        after.trades.len() > 0,
        after.trades.drop_last() =~= s.trades,
        after.trades.last().kind == TradeKind::Sell || after.trades.last().kind
            == TradeKind::Settle,
        after.trades.last().shares == s.lots[i].shares - s.lots[i].paired,
        after.trades.last().side == s.lots[i].side,
    ensures
        same_books(s, after),
        lots_sound(after),
{
    let book = lot_book(s.lots);
    let l = s.lots[i];
    assert(book[i] == (l.side, l.shares - l.paired));
    closing_a_holding(book, i, (l.side, 0));
    assert(lot_book(after.lots) =~= book.update(i, (l.side, 0)));
    pushing_a_trade(s.trades, after.trades.last());
    assert(after.trades =~= s.trades.push(after.trades.last()));
    assert forall|k: int| 0 <= k < after.lots.len() implies lot_sound(#[trigger] after.lots[k]) by {
        assert(lot_sound(s.lots[k]));
    }
}

proof fn selling_keeps_the_books(s: Sim, side: PositionSide, px: int, t: int, by: int, i: int)
    requires
        lots_sound(s),
        0 <= i,
    ensures
        same_books(s, sold_side(s, side, px, t, by, i)),
        lots_sound(sold_side(s, side, px, t, by, i)),
    decreases s.lots.len() - i,
{
    if i < s.lots.len() {
        if is_for_sale(s.lots[i], side, by) {
            let next = sold_lot(s, i, px, t);
            assert(lot_sound(s.lots[i]));
            assert(next.trades.drop_last() =~= s.trades);
            closing_keeps_the_books(s, next, i);
            selling_keeps_the_books(next, side, px, t, by, i + 1);
        } else {
            selling_keeps_the_books(s, side, px, t, by, i + 1);
        }
    }
}

proof fn settling_keeps_the_books(
    s: Sim,
    winner: Option<PositionSide>,
    last_ask: (i64, i64, i64),
    t: int,
    i: int,
)
    requires
        lots_sound(s),
        0 <= i <= s.lots.len(),
        forall|k: int| 0 <= k < i ==> (#[trigger] s.lots[k]).shares <= s.lots[k].paired,
    ensures
        same_books(s, settled(s, winner, last_ask, t, i)),
        lots_sound(settled(s, winner, last_ask, t, i)),
        forall|k: int|
            0 <= k < s.lots.len() ==> (#[trigger] settled(s, winner, last_ask, t, i).lots[k]).shares
                <= settled(s, winner, last_ask, t, i).lots[k].paired,
        settled(s, winner, last_ask, t, i).lots.len() == s.lots.len(),
    decreases s.lots.len() - i,
{
    if i < s.lots.len() {
        if s.lots[i].shares > s.lots[i].paired {
            let next = settled_lot(s, i, winner, last_ask, t);
            assert(lot_sound(s.lots[i]));
            assert(next.trades.drop_last() =~= s.trades);
            closing_keeps_the_books(s, next, i);
            settling_keeps_the_books(next, winner, last_ask, t, i + 1);
        } else {
            settling_keeps_the_books(s, winner, last_ask, t, i + 1);
        }
    }
}

proof fn flattening_keeps_the_books(s: Sim, w: Terms, asks: Seq<(i64, i64, i64)>)
    requires
        lots_sound(s),
    ensures
        same_books(s, flattened(s, w, asks)),
        lots_sound(flattened(s, w, asks)),
{
    let by = w.market_end - EMERGENCY_LEFT_MS;
    let t = by + w.delay_ms;
    let half = flattened_side(s, asks, t, by, PositionSide::Up);
    if let Some(ask) = ask_known(asks, t, PositionSide::Up) {
        selling_keeps_the_books(
            s,
            PositionSide::Up,
            sell_price(ask as int),
            t,
            by,
            0,
        );
    }
    if let Some(ask) = ask_known(asks, t, PositionSide::Down) {
        selling_keeps_the_books(
            half,
            PositionSide::Down,
            sell_price(ask as int),
            t,
            by,
            0,
        );
    }
}

/// The books balance at the end of a window.  Every lot that was not there at
/// the start was bought, every pair is a trade, and nothing is left open: what
/// was open at the start and what was bought has been paired, sold or settled.
pub proof fn books_balance(
    s: Sim,
    w: Terms,
    tape: Seq<(i64, i64)>,
    asks: Seq<(i64, i64, i64)>,
    swings: Seq<Swing>,
    ticks: Seq<(i64, i64)>,
    winner: Option<PositionSide>,
)
    requires
        lots_sound(s),
        s.trades.len() == 0,
        shares_ok(w.shares as int),
    ensures
        ({
            let end = played(s, w, tape, asks, swings, ticks, winner);
            &&& end.lots.len() == s.lots.len() + count_of(end.trades, TradeKind::Buy)
            &&& end.pairs == s.pairs + count_of(end.trades, TradeKind::Pair)
            &&& all_open(lot_book(s.lots)) + shares_left(end.trades) == 0
            &&& forall|side: PositionSide|
                open_shares(lot_book(s.lots), side) + #[trigger] left_on(end.trades, side) == 0
            &&& !any_open(end)
        }),
{
    let keeps = |a: Sim| lots_sound(a) && same_books(s, a);
    assert forall|a: Sim, b: Sim|
        keeps(a) && !is_done(a) && #[trigger] steps_to(a, b, w, asks) implies keeps(b) by {
        steps_keep_the_books(a, b, w, asks);
    }
    let through = traded_through(s, w, tape, asks, swings, ticks, 0, 0);
    trading_keeps(keeps, s, w, tape, asks, swings, ticks, 0, 0);
    assert(keeps(through));
    let flat = flattened(through, w, asks);
    flattening_keeps_the_books(through, w, asks);
    let end = played(s, w, tape, asks, swings, ticks, winner);
    settling_keeps_the_books(flat, winner, asks[asks.len() - 1], w.end_ms - 1, 0);
    let book = lot_book(end.lots);
    assert forall|k: int| 0 <= k < book.len() implies (#[trigger] book[k]).1 <= 0 by {
        assert(end.lots[k].shares <= end.lots[k].paired);
    }
    open_means_an_open_holding(book, PositionSide::Up);
    open_means_an_open_holding(book, PositionSide::Down);
    open_shares_are_not_negative(book, PositionSide::Up);
    open_shares_are_not_negative(book, PositionSide::Down);
}

proof fn steps_keep_the_books(a: Sim, b: Sim, w: Terms, asks: Seq<(i64, i64, i64)>)
    requires
        lots_sound(a),
        steps_to(a, b, w, asks),
        shares_ok(w.shares as int),
    ensures
        lots_sound(b),
        same_books(a, b),
{
    if b != a && b != missed(a) {
        let (t, side, fill, kind, reason, anchor_d) = choose|
            t: int,
            side: PositionSide,
            fill: i64,
            kind: ExtKind,
            reason: Reason,
            anchor_d: i64,
        | #[trigger] buys_at(a, b, w, asks, t, side, fill, kind, reason, anchor_d);
        buying_keeps_the_books(a, w.shares, side, t + w.delay_ms, fill, kind, reason, anchor_d);
    }
}

/// The part of a fee that falls on `q` shares of a lot is the fee rate on them
/// but for half a rounding step.
proof fn fee_part_is_close(l: Lot, q: int)
    requires
        l.fee == fee_of(l.shares as int, l.fill as int),
        0 < q <= l.shares,
    ensures
        fee_part(l, q) * 100_000_000_000 <= q * fee_share(l.fill as int)
            + 500_000_000_000_000_000_000_000,
{
    let p = fee_price(l.fill as int);
    let fs = fee_share(l.fill as int);
    let s = l.shares as int;
    let unit = 1_000_000_000_000_000_000_000_000int;
    let raw = s * CRYPTO_TAKER_FEE_PERCENT * p * (NANO - p);
    let steps = rounded_quotient(raw, unit);
    assert(raw == s * fs) by (nonlinear_arith)
        requires
            raw == s * CRYPTO_TAKER_FEE_PERCENT * p * (NANO - p),
            fs == CRYPTO_TAKER_FEE_PERCENT * p * (NANO - p),
    ;
    fee_per_share_is_small(p);
    assert(raw >= 0) by (nonlinear_arith)
        requires
            raw == s * fs,
            s > 0,
            fs >= 0,
    ;
    assert(2 * steps * unit <= 2 * raw + unit) by (nonlinear_arith)
        requires
            steps == (2 * raw + unit) / (2 * unit),
            unit > 0,
    ;
    let fee = l.fee as int;
    assert(fee * 100_000_000_000_000_000_000 <= raw + 500_000_000_000_000_000_000_000) by {
        assert(steps * 1_000_000_000_000_000_000_000_000 == steps * unit);
        assert(fee == steps * 10_000);
    }
    let fp = fee_part(l, q);
    assert(fp * s <= fee * 1_000_000_000 * q) by (nonlinear_arith)
        requires
            fp == (fee * 1_000_000_000 * q) / s,
            s > 0,
    ;
    let half = 500_000_000_000_000_000_000_000int;
    assert(fee * 1_000_000_000 * q * 100_000_000_000 <= (raw + half) * q) by (nonlinear_arith)
        requires
            fee * 100_000_000_000_000_000_000 <= raw + half,
            q > 0,
    ;
    assert((raw + half) * q <= s * (q * fs + half)) by (nonlinear_arith)
        requires
            raw == s * fs,
            0 < q <= s,
            half > 0,
    ;
    assert(s * (fp * 100_000_000_000) <= s * (q * fs + half)) by (nonlinear_arith)
        requires
            fp * s <= fee * 1_000_000_000 * q,
            fee * 1_000_000_000 * q * 100_000_000_000 <= (raw + half) * q,
            (raw + half) * q <= s * (q * fs + half),
    ;
    assert(fp * 100_000_000_000 <= q * fs + half) by (nonlinear_arith)
        requires
            s * (fp * 100_000_000_000) <= s * (q * fs + half),
            s > 0,
    ;
}

/// A pair that is let through nets a cent a share but for the rounding of the
/// two fees, and so never loses on a thousandth of a share or more.
pub proof fn gated_pairs_do_not_lose(up: Lot, down: Lot, q: int)
    requires
        up.fee == fee_of(up.shares as int, up.fill as int),
        down.fee == fee_of(down.shares as int, down.fill as int),
        0 < q <= up.shares,
        q <= down.shares,
        pair_earns(up.fill as int, down.fill as int),
    ensures
        pair_net(up, down, q) >= q * CENT - 10_000_000_000_000,
        q >= 1_000_000 ==> pair_net(up, down, q) >= 0,
{
    fee_part_is_close(up, q);
    fee_part_is_close(down, q);
    let gap = NANO - up.fill - down.fill;
    let a = fee_share(up.fill as int);
    let b = fee_share(down.fill as int);
    assert(q * (gap * 100_000_000_000) >= q * (a + b + 10_000_000 * 100_000_000_000))
        by (nonlinear_arith)
        requires
            q > 0,
            gap * 100_000_000_000 >= a + b + 10_000_000 * 100_000_000_000,
    ;
    assert(q * (gap * 100_000_000_000) == (q * gap) * 100_000_000_000) by (nonlinear_arith);
    assert(q * (a + b + 10_000_000 * 100_000_000_000) == q * a + q * b + q * 10_000_000
        * 100_000_000_000) by (nonlinear_arith);
}

/// What pairing appends to the trades: pairs, all at one time, as many as the
/// pairs grow by.
pub proof fn pairing_appends_pairs(s: Sim, t: int)
    ensures
        ({
            let after = paired_up(s, t);
            &&& after.trades.len() - s.trades.len() == after.pairs - s.pairs
            &&& after.trades.len() >= s.trades.len()
            &&& after.next_t == s.next_t
            &&& forall|k: int|
                0 <= k < s.trades.len() ==> #[trigger] after.trades[k] == s.trades[k]
            &&& forall|k: int|
                s.trades.len() <= k < after.trades.len() ==> (#[trigger] after.trades[k]).kind
                    == TradeKind::Pair && after.trades[k].t == t as i64
        }),
    decreases open_count(lot_book(s.lots)),
{
    if can_match(lot_book(s.lots)) {
        pairing_lots_matches_the_book(s, t);
        one_match_closes_a_holding(lot_book(s.lots));
        let next = paired_once(s, t);
        pairing_appends_pairs(next, t);
        let after = paired_up(s, t);
        assert forall|k: int| 0 <= k < s.trades.len() implies #[trigger] after.trades[k]
            == s.trades[k] by {
            assert(after.trades[k] == next.trades[k]);
        }
        assert forall|k: int| s.trades.len() <= k < after.trades.len() implies (
        #[trigger] after.trades[k]).kind == TradeKind::Pair && after.trades[k].t == t as i64 by {
            if k < next.trades.len() {
                assert(after.trades[k] == next.trades[k]);
            }
        }
    }
}

/// Whether a buy keeps to the rules: the size of the order, an ask in range,
/// not beyond what has been seen and not too close to the close.
pub open spec fn buy_in_rules(t: SimTrade, w: Terms) -> bool {
    &&& t.shares == w.shares
    &&& MIN_ASK <= t.fill <= MAX_FILL
    &&& t.t <= w.end_ms
    &&& t.t < w.market_end - NO_FILL_MS
}

/// How long buying waits after a trade.
pub open spec fn wait_after(t: SimTrade) -> int {
    match t.kind {
        TradeKind::Buy => FIRST_COOLDOWN_MS as int,
        TradeKind::Pair => PAIR_COOLDOWN_MS as int,
        _ => 0,
    }
}

/// Whether every buy keeps to the rules and comes after the cooldown of every
/// buy and pair before it and its own delay.
pub open spec fn buys_wait(trades: Seq<SimTrade>, w: Terms) -> bool {
    &&& forall|j: int|
        0 <= j < trades.len() && (#[trigger] trades[j]).kind == TradeKind::Buy ==> buy_in_rules(
            trades[j],
            w,
        )
    &&& forall|i: int, j: int|
        #![trigger trades[i], trades[j]]
        0 <= i < j < trades.len() && trades[j].kind == TradeKind::Buy && (trades[i].kind
            == TradeKind::Buy || trades[i].kind == TradeKind::Pair) ==> trades[j].t
            >= trades[i].t + wait_after(trades[i]) + w.delay_ms
}

/// Whether every buy comes after a time and its own delay.
pub open spec fn buys_start(trades: Seq<SimTrade>, w: Terms, from: int) -> bool {
    forall|j: int|
        0 <= j < trades.len() && (#[trigger] trades[j]).kind == TradeKind::Buy ==> trades[j].t
            >= from + w.delay_ms
}

/// Whether the next trade comes after the start and the cooldown of every buy
/// and pair.
pub open spec fn next_waits(s: Sim, from: int) -> bool {
    &&& s.next_t >= from >= -9_000_000_000_000_000_000
    &&& forall|i: int|
        0 <= i < s.trades.len() && ((#[trigger] s.trades[i]).kind == TradeKind::Buy
            || s.trades[i].kind == TradeKind::Pair) ==> s.trades[i].t + wait_after(s.trades[i])
            <= s.next_t
}

proof fn steps_keep_waiting(a: Sim, b: Sim, w: Terms, asks: Seq<(i64, i64, i64)>, from: int)
    requires
        buys_wait(a.trades, w),
        buys_start(a.trades, w, from),
        next_waits(a, from),
        steps_to(a, b, w, asks),
        w.delay_ms >= 0,
    ensures
        buys_wait(b.trades, w),
        buys_start(b.trades, w, from),
        next_waits(b, from),
{
    if b != a && b != missed(a) {
        let (t, side, fill, kind, reason, anchor_d) = choose|
            t: int,
            side: PositionSide,
            fill: i64,
            kind: ExtKind,
            reason: Reason,
            anchor_d: i64,
        | #[trigger] buys_at(a, b, w, asks, t, side, fill, kind, reason, anchor_d);
        let fill_t = t + w.delay_ms;
        let held = Sim {
            lots: a.lots.push(new_lot(side, w.shares, fill, fill_t, kind, anchor_d)),
            trades: a.trades.push(
                SimTrade {
                    kind: TradeKind::Buy,
                    side,
                    t: fill_t as i64,
                    fill,
                    shares: w.shares,
                    reason,
                    net: 0,
                    anchor_d,
                },
            ),
            ..a
        };
        pairing_appends_pairs(held, fill_t);
        let n = a.trades.len();
        assert(b.trades == paired_up(held, fill_t).trades);
        assert forall|k: int| 0 <= k < n implies #[trigger] b.trades[k] == a.trades[k] by {
            assert(b.trades[k] == held.trades[k]);
        }
        assert(b.trades[n as int] == held.trades[n as int]);
        assert(fill_t as i64 == fill_t);
        assert forall|j: int|
            0 <= j < b.trades.len() && (#[trigger] b.trades[j]).kind
                == TradeKind::Buy implies buy_in_rules(b.trades[j], w) by {
            if j < n {
                assert(b.trades[j] == a.trades[j]);
            }
        }
        assert forall|j: int|
            0 <= j < b.trades.len() && (#[trigger] b.trades[j]).kind
                == TradeKind::Buy implies b.trades[j].t >= from + w.delay_ms by {
            if j < n {
                assert(b.trades[j] == a.trades[j]);
            }
        }
        assert forall|i: int, j: int|
            #![trigger b.trades[i], b.trades[j]]
            0 <= i < j < b.trades.len() && b.trades[j].kind == TradeKind::Buy && (b.trades[i].kind
                == TradeKind::Buy || b.trades[i].kind == TradeKind::Pair) implies b.trades[j].t
            >= b.trades[i].t + wait_after(b.trades[i]) + w.delay_ms by {
            assert(b.trades[i] == a.trades[i]);
            if j < n {
                assert(b.trades[j] == a.trades[j]);
            }
        }
        assert forall|i: int|
            0 <= i < b.trades.len() && ((#[trigger] b.trades[i]).kind == TradeKind::Buy
                || b.trades[i].kind == TradeKind::Pair) implies b.trades[i].t + wait_after(
            b.trades[i],
        ) <= b.next_t by {
            if i < n {
                assert(b.trades[i] == a.trades[i]);
            }
        }
    }
}

/// What selling appends to the trades: no buys and no pairs.
proof fn selling_appends_sales(s: Sim, side: PositionSide, px: int, t: int, by: int, i: int)
    requires
        0 <= i,
    ensures
        appends_only_exits(s, sold_side(s, side, px, t, by, i)),
    decreases s.lots.len() - i,
{
    if i < s.lots.len() {
        let next = if is_for_sale(s.lots[i], side, by) {
            sold_lot(s, i, px, t)
        } else {
            s
        };
        selling_appends_sales(next, side, px, t, by, i + 1);
        exits_add_up(s, next, sold_side(s, side, px, t, by, i));
    }
}

proof fn settling_appends_settlements(
    s: Sim,
    winner: Option<PositionSide>,
    last_ask: (i64, i64, i64),
    t: int,
    i: int,
)
    requires
        0 <= i,
    ensures
        appends_only_exits(s, settled(s, winner, last_ask, t, i)),
        forall|k: int|
            s.trades.len() <= k < settled(s, winner, last_ask, t, i).trades.len() ==> (
            #[trigger] settled(s, winner, last_ask, t, i).trades[k]).kind == TradeKind::Settle,
    decreases s.lots.len() - i,
{
    if i < s.lots.len() {
        let next = if s.lots[i].shares > s.lots[i].paired {
            settled_lot(s, i, winner, last_ask, t)
        } else {
            s
        };
        settling_appends_settlements(next, winner, last_ask, t, i + 1);
        let end = settled(s, winner, last_ask, t, i);
        exits_add_up(s, next, end);
        assert forall|k: int| s.trades.len() <= k < end.trades.len() implies (
        #[trigger] end.trades[k]).kind == TradeKind::Settle by {
            if k < next.trades.len() {
                assert(end.trades[k] == next.trades[k]);
            }
        }
    }
}

/// Whether the trades of a state are those of another and sales and
/// settlements after them.
pub open spec fn appends_only_exits(s: Sim, after: Sim) -> bool {
    &&& after.trades.len() >= s.trades.len()
    &&& after.pairs == s.pairs
    &&& after.missed == s.missed
    &&& forall|k: int| 0 <= k < s.trades.len() ==> #[trigger] after.trades[k] == s.trades[k]
    &&& forall|k: int|
        s.trades.len() <= k < after.trades.len() ==> (#[trigger] after.trades[k]).kind
            == TradeKind::Sell || after.trades[k].kind == TradeKind::Settle
}

proof fn exits_add_up(a: Sim, b: Sim, c: Sim)
    requires
        appends_only_exits(a, b),
        appends_only_exits(b, c),
    ensures
        appends_only_exits(a, c),
{
    assert forall|k: int| 0 <= k < a.trades.len() implies #[trigger] c.trades[k]
        == a.trades[k] by {
        assert(b.trades[k] == a.trades[k]);
    }
    assert forall|k: int| a.trades.len() <= k < c.trades.len() implies (
    #[trigger] c.trades[k]).kind == TradeKind::Sell || c.trades[k].kind == TradeKind::Settle by {
        if k < b.trades.len() {
            assert(b.trades[k] == c.trades[k]);
        }
    }
}

/// The end of a window follows trading by sales and settlements alone.
pub proof fn closing_appends_only_exits(
    s: Sim,
    w: Terms,
    asks: Seq<(i64, i64, i64)>,
    winner: Option<PositionSide>,
)
    ensures
        appends_only_exits(
            s,
            settled(flattened(s, w, asks), winner, asks[asks.len() - 1], w.end_ms - 1, 0),
        ),
{
    let by = w.market_end - EMERGENCY_LEFT_MS;
    let t = by + w.delay_ms;
    let half = flattened_side(s, asks, t, by, PositionSide::Up);
    if let Some(ask) = ask_known(asks, t, PositionSide::Up) {
        selling_appends_sales(s, PositionSide::Up, sell_price(ask as int), t, by, 0);
    }
    if let Some(ask) = ask_known(asks, t, PositionSide::Down) {
        selling_appends_sales(half, PositionSide::Down, sell_price(ask as int), t, by, 0);
    }
    let flat = flattened(s, w, asks);
    exits_add_up(s, half, flattened_side(half, asks, t, by, PositionSide::Down));
    settling_appends_settlements(flat, winner, asks[asks.len() - 1], w.end_ms - 1, 0);
    exits_add_up(
        s,
        flat,
        settled(flat, winner, asks[asks.len() - 1], w.end_ms - 1, 0),
    );
}

/// In every window each buy is of the order's size, fills between 4 and 95
/// cents, within what has been seen and not in the last moments, and comes
/// after the cooldown: 400 milliseconds after a buy, 8 seconds after a pair,
/// and not before the time that the window started with.
pub proof fn buys_keep_to_the_rules(
    s: Sim,
    w: Terms,
    tape: Seq<(i64, i64)>,
    asks: Seq<(i64, i64, i64)>,
    swings: Seq<Swing>,
    ticks: Seq<(i64, i64)>,
    winner: Option<PositionSide>,
)
    requires
        s.trades.len() == 0,
        s.next_t >= -9_000_000_000_000_000_000,
        w.delay_ms >= 0,
    ensures
        buys_wait(played(s, w, tape, asks, swings, ticks, winner).trades, w),
        buys_start(played(s, w, tape, asks, swings, ticks, winner).trades, w, s.next_t),
{
    let keeps = |a: Sim|
        buys_wait(a.trades, w) && buys_start(a.trades, w, s.next_t) && next_waits(a, s.next_t);
    assert forall|a: Sim, b: Sim|
        keeps(a) && !is_done(a) && #[trigger] steps_to(a, b, w, asks) implies keeps(b) by {
        steps_keep_waiting(a, b, w, asks, s.next_t);
    }
    let through = traded_through(s, w, tape, asks, swings, ticks, 0, 0);
    trading_keeps(keeps, s, w, tape, asks, swings, ticks, 0, 0);
    assert(keeps(through));
    closing_appends_only_exits(through, w, asks, winner);
    let end = played(s, w, tape, asks, swings, ticks, winner);
    assert forall|j: int|
        0 <= j < end.trades.len() && (#[trigger] end.trades[j]).kind
            == TradeKind::Buy implies buy_in_rules(end.trades[j], w) && end.trades[j].t
        >= s.next_t + w.delay_ms by {
        assert(end.trades[j] == through.trades[j]);
    }
    assert forall|i: int, j: int|
        #![trigger end.trades[i], end.trades[j]]
        0 <= i < j < end.trades.len() && end.trades[j].kind == TradeKind::Buy && (
        end.trades[i].kind == TradeKind::Buy || end.trades[i].kind
            == TradeKind::Pair) implies end.trades[j].t >= end.trades[i].t + wait_after(
        end.trades[i],
    ) + w.delay_ms by {
        assert(end.trades[j] == through.trades[j]);
        assert(end.trades[i] == through.trades[i]);
    }
}

/// Whether every buy is of the order's size and nets nothing by itself.
pub open spec fn buys_of_size(trades: Seq<SimTrade>, shares: i64) -> bool {
    forall|j: int|
        0 <= j < trades.len() && (#[trigger] trades[j]).kind == TradeKind::Buy ==> trades[j].shares
            == shares && trades[j].net == 0
}

/// Every buy of every window is of the size that is asked for.
pub proof fn every_buy_is_of_the_size(
    s: Sim,
    w: Terms,
    tape: Seq<(i64, i64)>,
    asks: Seq<(i64, i64, i64)>,
    swings: Seq<Swing>,
    ticks: Seq<(i64, i64)>,
    winner: Option<PositionSide>,
)
    requires
        s.trades.len() == 0,
    ensures
        buys_of_size(played(s, w, tape, asks, swings, ticks, winner).trades, w.shares),
{
    let keeps = |a: Sim| buys_of_size(a.trades, w.shares);
    assert forall|a: Sim, b: Sim|
        keeps(a) && !is_done(a) && #[trigger] steps_to(a, b, w, asks) implies keeps(b) by {
        if b != a && b != missed(a) {
            let (t, side, fill, kind, reason, anchor_d) = choose|
                t: int,
                side: PositionSide,
                fill: i64,
                kind: ExtKind,
                reason: Reason,
                anchor_d: i64,
            | #[trigger] buys_at(a, b, w, asks, t, side, fill, kind, reason, anchor_d);
            let fill_t = t + w.delay_ms;
            let held = Sim {
                lots: a.lots.push(new_lot(side, w.shares, fill, fill_t, kind, anchor_d)),
                trades: a.trades.push(
                    SimTrade {
                        kind: TradeKind::Buy,
                        side,
                        t: fill_t as i64,
                        fill,
                        shares: w.shares,
                        reason,
                        net: 0,
                        anchor_d,
                    },
                ),
                ..a
            };
            pairing_appends_pairs(held, fill_t);
            assert forall|j: int|
                0 <= j < b.trades.len() && (#[trigger] b.trades[j]).kind
                    == TradeKind::Buy implies b.trades[j].shares == w.shares && b.trades[j].net
                == 0 by {
                if j < held.trades.len() {
                    assert(b.trades[j] == held.trades[j]);
                    if j < a.trades.len() {
                        assert(held.trades[j] == a.trades[j]);
                    }
                }
            }
        }
    }
    let through = traded_through(s, w, tape, asks, swings, ticks, 0, 0);
    trading_keeps(keeps, s, w, tape, asks, swings, ticks, 0, 0);
    assert(keeps(through));
    closing_appends_only_exits(through, w, asks, winner);
    let end = played(s, w, tape, asks, swings, ticks, winner);
    assert forall|j: int|
        0 <= j < end.trades.len() && (#[trigger] end.trades[j]).kind
            == TradeKind::Buy implies end.trades[j].shares == w.shares && end.trades[j].net == 0 by {
        assert(end.trades[j] == through.trades[j]);
    }
}

/// Whether a lot is whole: of the order's size with its own fee, and open
/// either altogether or not at all.
pub open spec fn lot_whole(l: Lot, w: Terms) -> bool {
    &&& l.shares == w.shares
    &&& l.fee == fee_of(l.shares as int, l.fill as int)
    &&& l.paired == 0 || l.paired == l.shares
}

/// Whether a pair is whole and worth making: its fills come to a cent less than
/// a dollar at least, and it nets a cent a share but for the rounding of the two
/// fees, and never a loss.
pub open spec fn pair_earned(t: SimTrade, w: Terms) -> bool {
    &&& t.shares == w.shares
    &&& t.fill <= NANO - CENT
    &&& t.net >= w.shares * CENT - 10_000_000_000_000
    &&& t.net >= 0
}

/// Whether a state holds one lot at most, all lots are whole, no pair loses and
/// no more pairs are done than allowed.
pub open spec fn one_lot_at_most(s: Sim, w: Terms) -> bool {
    &&& forall|i: int| 0 <= i < s.lots.len() ==> lot_whole(#[trigger] s.lots[i], w)
    &&& forall|i: int, j: int|
        #![trigger s.lots[i], s.lots[j]]
        0 <= i < j < s.lots.len() ==> s.lots[i].paired == s.lots[i].shares || s.lots[j].paired
            == s.lots[j].shares
    &&& forall|k: int|
        0 <= k < s.trades.len() && (#[trigger] s.trades[k]).kind == TradeKind::Pair
            ==> pair_earned(s.trades[k], w)
    &&& s.pairs <= MAX_PAIRS
    &&& any_open(s) ==> s.pairs < MAX_PAIRS
}

/// A valid order's fee fits its type, and is not negative.
pub proof fn fee_fits(shares: int, fill: int)
    requires
        shares_ok(shares),
        shares >= 0,
    ensures
        0 <= fee_of(shares, fill) <= 20_000_000_000_000,
{
    let p = fee_price(fill);
    let unit = 1_000_000_000_000_000_000_000_000int;
    let per = CRYPTO_TAKER_FEE_PERCENT * p * (NANO - p);
    fee_per_share_is_small(p);
    let raw = shares * CRYPTO_TAKER_FEE_PERCENT * p * (NANO - p);
    assert(raw == shares * per) by (nonlinear_arith)
        requires
            raw == shares * CRYPTO_TAKER_FEE_PERCENT * p * (NANO - p),
            per == CRYPTO_TAKER_FEE_PERCENT * p * (NANO - p),
    ;
    assert(0 <= shares * per <= 1_000_000_000_000_000 * 1_750_000_000_000_000_000)
        by (nonlinear_arith)
        requires
            0 <= shares <= 1_000_000_000_000_000,
            0 <= per <= 1_750_000_000_000_000_000,
    ;
    let steps = rounded_quotient(raw, unit);
    assert(0 <= steps <= 2_000_000_000) by (nonlinear_arith)
        requires
            steps == (2 * raw + unit) / (2 * unit),
            unit == 1_000_000_000_000_000_000_000_000,
            0 <= raw <= 1_000_000_000_000_000 * 1_750_000_000_000_000_000,
    ;
}

/// What a book holds that has one open lot at most.
pub proof fn one_open_lot(s: Sim, w: Terms, side: PositionSide)
    requires
        one_lot_at_most(s, w),
        w.shares > 0,
        has_open(lot_book(s.lots), side),
    ensures
        ({
            let f = first_open(lot_book(s.lots), side, 0);
            &&& 0 <= f < s.lots.len()
            &&& s.lots[f].side == side
            &&& s.lots[f].paired == 0
            &&& forall|k: int|
                0 <= k < s.lots.len() && k != f ==> (#[trigger] s.lots[k]).paired
                    == s.lots[k].shares
        }),
{
    let book = lot_book(s.lots);
    let f = first_open(book, side, 0);
    first_open_finds_the_first(book, side, 0);
    assert(book[f] == (s.lots[f].side, s.lots[f].shares - s.lots[f].paired));
    assert(lot_whole(s.lots[f], w));
    assert forall|k: int| 0 <= k < s.lots.len() && k != f implies (#[trigger] s.lots[k]).paired
        == s.lots[k].shares by {
        let l = s.lots[k];
        assert(lot_whole(l, w));
        if k < f {
            assert(l.paired == l.shares || s.lots[f].paired == s.lots[f].shares);
        } else {
            assert(s.lots[f].paired == s.lots[f].shares || l.paired == l.shares);
        }
    }
}

/// A second leg against the one open lot pairs both of them whole.
pub proof fn second_leg_closes(
    s: Sim,
    w: Terms,
    side: PositionSide,
    t: int,
    fill: i64,
    kind: ExtKind,
    reason: Reason,
    anchor_d: i64,
)
    requires
        one_lot_at_most(s, w),
        w.shares >= 1_000_000,
        shares_ok(w.shares as int),
        MIN_ASK <= fill <= MAX_FILL,
        has_open(lot_book(s.lots), side.opposite_spec()),
        pair_earns(
            s.lots[first_open(lot_book(s.lots), side.opposite_spec(), 0)].fill as int,
            fill as int,
        ),
        forall|i: int| 0 <= i < s.lots.len() ==> MIN_ASK <= (#[trigger] s.lots[i]).fill <= MAX_FILL,
    ensures
        one_lot_at_most(bought(s, w.shares, side, t, fill, kind, reason, anchor_d), w),
        !any_open(bought(s, w.shares, side, t, fill, kind, reason, anchor_d)),
        ({
            let after = bought(s, w.shares, side, t, fill, kind, reason, anchor_d);
            let first = s.lots[first_open(lot_book(s.lots), side.opposite_spec(), 0)];
            &&& after.pairs == s.pairs + 1
            &&& after.next_t == t + PAIR_COOLDOWN_MS
            &&& after.lots.len() == s.lots.len() + 1
            &&& after.trades == s.trades.push(
                SimTrade {
                    kind: TradeKind::Buy,
                    side,
                    t: t as i64,
                    fill,
                    shares: w.shares,
                    reason,
                    net: 0,
                    anchor_d,
                },
            ).push(
                SimTrade {
                    kind: TradeKind::Pair,
                    side: PositionSide::Up,
                    t: t as i64,
                    fill: (first.fill + fill) as i64,
                    shares: w.shares,
                    reason: Reason::Pair,
                    net: (w.shares * (NANO - first.fill - fill) - (first.fee + fee_of(
                        w.shares as int,
                        fill as int,
                    )) * NANO) as i128,
                    anchor_d: 0,
                },
            )
        }),
{
    let lot = new_lot(side, w.shares, fill, t, kind, anchor_d);
    fee_fits(w.shares as int, fill as int);
    let held = Sim {
        lots: s.lots.push(lot),
        trades: s.trades.push(
            SimTrade {
                kind: TradeKind::Buy,
                side,
                t: t as i64,
                fill,
                shares: w.shares,
                reason,
                net: 0,
                anchor_d,
            },
        ),
        ..s
    };
    let book = lot_book(held.lots);
    let n = s.lots.len() as int;
    let f = first_open(lot_book(s.lots), side.opposite_spec(), 0);
    one_open_lot(s, w, side.opposite_spec());
    assert forall|k: int| 0 <= k < book.len() implies (#[trigger] book[k]).1 > 0 <==> (k == f || k
        == n) by {
        assert(book[k] == (held.lots[k].side, held.lots[k].shares - held.lots[k].paired));
        if k < n {
            assert(lot_whole(s.lots[k], w));
        }
    }
    assert(book[f].0 == side.opposite_spec() && book[n].0 == side);
    first_open_finds_the_first(book, PositionSide::Up, 0);
    first_open_finds_the_first(book, PositionSide::Down, 0);
    open_means_an_open_holding(book, side);
    open_means_an_open_holding(book, side.opposite_spec());
    let u = first_open(book, PositionSide::Up, 0);
    let d = first_open(book, PositionSide::Down, 0);
    assert(can_match(book));
    assert(side == PositionSide::Up ==> u == n && d == f);
    assert(side == PositionSide::Down ==> d == n && u == f);
    assert(match_size(book) == w.shares) by {
        assert(lot_whole(s.lots[f], w));
    }
    let up = held.lots[u];
    let down = held.lots[d];
    assert(lot_whole(s.lots[f], w));
    assert(pair_earns(up.fill as int, down.fill as int));
    gated_pairs_do_not_lose(up, down, w.shares as int);
    fee_fits(w.shares as int, s.lots[f].fill as int);
    pair_net_fits(up, down, w.shares as int);
    let next = paired_once(held, t);
    pairing_lots_matches_the_book(held, t);
    let closed = lot_book(next.lots);
    assert forall|k: int| 0 <= k < closed.len() implies (#[trigger] closed[k]).1 <= 0 by {
        assert(closed[k] == (next.lots[k].side, next.lots[k].shares - next.lots[k].paired));
        assert(book[k].1 > 0 <==> (k == f || k == n));
    }
    open_means_an_open_holding(closed, PositionSide::Up);
    open_means_an_open_holding(closed, PositionSide::Down);
    assert(!can_match(closed));
    assert(paired_up(next, t) == next);
    assert(paired_up(held, t) == next);
    let after = bought(s, w.shares, side, t, fill, kind, reason, anchor_d);
    assert(after.lots == next.lots && after.trades == next.trades && after.pairs == s.pairs + 1);
    assert forall|i: int| 0 <= i < after.lots.len() implies lot_whole(#[trigger] after.lots[i], w)
        && after.lots[i].paired == after.lots[i].shares by {
        if i < n {
            assert(lot_whole(s.lots[i], w));
        }
    }
    assert forall|k: int|
        0 <= k < after.trades.len() && (#[trigger] after.trades[k]).kind
            == TradeKind::Pair implies pair_earned(after.trades[k], w) by {
        if k < s.trades.len() {
            assert(after.trades[k] == s.trades[k]);
        } else if k == s.trades.len() {
            assert(after.trades[k] == held.trades[k]);
        }
    }
    assert(any_open(s));
    assert(pair_net(up, down, w.shares as int) == w.shares * (NANO - s.lots[f].fill - fill) - (
    s.lots[f].fee + lot.fee) * NANO);
}

/// What a valid pair nets fits its type.
proof fn pair_net_fits(up: Lot, down: Lot, q: int)
    requires
        0 < q <= 1_000_000_000_000_000,
        q == up.shares,
        q == down.shares,
        0 <= up.fee <= 20_000_000_000_000,
        0 <= down.fee <= 20_000_000_000_000,
        MIN_ASK <= up.fill <= MAX_FILL,
        MIN_ASK <= down.fill <= MAX_FILL,
    ensures
        i128::MIN <= pair_net(up, down, q) <= i128::MAX,
        pair_net(up, down, q) == q * (NANO - up.fill - down.fill) - (up.fee + down.fee) * NANO,
{
    let gap = NANO - up.fill - down.fill;
    assert(-1_000_000_000_000_000 * 1_000_000_000 <= q * gap <= 1_000_000_000_000_000
        * 1_000_000_000) by (nonlinear_arith)
        requires
            0 < q <= 1_000_000_000_000_000,
            -1_000_000_000 <= gap <= 1_000_000_000,
    ;
    assert(fee_part(up, q) == up.fee * NANO) by (nonlinear_arith)
        requires
            fee_part(up, q) == (up.fee * NANO * q) / q,
            q > 0,
    ;
    assert(fee_part(down, q) == down.fee * NANO) by (nonlinear_arith)
        requires
            fee_part(down, q) == (down.fee * NANO * q) / q,
            q > 0,
    ;
}

/// A first leg with nothing open leaves one open lot.
pub proof fn first_leg_opens(
    s: Sim,
    w: Terms,
    side: PositionSide,
    t: int,
    fill: i64,
    kind: ExtKind,
    reason: Reason,
    anchor_d: i64,
)
    requires
        one_lot_at_most(s, w),
        w.shares > 0,
        shares_ok(w.shares as int),
        !any_open(s),
        !is_done(s),
    ensures
        one_lot_at_most(bought(s, w.shares, side, t, fill, kind, reason, anchor_d), w),
        bought(s, w.shares, side, t, fill, kind, reason, anchor_d).lots == s.lots.push(
            new_lot(side, w.shares, fill, t, kind, anchor_d),
        ),
        bought(s, w.shares, side, t, fill, kind, reason, anchor_d).trades == s.trades.push(
            SimTrade {
                kind: TradeKind::Buy,
                side,
                t: t as i64,
                fill,
                shares: w.shares,
                reason,
                net: 0,
                anchor_d,
            },
        ),
        bought(s, w.shares, side, t, fill, kind, reason, anchor_d).pairs == s.pairs,
        bought(s, w.shares, side, t, fill, kind, reason, anchor_d).next_t == t + FIRST_COOLDOWN_MS,
        any_open(bought(s, w.shares, side, t, fill, kind, reason, anchor_d)),
{
    let lot = new_lot(side, w.shares, fill, t, kind, anchor_d);
    fee_fits(w.shares as int, fill as int);
    let held = Sim {
        lots: s.lots.push(lot),
        trades: s.trades.push(
            SimTrade {
                kind: TradeKind::Buy,
                side,
                t: t as i64,
                fill,
                shares: w.shares,
                reason,
                net: 0,
                anchor_d,
            },
        ),
        ..s
    };
    let before = lot_book(s.lots);
    let book = lot_book(held.lots);
    open_means_an_open_holding(before, PositionSide::Up);
    open_means_an_open_holding(before, PositionSide::Down);
    open_means_an_open_holding(book, side.opposite_spec());
    assert forall|k: int| 0 <= k < s.lots.len() implies (#[trigger] s.lots[k]).paired
        == s.lots[k].shares by {
        assert(lot_whole(s.lots[k], w));
        assert(before[k] == (s.lots[k].side, s.lots[k].shares - s.lots[k].paired));
    }
    assert forall|k: int| 0 <= k < book.len() && k < s.lots.len() implies (
    #[trigger] book[k]).1 <= 0 by {
        assert(book[k] == (s.lots[k].side, s.lots[k].shares - s.lots[k].paired));
    }
    assert(!has_open(book, side.opposite_spec()));
    assert(!can_match(book));
    assert(paired_up(held, t) == held);
    let after = bought(s, w.shares, side, t, fill, kind, reason, anchor_d);
    assert forall|i: int| 0 <= i < after.lots.len() implies lot_whole(
        #[trigger] after.lots[i],
        w,
    ) by {
        if i < s.lots.len() {
            assert(lot_whole(s.lots[i], w));
        }
    }
    assert forall|k: int|
        0 <= k < after.trades.len() && (#[trigger] after.trades[k]).kind
            == TradeKind::Pair implies pair_earned(after.trades[k], w) by {
        assert(after.trades[k] == s.trades[k]);
    }
    open_means_an_open_holding(book, side);
    assert(book[s.lots.len() as int] == (side, w.shares as int));
}

/// Whether every lot was filled at an ask in range.
pub open spec fn fills_in_range(s: Sim) -> bool {
    forall|i: int| 0 <= i < s.lots.len() ==> MIN_ASK <= (#[trigger] s.lots[i]).fill <= MAX_FILL
}

pub proof fn pairing_keeps_the_fills(s: Sim, t: int)
    requires
        fills_in_range(s),
    ensures
        fills_in_range(paired_up(s, t)),
    decreases open_count(lot_book(s.lots)),
{
    if can_match(lot_book(s.lots)) {
        pairing_lots_matches_the_book(s, t);
        one_match_closes_a_holding(lot_book(s.lots));
        let next = paired_once(s, t);
        first_open_finds_the_first(lot_book(s.lots), PositionSide::Up, 0);
        first_open_finds_the_first(lot_book(s.lots), PositionSide::Down, 0);
        assert forall|i: int| 0 <= i < next.lots.len() implies MIN_ASK <= (
        #[trigger] next.lots[i]).fill <= MAX_FILL by {
            assert(next.lots[i].fill == s.lots[i].fill);
        }
        pairing_keeps_the_fills(next, t);
    }
}

proof fn steps_keep_one_lot(a: Sim, b: Sim, w: Terms, asks: Seq<(i64, i64, i64)>)
    requires
        one_lot_at_most(a, w),
        fills_in_range(a),
        !is_done(a),
        steps_to(a, b, w, asks),
        w.shares >= 1_000_000,
        shares_ok(w.shares as int),
    ensures
        one_lot_at_most(b, w),
        fills_in_range(b),
{
    if b != a && b != missed(a) {
        let (t, side, fill, kind, reason, anchor_d) = choose|
            t: int,
            side: PositionSide,
            fill: i64,
            kind: ExtKind,
            reason: Reason,
            anchor_d: i64,
        | #[trigger] buys_at(a, b, w, asks, t, side, fill, kind, reason, anchor_d);
        let fill_t = t + w.delay_ms;
        if reason.completes_pair() {
            second_leg_closes(a, w, side, fill_t, fill, kind, reason, anchor_d);
        } else {
            first_leg_opens(a, w, side, fill_t, fill, kind, reason, anchor_d);
        }
        let held = Sim {
            lots: a.lots.push(new_lot(side, w.shares, fill, fill_t, kind, anchor_d)),
            trades: a.trades.push(
                SimTrade {
                    kind: TradeKind::Buy,
                    side,
                    t: fill_t as i64,
                    fill,
                    shares: w.shares,
                    reason,
                    net: 0,
                    anchor_d,
                },
            ),
            ..a
        };
        pairing_keeps_the_fills(held, fill_t);
    }
}

/// A window that starts flat never pairs at a loss, makes sixteen pairs at
/// most, and never holds more than one lot: a second leg always pairs the
/// first leg whole.
pub proof fn pairs_never_lose(
    s: Sim,
    w: Terms,
    tape: Seq<(i64, i64)>,
    asks: Seq<(i64, i64, i64)>,
    swings: Seq<Swing>,
    ticks: Seq<(i64, i64)>,
    winner: Option<PositionSide>,
)
    requires
        s.lots.len() == 0,
        s.trades.len() == 0,
        s.pairs == 0,
        w.shares >= 1_000_000,
        shares_ok(w.shares as int),
    ensures
        one_lot_at_most(traded_through(s, w, tape, asks, swings, ticks, 0, 0), w),
        ({
            let end = played(s, w, tape, asks, swings, ticks, winner);
            &&& end.pairs <= MAX_PAIRS
            &&& forall|k: int|
                0 <= k < end.trades.len() && (#[trigger] end.trades[k]).kind == TradeKind::Pair
                    ==> pair_earned(end.trades[k], w)
        }),
{
    let keeps = |a: Sim| one_lot_at_most(a, w) && fills_in_range(a);
    assert forall|a: Sim, b: Sim|
        keeps(a) && !is_done(a) && #[trigger] steps_to(a, b, w, asks) implies keeps(b) by {
        steps_keep_one_lot(a, b, w, asks);
    }
    let through = traded_through(s, w, tape, asks, swings, ticks, 0, 0);
    trading_keeps(keeps, s, w, tape, asks, swings, ticks, 0, 0);
    assert(keeps(through));
    closing_appends_only_exits(through, w, asks, winner);
    let end = played(s, w, tape, asks, swings, ticks, winner);
    assert forall|k: int|
        0 <= k < end.trades.len() && (#[trigger] end.trades[k]).kind
            == TradeKind::Pair implies pair_earned(end.trades[k], w) by {
        assert(end.trades[k] == through.trades[k]);
    }
}

/// A sale takes place at its time, closes only lots that are for sale, and there
/// is one only if a lot is.
proof fn selling_closes_what_is_for_sale(s: Sim, side: PositionSide, px: int, t: int, by: int, i: int)
    requires
        0 <= i,
    ensures
        ({
            let after = sold_side(s, side, px, t, by, i);
            &&& after.lots.len() == s.lots.len()
            &&& forall|l: int|
                0 <= l < s.lots.len() ==> (#[trigger] after.lots[l]).fill_t == s.lots[l].fill_t && (
                after.lots[l] != s.lots[l] ==> is_for_sale(s.lots[l], side, by))
            &&& forall|k: int|
                s.trades.len() <= k < after.trades.len() ==> (#[trigger] after.trades[k]).t == t as i64
            &&& after.trades.len() > s.trades.len() ==> exists|l: int|
                0 <= l < s.lots.len() && is_for_sale(#[trigger] s.lots[l], side, by)
        }),
    decreases s.lots.len() - i,
{
    if i < s.lots.len() {
        let next = if is_for_sale(s.lots[i], side, by) {
            sold_lot(s, i, px, t)
        } else {
            s
        };
        selling_closes_what_is_for_sale(next, side, px, t, by, i + 1);
        selling_appends_sales(next, side, px, t, by, i + 1);
        let after = sold_side(s, side, px, t, by, i);
        assert forall|l: int| 0 <= l < s.lots.len() implies (#[trigger] after.lots[l]).fill_t
            == s.lots[l].fill_t && (after.lots[l] != s.lots[l] ==> is_for_sale(
            s.lots[l],
            side,
            by,
        )) by {
            assert(after.lots[l].fill_t == next.lots[l].fill_t);
            if l != i {
                assert(next.lots[l] == s.lots[l]);
            }
        }
        assert forall|k: int| s.trades.len() <= k < after.trades.len() implies (
        #[trigger] after.trades[k]).t == t as i64 by {
            if k < next.trades.len() {
                assert(after.trades[k] == next.trades[k]);
            }
        }
    }
}

/// What is sold near the close had been filled when the sale was decided, 25
/// seconds before the close, and every sale follows that by the delay.
pub proof fn a_sale_follows_its_fill(s: Sim, w: Terms, asks: Seq<(i64, i64, i64)>)
    ensures
        ({
            let after = flattened(s, w, asks);
            let by = w.market_end - EMERGENCY_LEFT_MS;
            &&& after.lots.len() == s.lots.len()
            &&& after.trades.len() >= s.trades.len()
            &&& forall|l: int|
                0 <= l < s.lots.len() && #[trigger] after.lots[l] != s.lots[l] ==> s.lots[l].fill_t
                    <= by && s.lots[l].shares > s.lots[l].paired
            &&& forall|k: int|
                s.trades.len() <= k < after.trades.len() ==> (#[trigger] after.trades[k]).t == (by
                    + w.delay_ms) as i64
            &&& after.trades.len() > s.trades.len() ==> exists|l: int|
                0 <= l < s.lots.len() && (#[trigger] s.lots[l]).fill_t <= by && s.lots[l].shares
                    > s.lots[l].paired
        }),
{
    let by = w.market_end - EMERGENCY_LEFT_MS;
    let t = by + w.delay_ms;
    let half = flattened_side(s, asks, t, by, PositionSide::Up);
    if let Some(ask) = ask_known(asks, t, PositionSide::Up) {
        let px = sell_price(ask as int);
        selling_closes_what_is_for_sale(s, PositionSide::Up, px, t, by, 0);
        selling_appends_sales(s, PositionSide::Up, px, t, by, 0);
    }
    let whole = flattened_side(half, asks, t, by, PositionSide::Down);
    if let Some(ask) = ask_known(asks, t, PositionSide::Down) {
        let px = sell_price(ask as int);
        selling_closes_what_is_for_sale(half, PositionSide::Down, px, t, by, 0);
        selling_appends_sales(half, PositionSide::Down, px, t, by, 0);
    }
    assert forall|l: int|
        0 <= l < s.lots.len() && #[trigger] whole.lots[l] != s.lots[l] implies s.lots[l].fill_t <= by
        && s.lots[l].shares > s.lots[l].paired by {
        if half.lots[l] != s.lots[l] {
            assert(is_for_sale(s.lots[l], PositionSide::Up, by));
        } else {
            assert(is_for_sale(half.lots[l], PositionSide::Down, by));
        }
    }
    assert forall|k: int| s.trades.len() <= k < whole.trades.len() implies (
    #[trigger] whole.trades[k]).t == t as i64 by {
        if k < half.trades.len() {
            assert(whole.trades[k] == half.trades[k]);
        }
    }
    if whole.trades.len() > s.trades.len() {
        if half.trades.len() > s.trades.len() {
            let l = choose|l: int|
                0 <= l < s.lots.len() && is_for_sale(#[trigger] s.lots[l], PositionSide::Up, by);
            assert(s.lots[l].fill_t <= by);
        } else {
            let l = choose|l: int|
                0 <= l < half.lots.len() && is_for_sale(
                    #[trigger] half.lots[l],
                    PositionSide::Down,
                    by,
                );
            if half.lots[l] != s.lots[l] {
                assert(is_for_sale(s.lots[l], PositionSide::Up, by));
            }
            assert(s.lots[l].fill_t <= by && s.lots[l].shares > s.lots[l].paired);
        }
    }
}

proof fn pairing_keeps_the_fill_times(s: Sim, t: int)
    ensures
        paired_up(s, t).lots.len() == s.lots.len(),
        forall|i: int|
            0 <= i < s.lots.len() ==> (#[trigger] paired_up(s, t).lots[i]).fill_t == s.lots[i].fill_t,
    decreases open_count(lot_book(s.lots)),
{
    if can_match(lot_book(s.lots)) {
        pairing_lots_matches_the_book(s, t);
        one_match_closes_a_holding(lot_book(s.lots));
        first_open_finds_the_first(lot_book(s.lots), PositionSide::Up, 0);
        first_open_finds_the_first(lot_book(s.lots), PositionSide::Down, 0);
        let next = paired_once(s, t);
        pairing_keeps_the_fill_times(next, t);
        assert forall|i: int| 0 <= i < s.lots.len() implies (
        #[trigger] paired_up(s, t).lots[i]).fill_t == s.lots[i].fill_t by {
            assert(next.lots[i].fill_t == s.lots[i].fill_t);
        }
    }
}

/// Whether only the last lot can be open, no buy is later than it, and nothing
/// has been sold or settled.
pub open spec fn last_lot_is_open(s: Sim) -> bool {
    &&& forall|l: int|
        0 <= l < s.lots.len() - 1 ==> (#[trigger] s.lots[l]).shares <= s.lots[l].paired
    &&& forall|j: int|
        0 <= j < s.trades.len() ==> ((#[trigger] s.trades[j]).kind == TradeKind::Pair || (
        s.trades[j].kind == TradeKind::Buy && s.lots.len() > 0 && s.trades[j].t
            <= s.lots.last().fill_t))
}

proof fn steps_keep_the_last_open(
    a: Sim,
    b: Sim,
    w: Terms,
    asks: Seq<(i64, i64, i64)>,
    from: int,
)
    requires
        last_lot_is_open(a),
        one_lot_at_most(a, w),
        fills_in_range(a),
        next_waits(a, from),
        !is_done(a),
        steps_to(a, b, w, asks),
        w.shares >= 1_000_000,
        shares_ok(w.shares as int),
        w.delay_ms >= 0,
    ensures
        last_lot_is_open(b),
{
    if b != a && b != missed(a) {
        let (t, side, fill, kind, reason, anchor_d) = choose|
            t: int,
            side: PositionSide,
            fill: i64,
            kind: ExtKind,
            reason: Reason,
            anchor_d: i64,
        | #[trigger] buys_at(a, b, w, asks, t, side, fill, kind, reason, anchor_d);
        let fill_t = t + w.delay_ms;
        let held = Sim {
            lots: a.lots.push(new_lot(side, w.shares, fill, fill_t, kind, anchor_d)),
            trades: a.trades.push(
                SimTrade {
                    kind: TradeKind::Buy,
                    side,
                    t: fill_t as i64,
                    fill,
                    shares: w.shares,
                    reason,
                    net: 0,
                    anchor_d,
                },
            ),
            ..a
        };
        let n = a.lots.len() as int;
        pairing_appends_pairs(held, fill_t);
        pairing_keeps_the_fill_times(held, fill_t);
        assert(b.lots == paired_up(held, fill_t).lots && b.trades == paired_up(
            held,
            fill_t,
        ).trades);
        assert(b.lots.len() == n + 1);
        assert(b.lots[n].fill_t == held.lots[n].fill_t);
        assert(fill_t as i64 == fill_t);
        if reason.completes_pair() {
            second_leg_closes(a, w, side, fill_t, fill, kind, reason, anchor_d);
            let book = lot_book(b.lots);
            open_means_an_open_holding(book, PositionSide::Up);
            open_means_an_open_holding(book, PositionSide::Down);
            assert forall|l: int| 0 <= l < b.lots.len() - 1 implies (#[trigger] b.lots[l]).shares
                <= b.lots[l].paired by {
                assert(book[l] == (b.lots[l].side, b.lots[l].shares - b.lots[l].paired));
            }
        } else {
            first_leg_opens(a, w, side, fill_t, fill, kind, reason, anchor_d);
            let book = lot_book(a.lots);
            open_means_an_open_holding(book, PositionSide::Up);
            open_means_an_open_holding(book, PositionSide::Down);
            assert forall|l: int| 0 <= l < b.lots.len() - 1 implies (#[trigger] b.lots[l]).shares
                <= b.lots[l].paired by {
                assert(b.lots[l] == a.lots[l]);
                assert(book[l] == (a.lots[l].side, a.lots[l].shares - a.lots[l].paired));
            }
        }
        assert forall|j: int| 0 <= j < b.trades.len() implies ((#[trigger] b.trades[j]).kind
            == TradeKind::Pair || (b.trades[j].kind == TradeKind::Buy && b.lots.len() > 0
            && b.trades[j].t <= b.lots.last().fill_t)) by {
            if j < a.trades.len() {
                assert(b.trades[j] == held.trades[j]);
                assert(held.trades[j] == a.trades[j]);
                assert(a.trades[j].t + wait_after(a.trades[j]) <= a.next_t);
            } else if j == a.trades.len() {
                assert(b.trades[j] == held.trades[j]);
            }
        }
    }
}

/// A window that starts flat sells only what it has bought: no buy before a sale
/// is later than it.
pub proof fn sales_follow_buys(
    s: Sim,
    w: Terms,
    tape: Seq<(i64, i64)>,
    asks: Seq<(i64, i64, i64)>,
    swings: Seq<Swing>,
    ticks: Seq<(i64, i64)>,
    winner: Option<PositionSide>,
)
    requires
        s.lots.len() == 0,
        s.trades.len() == 0,
        s.pairs == 0,
        s.next_t >= -9_000_000_000_000_000_000,
        w.shares >= 1_000_000,
        shares_ok(w.shares as int),
        w.delay_ms >= 0,
        w.market_end - EMERGENCY_LEFT_MS + w.delay_ms <= i64::MAX,
    ensures
        forall|j: int, k: int|
            #![trigger played(s, w, tape, asks, swings, ticks, winner).trades[j],
                played(s, w, tape, asks, swings, ticks, winner).trades[k]]
            ({
                let trades = played(s, w, tape, asks, swings, ticks, winner).trades;
                0 <= j < k < trades.len() && trades[j].kind == TradeKind::Buy && trades[k].kind
                    == TradeKind::Sell ==> trades[j].t <= trades[k].t
            }),
{
    let from = s.next_t;
    let keeps = |a: Sim|
        one_lot_at_most(a, w) && fills_in_range(a) && last_lot_is_open(a) && next_waits(a, from)
            && buys_wait(a.trades, w) && buys_start(a.trades, w, from);
    assert forall|a: Sim, b: Sim|
        keeps(a) && !is_done(a) && #[trigger] steps_to(a, b, w, asks) implies keeps(b) by {
        steps_keep_one_lot(a, b, w, asks);
        steps_keep_waiting(a, b, w, asks, from);
        steps_keep_the_last_open(a, b, w, asks, from);
    }
    let through = traded_through(s, w, tape, asks, swings, ticks, 0, 0);
    trading_keeps(keeps, s, w, tape, asks, swings, ticks, 0, 0);
    assert(keeps(through));
    let flat = flattened(through, w, asks);
    a_sale_follows_its_fill(through, w, asks);
    closing_appends_only_exits(through, w, asks, winner);
    settling_appends_settlements(flat, winner, asks[asks.len() - 1], w.end_ms - 1, 0);
    let end = played(s, w, tape, asks, swings, ticks, winner);
    assert forall|j: int, k: int|
        #![trigger end.trades[j], end.trades[k]]
        0 <= j < k < end.trades.len() && end.trades[j].kind == TradeKind::Buy
            && end.trades[k].kind == TradeKind::Sell implies end.trades[j].t <= end.trades[k].t by {
        if j < through.trades.len() {
            assert(end.trades[j] == through.trades[j]);
        }
        if k < through.trades.len() {
            assert(end.trades[k] == through.trades[k]);
        } else if k < flat.trades.len() {
            assert(end.trades[k] == flat.trades[k]);
        }
        let by = w.market_end - EMERGENCY_LEFT_MS;
        let l = choose|l: int|
            0 <= l < through.lots.len() && (#[trigger] through.lots[l]).fill_t <= by
                && through.lots[l].shares > through.lots[l].paired;
        assert(l == through.lots.len() - 1);
        assert(through.trades[j].t <= through.lots.last().fill_t);
        assert((by + w.delay_ms) as i64 == by + w.delay_ms);
    }
}

} // verus!
