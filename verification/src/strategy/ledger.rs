//! The trades of a window that starts from nothing, one after the other.
//!
//! They come in rounds: a first leg, a second leg of the other token, and the
//! pair that the two make.  A first leg that no second one follows is sold near
//! the close or settles.
use vstd::prelude::*;
use crate::fifo::{first_open, has_open, open_means_an_open_holding};
use crate::pnl::{fee_of, fee_price};
use crate::units::{time_ok, NANO};
use super::sides::PositionSide;
use super::sim::{
    any_open, bought, fee_part, fill_of, flattened, flattened_side, is_done, is_for_sale, lot_book,
    missed, new_lot, on_swing, on_tick, pair_earns, played, second_leg, sell_price, settled,
    settled_lot, sold_lot, sold_side, swing_is_next, terms_ok, traded_through, Anchor, Lot, Sim,
    Terms,
};
use super::sim_laws::{
    fee_fits, fills_in_range, first_leg_opens, one_lot_at_most, one_open_lot,
    pairing_keeps_the_fills, second_leg_closes,
};
use super::swings::{ExtKind, Swing};
use super::tape::{ask_known, price_known};
use super::trades::{Reason, SimTrade, TradeKind};

verus! {

/// Whether a buy is of the order's size, at the ask known at its time, between 4
/// and 95 cents, within what has been seen and 600 milliseconds before the close.
pub open spec fn bought_in_time(tr: SimTrade, w: Terms, asks: Seq<(i64, i64, i64)>) -> bool {
    &&& tr.kind == TradeKind::Buy
    &&& tr.shares == w.shares
    &&& tr.net == 0
    &&& tr.t <= w.end_ms
    &&& tr.t < w.market_end - 600
    &&& 40_000_000 <= tr.fill <= 950_000_000
    &&& ask_known(asks, tr.t as int, tr.side) == Some(tr.fill)
}

/// Whether a swing is one to open a position at: ten seconds before the close,
/// 45 if a pair has been made, at an ask from 12 to 78 cents; and UP above 20
/// cents not more than 75 dollars below, nor below after a fall of 55 dollars in
/// twelve seconds.
pub open spec fn opens_a_position(
    sw: Swing,
    w: Terms,
    tape: Seq<(i64, i64)>,
    again: bool,
) -> bool {
    &&& w.market_end - sw.t >= 10_000
    &&& again ==> w.market_end - sw.t >= 45_000
    &&& 120_000_000 <= sw.ask <= 780_000_000
    &&& sw.side == PositionSide::Up && sw.ask > 200_000_000 ==> {
        &&& sw.d >= -75_000_000_000
        &&& sw.d < 0 && price_known(tape, sw.t as int) is Some && price_known(
            tape,
            sw.t - 12_000,
        ) is Some ==> price_known(tape, sw.t - 12_000)->0 - price_known(tape, sw.t as int)->0
            < 55_000_000_000
    }
}

/// Whether a first leg is still wanted at its fill: from 4 to 82 cents, and UP
/// above 20 cents not while bitcoin is more than 75 dollars below.
pub open spec fn fill_is_wanted(sw: Swing, w: Terms, tape: Seq<(i64, i64)>, fill: int) -> bool {
    &&& 40_000_000 <= fill <= 820_000_000
    &&& sw.side == PositionSide::Up && fill > 200_000_000 && price_known(
        tape,
        sw.t + w.delay_ms,
    ) is Some ==> price_known(tape, sw.t + w.delay_ms)->0 >= -75_000_000_000
}

/// Whether a buy is the first leg that a swing signals.
pub open spec fn is_signalled_by(
    tr: SimTrade,
    w: Terms,
    tape: Seq<(i64, i64)>,
    sw: Swing,
    again: bool,
) -> bool {
    &&& tr.t == sw.t + w.delay_ms
    &&& tr.side == sw.side
    &&& tr.anchor_d == sw.d
    &&& opens_a_position(sw, w, tape, again)
    &&& fill_is_wanted(sw, w, tape, tr.fill as int)
}

/// Whether a trade is a first leg: DOWN at a peak, UP at a trough, as a swing
/// signals it.
pub open spec fn is_first_leg(
    tr: SimTrade,
    w: Terms,
    tape: Seq<(i64, i64)>,
    asks: Seq<(i64, i64, i64)>,
    swings: Seq<Swing>,
    again: bool,
) -> bool {
    &&& bought_in_time(tr, w, asks)
    &&& tr.side == PositionSide::Down ==> tr.reason == Reason::SwingPeak
    &&& tr.side == PositionSide::Up ==> tr.reason == Reason::SwingTrough
    &&& exists|k: int|
        0 <= k < swings.len() && is_signalled_by(tr, w, tape, #[trigger] swings[k], again)
}

/// Whether a pair bought at two prices earns something: a dollar is more than
/// both, seven hundredths of `p (1 - p)` of each, and a cent for the delay.
pub open spec fn pays(a: int, b: int) -> bool {
    (990_000_000 - a - b) * 100_000_000_000 >= 7 * a * (1_000_000_000 - a) + 7 * b * (1_000_000_000
        - b)
}

/// Whether a signal at `t` leaves a second leg against `first` room: its ask is
/// from 4 cents to the limit, and the pair pays.
pub open spec fn leaves_room(
    first: SimTrade,
    asks: Seq<(i64, i64, i64)>,
    t: int,
    side: PositionSide,
    limit: int,
) -> bool {
    ask_known(asks, t, side) matches Some(a) && 40_000_000 <= a <= limit && pays(
        first.fill as int,
        a as int,
    )
}

/// Whether a trade is a second leg: the other token than the first leg's, on a
/// swing of its own or, for UP, on a fall of 30 dollars from where DOWN was
/// bought; 0.4 seconds after the first leg at least, with the pair paying at the
/// signal and at the fill.
pub open spec fn is_second_leg(
    first: SimTrade,
    tr: SimTrade,
    w: Terms,
    asks: Seq<(i64, i64, i64)>,
    swings: Seq<Swing>,
    ticks: Seq<(i64, i64)>,
) -> bool {
    let signal = tr.t - w.delay_ms;
    &&& bought_in_time(tr, w, asks)
    &&& tr.side != first.side
    &&& tr.anchor_d == first.anchor_d
    &&& signal >= first.t + 400
    &&& pays(first.fill as int, tr.fill as int)
    &&& match tr.reason {
        Reason::EarlyOpposite => {
            &&& tr.side == PositionSide::Up
            &&& leaves_room(first, asks, signal, tr.side, 880_000_000)
            &&& exists|k: int|
                0 <= k < ticks.len() && (#[trigger] ticks[k]).0 == signal && ticks[k].1
                    <= first.anchor_d - 30_000_000_000
        },
        Reason::SwingPeakSecond => {
            &&& tr.side == PositionSide::Down
            &&& leaves_room(first, asks, signal, tr.side, 760_000_000)
            &&& exists|k: int|
                0 <= k < swings.len() && (#[trigger] swings[k]).t == signal && swings[k].side
                    == tr.side
        },
        Reason::SwingTroughSecond => {
            &&& tr.side == PositionSide::Up
            &&& leaves_room(first, asks, signal, tr.side, 760_000_000)
            &&& exists|k: int|
                0 <= k < swings.len() && (#[trigger] swings[k]).t == signal && swings[k].side
                    == tr.side
        },
        _ => false,
    }
}

/// Whether a trade is the pair of two legs: all of both, when the second one is
/// filled; a dollar a share less what both cost and both fees.
pub open spec fn is_pair_of(first: SimTrade, second: SimTrade, tr: SimTrade, w: Terms) -> bool {
    &&& tr.kind == TradeKind::Pair
    &&& tr.reason == Reason::Pair
    &&& tr.side == PositionSide::Up
    &&& tr.t == second.t
    &&& tr.shares == w.shares
    &&& tr.fill == first.fill + second.fill
    &&& tr.net == w.shares * (1_000_000_000 - first.fill - second.fill) - (fee_of(
        w.shares as int,
        first.fill as int,
    ) + fee_of(w.shares as int, second.fill as int)) * 1_000_000_000
}

/// Whether a first leg is sold near the close: the sale is decided 25 seconds
/// before it, once that has been seen and the leg has been filled by then, at the
/// ask known when the delay is over, more than 400 milliseconds before the close.
pub open spec fn is_sold(first: SimTrade, w: Terms, asks: Seq<(i64, i64, i64)>) -> bool {
    &&& w.market_end - 25_000 > w.open_ms
    &&& w.end_ms >= w.market_end - 25_000
    &&& w.delay_ms < 24_600
    &&& first.t <= w.market_end - 25_000
    &&& ask_known(asks, w.market_end - 25_000 + w.delay_ms, first.side) is Some
}

/// Whether a trade is the sale of a first leg: a cent below its ask, a cent at
/// least; what it fetches less what was paid and both fees.
pub open spec fn is_sale_of(
    first: SimTrade,
    tr: SimTrade,
    w: Terms,
    asks: Seq<(i64, i64, i64)>,
) -> bool {
    let ask = ask_known(asks, w.market_end - 25_000 + w.delay_ms, first.side)->0;
    &&& tr.kind == TradeKind::Sell
    &&& tr.reason == Reason::Flatten
    &&& tr.side == first.side
    &&& tr.t == w.market_end - 25_000 + w.delay_ms
    &&& tr.shares == w.shares
    &&& ask >= 20_000_000 ==> tr.fill == ask - 10_000_000
    &&& ask < 20_000_000 ==> tr.fill == 10_000_000
    &&& tr.net == w.shares * (tr.fill - first.fill) - (fee_of(w.shares as int, first.fill as int)
        + fee_of(w.shares as int, tr.fill as int)) * 1_000_000_000
}

/// Whether a trade is the settlement of a first leg: a dollar a share if its side
/// won, nothing if it lost, its last ask if that is not known, less what was paid
/// and its fee.
pub open spec fn is_settlement_of(
    first: SimTrade,
    tr: SimTrade,
    w: Terms,
    asks: Seq<(i64, i64, i64)>,
    winner: Option<PositionSide>,
) -> bool {
    let last = asks[asks.len() - 1];
    let worth = if winner == Some(first.side) {
        1_000_000_000
    } else if winner is Some {
        0
    } else if first.side == PositionSide::Up {
        last.1 as int
    } else {
        last.2 as int
    };
    &&& tr.kind == TradeKind::Settle
    &&& tr.reason == Reason::Settle
    &&& tr.side == first.side
    &&& tr.t == w.end_ms - 1
    &&& tr.fill == first.fill
    &&& tr.shares == w.shares
    &&& tr.net == w.shares * (worth - first.fill) - fee_of(w.shares as int, first.fill as int)
        * 1_000_000_000
}

/// Whether the trade at `k` has its place in a round: a first leg, eight seconds
/// after the round before it at least; its second leg; or their pair.
pub open spec fn has_its_place(
    trades: Seq<SimTrade>,
    k: int,
    w: Terms,
    tape: Seq<(i64, i64)>,
    asks: Seq<(i64, i64, i64)>,
    swings: Seq<Swing>,
    ticks: Seq<(i64, i64)>,
) -> bool {
    if k % 3 == 0 {
        &&& is_first_leg(trades[k], w, tape, asks, swings, k > 0)
        &&& k > 0 ==> trades[k].t >= trades[k - 1].t + 8_000 + w.delay_ms
    } else if k % 3 == 1 {
        is_second_leg(trades[k - 1], trades[k], w, asks, swings, ticks)
    } else {
        is_pair_of(trades[k - 2], trades[k - 1], trades[k], w)
    }
}

/// Whether trades are rounds, the last of which may have its first leg only.
pub open spec fn are_rounds(
    trades: Seq<SimTrade>,
    w: Terms,
    tape: Seq<(i64, i64)>,
    asks: Seq<(i64, i64, i64)>,
    swings: Seq<Swing>,
    ticks: Seq<(i64, i64)>,
) -> bool {
    &&& trades.len() % 3 != 2
    &&& forall|k: int|
        0 <= k < trades.len() ==> #[trigger] has_its_place(
            trades,
            k,
            w,
            tape,
            asks,
            swings,
            ticks,
        )
}

/// Whether trades are those of a whole window: sixteen rounds at most, and after
/// the first leg of a last one its sale or its settlement.
pub open spec fn is_ledger(
    trades: Seq<SimTrade>,
    w: Terms,
    tape: Seq<(i64, i64)>,
    asks: Seq<(i64, i64, i64)>,
    swings: Seq<Swing>,
    ticks: Seq<(i64, i64)>,
    winner: Option<PositionSide>,
) -> bool {
    if trades.len() % 3 == 2 {
        let first = trades[trades.len() - 2];
        let last = trades[trades.len() - 1];
        &&& trades.len() <= 47
        &&& are_rounds(trades.drop_last(), w, tape, asks, swings, ticks)
        &&& is_sold(first, w, asks) ==> is_sale_of(first, last, w, asks)
        &&& !is_sold(first, w, asks) ==> is_settlement_of(first, last, w, asks, winner)
    } else {
        &&& trades.len() <= 48
        &&& trades.len() % 3 == 0
        &&& are_rounds(trades, w, tape, asks, swings, ticks)
    }
}

/// Whether a state is what its trades say: the last first leg is open if no second
/// one has followed, and the next trade waits for the cooldown.
spec fn tells_its_trades(
    s: Sim,
    w: Terms,
    tape: Seq<(i64, i64)>,
    asks: Seq<(i64, i64, i64)>,
    swings: Seq<Swing>,
    ticks: Seq<(i64, i64)>,
) -> bool {
    &&& one_lot_at_most(s, w)
    &&& fills_in_range(s)
    &&& are_rounds(s.trades, w, tape, asks, swings, ticks)
    &&& any_open(s) == (s.trades.len() % 3 == 1)
    &&& s.pairs == s.trades.len() as int / 3
    &&& s.trades.len() > 0 && !any_open(s) ==> s.next_t == s.trades.last().t + 8_000
    &&& any_open(s) ==> {
        let tr = s.trades.last();
        let l = s.lots.last();
        &&& s.next_t == tr.t + 400
        &&& s.lots.len() > 0
        &&& l.side == tr.side
        &&& l.shares == w.shares
        &&& l.fill == tr.fill
        &&& l.fill_t == tr.t
        &&& l.fee == fee_of(w.shares as int, tr.fill as int)
        &&& l.paired == 0
        &&& l.anchor_d == tr.anchor_d
        &&& s.anchor == Some(
            Anchor {
                t: tr.t,
                d: tr.anchor_d,
                side: tr.side,
                kind: if tr.side == PositionSide::Up {
                    ExtKind::Trough
                } else {
                    ExtKind::Peak
                },
            },
        )
    }
}

/// Whether what is played can be: a window of valid terms, and swings and ticks in
/// it that are signals for the tokens of their kind.
pub open spec fn can_be_played(w: Terms, swings: Seq<Swing>, ticks: Seq<(i64, i64)>) -> bool {
    &&& terms_ok(w)
    &&& w.delay_ms >= 0
    &&& w.shares >= 1_000_000
    &&& forall|k: int|
        0 <= k < swings.len() ==> time_ok((#[trigger] swings[k]).t as int) && (swings[k].side
            == PositionSide::Up <==> swings[k].kind == ExtKind::Trough)
    &&& forall|k: int| 0 <= k < ticks.len() ==> time_ok((#[trigger] ticks[k]).0 as int)
}

/// A pair earns if and only if it pays.
pub proof fn a_pair_that_earns_pays(a: int, b: int)
    requires
        10_000_000 <= a <= 990_000_000,
        10_000_000 <= b <= 990_000_000,
    ensures
        pair_earns(a, b) == pays(a, b),
{
    assert(fee_price(a) == a);
    assert(fee_price(b) == b);
}

/// What so many shares come to, and their fees, fit their types.
proof fn cash_fits(q: int, x: int, fees: int)
    requires
        0 <= q <= 1_000_000_000_000_000,
        -3_000_000_000 <= x <= 3_000_000_000,
        0 <= fees <= 40_000_000_000_000,
    ensures
        i128::MIN <= q * x - fees * 1_000_000_000 <= i128::MAX,
{
    assert(-3_000_000_000 * 1_000_000_000_000_000 <= q * x <= 3_000_000_000 * 1_000_000_000_000_000)
        by (nonlinear_arith)
        requires
            0 <= q <= 1_000_000_000_000_000,
            -3_000_000_000 <= x <= 3_000_000_000,
    ;
}

proof fn a_first_leg_is_added(
    trades: Seq<SimTrade>,
    tr: SimTrade,
    w: Terms,
    tape: Seq<(i64, i64)>,
    asks: Seq<(i64, i64, i64)>,
    swings: Seq<Swing>,
    ticks: Seq<(i64, i64)>,
)
    requires
        are_rounds(trades, w, tape, asks, swings, ticks),
        trades.len() % 3 == 0,
        is_first_leg(tr, w, tape, asks, swings, trades.len() > 0),
        trades.len() > 0 ==> tr.t >= trades.last().t + 8_000 + w.delay_ms,
    ensures
        are_rounds(trades.push(tr), w, tape, asks, swings, ticks),
{
    let all = trades.push(tr);
    let n = trades.len() as int;
    assert forall|k: int| 0 <= k < all.len() implies #[trigger] has_its_place(
        all,
        k,
        w,
        tape,
        asks,
        swings,
        ticks,
    ) by {
        if k < n {
            assert(has_its_place(trades, k, w, tape, asks, swings, ticks));
        }
    }
}

proof fn a_round_is_completed(
    trades: Seq<SimTrade>,
    second: SimTrade,
    pair: SimTrade,
    w: Terms,
    tape: Seq<(i64, i64)>,
    asks: Seq<(i64, i64, i64)>,
    swings: Seq<Swing>,
    ticks: Seq<(i64, i64)>,
)
    requires
        are_rounds(trades, w, tape, asks, swings, ticks),
        trades.len() % 3 == 1,
        is_second_leg(trades.last(), second, w, asks, swings, ticks),
        is_pair_of(trades.last(), second, pair, w),
    ensures
        are_rounds(trades.push(second).push(pair), w, tape, asks, swings, ticks),
{
    let all = trades.push(second).push(pair);
    let n = trades.len() as int;
    assert forall|k: int| 0 <= k < all.len() implies #[trigger] has_its_place(
        all,
        k,
        w,
        tape,
        asks,
        swings,
        ticks,
    ) by {
        if k < n {
            assert(has_its_place(trades, k, w, tape, asks, swings, ticks));
        }
    }
}

/// The open lot of a state is the last one.
proof fn the_open_lot_is_the_last(
    s: Sim,
    w: Terms,
    tape: Seq<(i64, i64)>,
    asks: Seq<(i64, i64, i64)>,
    swings: Seq<Swing>,
    ticks: Seq<(i64, i64)>,
    side: PositionSide,
)
    requires
        tells_its_trades(s, w, tape, asks, swings, ticks),
        w.shares > 0,
        has_open(lot_book(s.lots), side),
    ensures
        any_open(s),
        first_open(lot_book(s.lots), side, 0) == s.lots.len() - 1,
        s.trades.last().side == side,
{
    one_open_lot(s, w, side);
    let f = first_open(lot_book(s.lots), side, 0);
    if f != s.lots.len() - 1 {
        assert(s.lots[s.lots.len() - 1].paired == s.lots[s.lots.len() - 1].shares);
    }
}

/// A second leg that is bought completes a round.
proof fn a_second_leg_is_written(
    s: Sim,
    w: Terms,
    tape: Seq<(i64, i64)>,
    asks: Seq<(i64, i64, i64)>,
    swings: Seq<Swing>,
    ticks: Seq<(i64, i64)>,
    t: int,
    side: PositionSide,
    kind: ExtKind,
    reason: Reason,
)
    requires
        tells_its_trades(s, w, tape, asks, swings, ticks),
        can_be_played(w, swings, ticks),
        time_ok(t),
        t >= s.next_t,
        reason == Reason::EarlyOpposite ==> side == PositionSide::Up && s.anchor is Some
            && exists|k: int|
            0 <= k < ticks.len() && (#[trigger] ticks[k]).0 == t && ticks[k].1 <= s.anchor->0.d
                - 30_000_000_000,
        reason == Reason::SwingPeakSecond ==> side == PositionSide::Down,
        reason == Reason::SwingTroughSecond ==> side == PositionSide::Up,
        reason == Reason::SwingPeakSecond || reason == Reason::SwingTroughSecond ==> exists|k: int|
            0 <= k < swings.len() && (#[trigger] swings[k]).t == t && swings[k].side == side,
        reason.completes_pair(),
    ensures
        tells_its_trades(
            second_leg(s, w, asks, t, side, kind, reason),
            w,
            tape,
            asks,
            swings,
            ticks,
        ),
{
    let after = second_leg(s, w, asks, t, side, kind, reason);
    if after != s && after != missed(s) {
        let opposite = side.opposite_spec();
        the_open_lot_is_the_last(s, w, tape, asks, swings, ticks, opposite);
        let first = s.lots.last();
        let tr = s.trades.last();
        let fill = fill_of(w, asks, t, side)->0;
        let ask = ask_known(asks, t, side)->0;
        let fill_t = t + w.delay_ms;
        a_pair_that_earns_pays(first.fill as int, ask as int);
        a_pair_that_earns_pays(first.fill as int, fill as int);
        second_leg_closes(s, w, side, fill_t, fill, kind, reason, first.anchor_d);
        fee_fits(w.shares as int, first.fill as int);
        fee_fits(w.shares as int, fill as int);
        cash_fits(
            w.shares as int,
            NANO - first.fill - fill,
            first.fee + fee_of(w.shares as int, fill as int),
        );
        let second = SimTrade {
            kind: TradeKind::Buy,
            side,
            t: fill_t as i64,
            fill,
            shares: w.shares,
            reason,
            net: 0,
            anchor_d: first.anchor_d,
        };
        let pair = after.trades.last();
        assert(after.trades == s.trades.push(second).push(pair));
        assert(is_second_leg(tr, second, w, asks, swings, ticks));
        assert(is_pair_of(tr, second, pair, w));
        a_round_is_completed(s.trades, second, pair, w, tape, asks, swings, ticks);
        let held = Sim {
            lots: s.lots.push(new_lot(side, w.shares, fill, fill_t, kind, first.anchor_d)),
            trades: s.trades.push(second),
            ..s
        };
        pairing_keeps_the_fills(held, fill_t);
    }
}

/// What a swing leads to is written down.
proof fn a_swing_is_written(
    s: Sim,
    w: Terms,
    tape: Seq<(i64, i64)>,
    asks: Seq<(i64, i64, i64)>,
    swings: Seq<Swing>,
    ticks: Seq<(i64, i64)>,
    i: int,
)
    requires
        tells_its_trades(s, w, tape, asks, swings, ticks),
        can_be_played(w, swings, ticks),
        !is_done(s),
        0 <= i < swings.len(),
    ensures
        tells_its_trades(
            on_swing(s, w, tape, asks, swings[i]),
            w,
            tape,
            asks,
            swings,
            ticks,
        ),
{
    let sw = swings[i];
    let after = on_swing(s, w, tape, asks, sw);
    if sw.t < s.next_t {
    } else if has_open(lot_book(s.lots), sw.side.opposite_spec()) {
        let reason = match sw.kind {
            ExtKind::Peak => Reason::SwingPeakSecond,
            ExtKind::Trough => Reason::SwingTroughSecond,
        };
        a_second_leg_is_written(
            s,
            w,
            tape,
            asks,
            swings,
            ticks,
            sw.t as int,
            sw.side,
            sw.kind,
            reason,
        );
    } else if after != s && after != missed(s) {
        let reason = match sw.kind {
            ExtKind::Peak => Reason::SwingPeak,
            ExtKind::Trough => Reason::SwingTrough,
        };
        let fill = fill_of(w, asks, sw.t as int, sw.side)->0;
        let fill_t = sw.t + w.delay_ms;
        first_leg_opens(s, w, sw.side, fill_t, fill, sw.kind, reason, sw.d);
        fee_fits(w.shares as int, fill as int);
        let tr = SimTrade {
            kind: TradeKind::Buy,
            side: sw.side,
            t: fill_t as i64,
            fill,
            shares: w.shares,
            reason,
            net: 0,
            anchor_d: sw.d,
        };
        assert(after.trades == s.trades.push(tr));
        assert(is_signalled_by(tr, w, tape, swings[i], s.trades.len() > 0));
        assert(is_first_leg(tr, w, tape, asks, swings, s.trades.len() > 0));
        a_first_leg_is_added(s.trades, tr, w, tape, asks, swings, ticks);
        assert(after.lots.last() == new_lot(sw.side, w.shares, fill, fill_t, sw.kind, sw.d));
        assert(after.trades.last() == tr);
        assert forall|k: int| 0 <= k < after.lots.len() implies super::swings::MIN_ASK <= (
        #[trigger] after.lots[k]).fill <= super::sim::MAX_FILL by {
            if k < s.lots.len() {
                assert(after.lots[k] == s.lots[k]);
            }
        }
    }
}

/// What a tick leads to is written down.
proof fn a_tick_is_written(
    s: Sim,
    w: Terms,
    tape: Seq<(i64, i64)>,
    asks: Seq<(i64, i64, i64)>,
    swings: Seq<Swing>,
    ticks: Seq<(i64, i64)>,
    j: int,
)
    requires
        tells_its_trades(s, w, tape, asks, swings, ticks),
        can_be_played(w, swings, ticks),
        0 <= j < ticks.len(),
    ensures
        tells_its_trades(
            on_tick(s, w, asks, ticks[j].0 as int, ticks[j].1 as int),
            w,
            tape,
            asks,
            swings,
            ticks,
        ),
{
    let t = ticks[j].0 as int;
    let after = on_tick(s, w, asks, t, ticks[j].1 as int);
    if after != s {
        a_second_leg_is_written(
            s,
            w,
            tape,
            asks,
            swings,
            ticks,
            t,
            PositionSide::Up,
            ExtKind::Trough,
            Reason::EarlyOpposite,
        );
    }
}

proof fn trading_is_written(
    s: Sim,
    w: Terms,
    tape: Seq<(i64, i64)>,
    asks: Seq<(i64, i64, i64)>,
    swings: Seq<Swing>,
    ticks: Seq<(i64, i64)>,
    i: int,
    j: int,
)
    requires
        tells_its_trades(s, w, tape, asks, swings, ticks),
        can_be_played(w, swings, ticks),
    ensures
        tells_its_trades(
            traded_through(s, w, tape, asks, swings, ticks, i, j),
            w,
            tape,
            asks,
            swings,
            ticks,
        ),
    decreases swings.len() - i + ticks.len() - j,
{
    if i < 0 || j < 0 || (i >= swings.len() && j >= ticks.len()) || i > swings.len() || j
        > ticks.len() || is_done(s) {
    } else if swing_is_next(swings, ticks, i, j) {
        a_swing_is_written(s, w, tape, asks, swings, ticks, i);
        let next = on_swing(s, w, tape, asks, swings[i]);
        trading_is_written(next, w, tape, asks, swings, ticks, i + 1, j);
    } else {
        a_tick_is_written(s, w, tape, asks, swings, ticks, j);
        let next = on_tick(s, w, asks, ticks[j].0 as int, ticks[j].1 as int);
        trading_is_written(next, w, tape, asks, swings, ticks, i, j + 1);
    }
}

/// A sale concerns the one open lot, if it is for sale.
proof fn one_lot_is_sold(s: Sim, side: PositionSide, px: int, t: int, by: int, i: int)
    requires
        0 <= i < s.lots.len(),
        forall|l: int| 0 <= l < s.lots.len() - 1 ==> (#[trigger] s.lots[l]).shares <= s.lots[l].paired,
    ensures
        sold_side(s, side, px, t, by, i) == (if is_for_sale(s.lots.last(), side, by) {
            sold_lot(s, s.lots.len() - 1, px, t)
        } else {
            s
        }),
    decreases s.lots.len() - i,
{
    reveal_with_fuel(sold_side, 3);
    if i < s.lots.len() - 1 {
        assert(s.lots[i].shares <= s.lots[i].paired);
        one_lot_is_sold(s, side, px, t, by, i + 1);
    }
}

proof fn nothing_is_sold(s: Sim, side: PositionSide, px: int, t: int, by: int, i: int)
    requires
        0 <= i,
        forall|l: int| 0 <= l < s.lots.len() ==> (#[trigger] s.lots[l]).shares <= s.lots[l].paired,
    ensures
        sold_side(s, side, px, t, by, i) == s,
    decreases s.lots.len() - i,
{
    if i < s.lots.len() {
        assert(s.lots[i].shares <= s.lots[i].paired);
        nothing_is_sold(s, side, px, t, by, i + 1);
    }
}

/// A settlement concerns the one open lot.
proof fn one_lot_is_settled(
    s: Sim,
    winner: Option<PositionSide>,
    last: (i64, i64, i64),
    t: int,
    i: int,
)
    requires
        0 <= i < s.lots.len(),
        forall|l: int| 0 <= l < s.lots.len() - 1 ==> (#[trigger] s.lots[l]).shares <= s.lots[l].paired,
        s.lots.last().shares > s.lots.last().paired,
    ensures
        settled(s, winner, last, t, i) == settled_lot(s, s.lots.len() - 1, winner, last, t),
    decreases s.lots.len() - i,
{
    reveal_with_fuel(settled, 3);
    if i < s.lots.len() - 1 {
        assert(s.lots[i].shares <= s.lots[i].paired);
        one_lot_is_settled(s, winner, last, t, i + 1);
    }
}

proof fn nothing_is_settled(
    s: Sim,
    winner: Option<PositionSide>,
    last: (i64, i64, i64),
    t: int,
    i: int,
)
    requires
        0 <= i,
        forall|l: int| 0 <= l < s.lots.len() ==> (#[trigger] s.lots[l]).shares <= s.lots[l].paired,
    ensures
        settled(s, winner, last, t, i) == s,
    decreases s.lots.len() - i,
{
    if i < s.lots.len() {
        assert(s.lots[i].shares <= s.lots[i].paired);
        nothing_is_settled(s, winner, last, t, i + 1);
    }
}

/// The whole fee falls on a whole lot.
proof fn the_whole_fee(l: Lot)
    requires
        l.shares > 0,
    ensures
        fee_part(l, l.shares as int) == l.fee * 1_000_000_000,
{
    let q = l.shares as int;
    assert(l.fee * 1_000_000_000 * q / q == l.fee * 1_000_000_000) by (nonlinear_arith)
        requires
            q > 0,
    ;
}

#[verifier::spinoff_prover]
#[verifier::rlimit(40)]
proof fn the_end_is_written(
    s: Sim,
    w: Terms,
    tape: Seq<(i64, i64)>,
    asks: Seq<(i64, i64, i64)>,
    swings: Seq<Swing>,
    ticks: Seq<(i64, i64)>,
    winner: Option<PositionSide>,
)
    requires
        tells_its_trades(s, w, tape, asks, swings, ticks),
        can_be_played(w, swings, ticks),
        asks.len() > 0,
        super::tape::ask_tape_ok(asks),
    ensures
        is_ledger(
            settled(flattened(s, w, asks), winner, asks[asks.len() - 1], w.end_ms - 1, 0).trades,
            w,
            tape,
            asks,
            swings,
            ticks,
            winner,
        ),
{
    let by = w.market_end - 25_000;
    let t = by + w.delay_ms;
    let last = asks[asks.len() - 1];
    let flat = flattened(s, w, asks);
    let end = settled(flat, winner, last, w.end_ms - 1, 0);
    let book = lot_book(s.lots);
    open_means_an_open_holding(book, PositionSide::Up);
    open_means_an_open_holding(book, PositionSide::Down);
    if any_open(s) {
        let n = s.lots.len() - 1;
        let l = s.lots[n];
        let first = s.trades.last();
        let q = w.shares as int;
        assert forall|k: int| 0 <= k < s.lots.len() - 1 implies (#[trigger] s.lots[k]).shares
            <= s.lots[k].paired by {
            assert(s.lots[k].paired == s.lots[k].shares || s.lots[n].paired == s.lots[n].shares);
        }
        fee_fits(q, first.fill as int);
        the_whole_fee(l);
        if is_sold(first, w, asks) {
            let ask = ask_known(asks, t, first.side)->0;
            let px = sell_price(ask as int);
            super::tape::known_ask_is_valid(asks, t, first.side);
            one_lot_is_sold(s, first.side, px, t, by, 0);
            let sold = sold_lot(s, n, px, t);
            assert forall|k: int| 0 <= k < sold.lots.len() implies (#[trigger] sold.lots[k]).shares
                <= sold.lots[k].paired by {
                if k < n {
                    assert(sold.lots[k] == s.lots[k]);
                }
            }
            if first.side == PositionSide::Up {
                if let Some(other) = ask_known(asks, t, PositionSide::Down) {
                    nothing_is_sold(
                        sold,
                        PositionSide::Down,
                        sell_price(other as int),
                        t,
                        by,
                        0,
                    );
                }
                assert(flattened_side(s, asks, t, by, PositionSide::Up) == sold);
            } else {
                if let Some(other) = ask_known(asks, t, PositionSide::Up) {
                    one_lot_is_sold(s, PositionSide::Up, sell_price(other as int), t, by, 0);
                }
                assert(flattened_side(s, asks, t, by, PositionSide::Up) == s);
            }
            assert(flat == sold);
            nothing_is_settled(sold, winner, last, w.end_ms - 1, 0);
            fee_fits(q, px);
            cash_fits(
                q,
                px - first.fill,
                fee_of(q, first.fill as int) + fee_of(q, px),
            );
            assert(q * px - q * first.fill == q * (px - first.fill)) by (nonlinear_arith);
            assert(is_sale_of(first, end.trades.last(), w, asks));
        } else {
            let half = flattened_side(s, asks, t, by, PositionSide::Up);
            if let Some(ask) = ask_known(asks, t, PositionSide::Up) {
                one_lot_is_sold(s, PositionSide::Up, sell_price(ask as int), t, by, 0);
            }
            if let Some(ask) = ask_known(asks, t, PositionSide::Down) {
                one_lot_is_sold(s, PositionSide::Down, sell_price(ask as int), t, by, 0);
            }
            assert(flat == s);
            one_lot_is_settled(s, winner, last, w.end_ms - 1, 0);
            let worth = super::sim::mark_of(first.side, winner, last);
            assert(super::tape::quote_side(last, first.side) == last.1
                || super::tape::quote_side(last, first.side) == last.2);
            assert(-1_000_000_000_000 <= worth <= 1_000_000_000_000);
            settlement_fits(q, worth - first.fill, fee_of(q, first.fill as int));
            assert(q * worth - q * first.fill == q * (worth - first.fill)) by (nonlinear_arith);
            assert(is_settlement_of(first, end.trades.last(), w, asks, winner));
        }
        assert(end.trades.drop_last() =~= s.trades);
        assert(end.trades[end.trades.len() - 2] == first);
    } else {
        assert forall|k: int| 0 <= k < s.lots.len() implies (#[trigger] s.lots[k]).shares
            <= s.lots[k].paired by {
            assert(book[k] == (s.lots[k].side, s.lots[k].shares - s.lots[k].paired));
        }
        nothing_is_settled(s, winner, last, w.end_ms - 1, 0);
        assert(end == s);
    }
}

proof fn settlement_fits(q: int, x: int, fee: int)
    requires
        0 <= q <= 1_000_000_000_000_000,
        -2_000_000_000_000 <= x <= 2_000_000_000_000,
        0 <= fee <= 40_000_000_000_000,
    ensures
        i128::MIN <= q * x - fee * 1_000_000_000 <= i128::MAX,
{
    assert(-2_000_000_000_000 * 1_000_000_000_000_000 <= q * x <= 2_000_000_000_000
        * 1_000_000_000_000_000) by (nonlinear_arith)
        requires
            0 <= q <= 1_000_000_000_000_000,
            -2_000_000_000_000 <= x <= 2_000_000_000_000,
    ;
}

/// A window that starts from nothing writes a ledger: rounds of a first leg, a
/// second leg and their pair, and at the end the sale or the settlement of a first
/// leg that is left.
pub proof fn a_fresh_window_writes_a_ledger(
    s: Sim,
    w: Terms,
    tape: Seq<(i64, i64)>,
    asks: Seq<(i64, i64, i64)>,
    swings: Seq<Swing>,
    ticks: Seq<(i64, i64)>,
    winner: Option<PositionSide>,
)
    requires
        s.lots.len() == 0,
        s.trades.len() == 0,
        s.pairs == 0,
        can_be_played(w, swings, ticks),
        asks.len() > 0,
        super::tape::ask_tape_ok(asks),
    ensures
        is_ledger(
            played(s, w, tape, asks, swings, ticks, winner).trades,
            w,
            tape,
            asks,
            swings,
            ticks,
            winner,
        ),
{
    let book = lot_book(s.lots);
    open_means_an_open_holding(book, PositionSide::Up);
    open_means_an_open_holding(book, PositionSide::Down);
    assert(!any_open(s));
    trading_is_written(s, w, tape, asks, swings, ticks, 0, 0);
    let through = traded_through(s, w, tape, asks, swings, ticks, 0, 0);
    the_end_is_written(through, w, tape, asks, swings, ticks, winner);
}

/// Whether a buy that is signalled at `t` can be filled at `fill`: when its delay
/// is over it is still within what has been seen, 600 milliseconds before the
/// close, and that is the ask, from 4 to 95 cents.
pub open spec fn can_be_filled(
    w: Terms,
    asks: Seq<(i64, i64, i64)>,
    t: int,
    side: PositionSide,
    fill: i64,
) -> bool {
    &&& t + w.delay_ms <= w.end_ms
    &&& t + w.delay_ms < w.market_end - 600
    &&& ask_known(asks, t + w.delay_ms, side) == Some(fill)
    &&& 40_000_000 <= fill <= 950_000_000
}

/// Whether a swing must be bought by a flat window whose next trade waits until
/// `from`.
pub open spec fn must_open(
    sw: Swing,
    w: Terms,
    tape: Seq<(i64, i64)>,
    asks: Seq<(i64, i64, i64)>,
    from: int,
    again: bool,
) -> bool {
    &&& sw.t >= from
    &&& opens_a_position(sw, w, tape, again)
    &&& exists|fill: i64| #[trigger]
        can_be_filled(w, asks, sw.t as int, sw.side, fill) && fill_is_wanted(
            sw,
            w,
            tape,
            fill as int,
        )
}

/// Whether a second leg against one bought at `paid` must be bought on a signal at
/// `t`.
pub open spec fn must_complete(
    w: Terms,
    asks: Seq<(i64, i64, i64)>,
    paid: int,
    from: int,
    t: int,
    side: PositionSide,
    limit: int,
) -> bool {
    &&& t >= from
    &&& ask_known(asks, t, side) matches Some(a) && 40_000_000 <= a <= limit && pays(paid, a as int)
    &&& exists|fill: i64| #[trigger]
        can_be_filled(w, asks, t, side, fill) && pays(paid, fill as int)
}

/// Whether trades leave nothing out: after the last of them no swing must be
/// bought, and with a first leg left no swing and no fall must complete it.
pub open spec fn leaves_nothing_out(
    trades: Seq<SimTrade>,
    w: Terms,
    tape: Seq<(i64, i64)>,
    asks: Seq<(i64, i64, i64)>,
    swings: Seq<Swing>,
    ticks: Seq<(i64, i64)>,
) -> bool {
    if trades.len() % 3 == 2 {
        let first = trades[trades.len() - 2];
        let paid = first.fill as int;
        &&& forall|k: int|
            0 <= k < swings.len() && (#[trigger] swings[k]).side != first.side ==> !must_complete(
                w,
                asks,
                paid,
                first.t + 400,
                swings[k].t as int,
                swings[k].side,
                760_000_000,
            )
        &&& first.side == PositionSide::Down ==> forall|k: int|
            0 <= k < ticks.len() && (#[trigger] ticks[k]).1 <= first.anchor_d - 30_000_000_000
                ==> !must_complete(
                w,
                asks,
                paid,
                first.t + 400,
                ticks[k].0 as int,
                PositionSide::Up,
                880_000_000,
            )
    } else {
        let from = if trades.len() == 0 {
            w.open_ms as int
        } else {
            trades.last().t + 8_000
        };
        trades.len() < 48 ==> forall|k: int|
            0 <= k < swings.len() ==> !must_open(
                #[trigger] swings[k],
                w,
                tape,
                asks,
                from,
                trades.len() > 0,
            )
    }
}

/// Whether a state has nothing to buy among the first swings and ticks.
spec fn nothing_to_buy(
    s: Sim,
    w: Terms,
    tape: Seq<(i64, i64)>,
    asks: Seq<(i64, i64, i64)>,
    swings: Seq<Swing>,
    ticks: Seq<(i64, i64)>,
    i: int,
    j: int,
) -> bool {
    let l = s.lots.last();
    &&& !any_open(s) ==> forall|k: int|
        0 <= k < i ==> !must_open(#[trigger] swings[k], w, tape, asks, s.next_t, s.pairs > 0)
    &&& any_open(s) ==> forall|k: int|
        0 <= k < i && (#[trigger] swings[k]).side != l.side ==> !must_complete(
            w,
            asks,
            l.fill as int,
            s.next_t,
            swings[k].t as int,
            swings[k].side,
            760_000_000,
        )
    &&& any_open(s) && l.side == PositionSide::Down ==> forall|k: int|
        0 <= k < j && (#[trigger] ticks[k]).1 <= l.anchor_d - 30_000_000_000 ==> !must_complete(
            w,
            asks,
            l.fill as int,
            s.next_t,
            ticks[k].0 as int,
            PositionSide::Up,
            880_000_000,
        )
}

/// Whether swings and ticks come in the order of their times, and those before `i`
/// and `j` are not later than those from there on.
pub open spec fn in_turn(swings: Seq<Swing>, ticks: Seq<(i64, i64)>, i: int, j: int) -> bool {
    &&& forall|a: int, b: int|
        0 <= a <= b < swings.len() ==> (#[trigger] swings[a]).t <= (#[trigger] swings[b]).t
    &&& forall|a: int, b: int|
        0 <= a <= b < ticks.len() ==> (#[trigger] ticks[a]).0 <= (#[trigger] ticks[b]).0
    &&& forall|a: int, b: int|
        0 <= a < i && j <= b < ticks.len() ==> (#[trigger] swings[a]).t <= (#[trigger] ticks[b]).0
    &&& forall|a: int, b: int|
        0 <= a < j && i <= b < swings.len() ==> (#[trigger] ticks[a]).0 <= (#[trigger] swings[b]).t
}

/// A second leg that must be bought is bought.
proof fn what_must_be_completed_is(
    s: Sim,
    w: Terms,
    tape: Seq<(i64, i64)>,
    asks: Seq<(i64, i64, i64)>,
    swings: Seq<Swing>,
    ticks: Seq<(i64, i64)>,
    t: int,
    side: PositionSide,
    kind: ExtKind,
    reason: Reason,
)
    requires
        tells_its_trades(s, w, tape, asks, swings, ticks),
        can_be_played(w, swings, ticks),
        has_open(lot_book(s.lots), side.opposite_spec()),
        must_complete(
            w,
            asks,
            s.lots.last().fill as int,
            s.next_t,
            t,
            side,
            if reason == Reason::EarlyOpposite {
                880_000_000
            } else {
                760_000_000
            },
        ),
    ensures
        second_leg(s, w, asks, t, side, kind, reason).next_t > t,
        second_leg(s, w, asks, t, side, kind, reason).trades.len() > s.trades.len(),
{
    the_open_lot_is_the_last(s, w, tape, asks, swings, ticks, side.opposite_spec());
    let first = s.lots.last();
    let ask = ask_known(asks, t, side)->0;
    let fill = choose|fill: i64| #[trigger]
        can_be_filled(w, asks, t, side, fill) && pays(first.fill as int, fill as int);
    a_pair_that_earns_pays(first.fill as int, ask as int);
    a_pair_that_earns_pays(first.fill as int, fill as int);
    assert(fill_of(w, asks, t, side) == Some(fill));
    second_leg_closes(s, w, side, t + w.delay_ms, fill, kind, reason, first.anchor_d);
}

/// A state after a step: nothing bought, or bought with the next trade after it.
proof fn a_step_waits(
    s: Sim,
    w: Terms,
    tape: Seq<(i64, i64)>,
    asks: Seq<(i64, i64, i64)>,
    swings: Seq<Swing>,
    ticks: Seq<(i64, i64)>,
    i: int,
    j: int,
)
    requires
        tells_its_trades(s, w, tape, asks, swings, ticks),
        can_be_played(w, swings, ticks),
        !is_done(s),
    ensures
        0 <= i < swings.len() ==> {
            let after = on_swing(s, w, tape, asks, swings[i]);
            &&& after == s || after == missed(s) || after.next_t > swings[i].t
            &&& after == s || after == missed(s) ==> {
                &&& !any_open(s) ==> !must_open(swings[i], w, tape, asks, s.next_t, s.pairs > 0)
                &&& any_open(s) && swings[i].side != s.lots.last().side ==> !must_complete(
                    w,
                    asks,
                    s.lots.last().fill as int,
                    s.next_t,
                    swings[i].t as int,
                    swings[i].side,
                    760_000_000,
                )
            }
        },
        0 <= j < ticks.len() ==> {
            let after = on_tick(s, w, asks, ticks[j].0 as int, ticks[j].1 as int);
            &&& after == s || after == missed(s) || after.next_t > ticks[j].0
            &&& (after == s || after == missed(s)) && any_open(s) && s.lots.last().side
                == PositionSide::Down && ticks[j].1 <= s.lots.last().anchor_d - 30_000_000_000
                ==> !must_complete(
                w,
                asks,
                s.lots.last().fill as int,
                s.next_t,
                ticks[j].0 as int,
                PositionSide::Up,
                880_000_000,
            )
        },
{
    let book = lot_book(s.lots);
    let last = s.lots.last();
    if any_open(s) {
        let n = s.lots.len() - 1;
        open_means_an_open_holding(book, last.side);
        open_means_an_open_holding(book, last.side.opposite_spec());
        assert(book[n] == (last.side, last.shares - last.paired));
        assert(has_open(book, last.side));
        if has_open(book, last.side.opposite_spec()) {
            the_open_lot_is_the_last(
                s,
                w,
                tape,
                asks,
                swings,
                ticks,
                last.side.opposite_spec(),
            );
        }
    }
    if 0 <= i < swings.len() {
        let sw = swings[i];
        let after = on_swing(s, w, tape, asks, sw);
        let second = match sw.kind {
            ExtKind::Peak => Reason::SwingPeakSecond,
            ExtKind::Trough => Reason::SwingTroughSecond,
        };
        if any_open(s) && sw.side != last.side && must_complete(
            w,
            asks,
            last.fill as int,
            s.next_t,
            sw.t as int,
            sw.side,
            760_000_000,
        ) {
            what_must_be_completed_is(
                s,
                w,
                tape,
                asks,
                swings,
                ticks,
                sw.t as int,
                sw.side,
                sw.kind,
                second,
            );
        }
        if !any_open(s) && must_open(sw, w, tape, asks, s.next_t, s.pairs > 0) {
            let fill = choose|fill: i64| #[trigger]
                can_be_filled(w, asks, sw.t as int, sw.side, fill) && fill_is_wanted(
                    sw,
                    w,
                    tape,
                    fill as int,
                );
            assert(fill_of(w, asks, sw.t as int, sw.side) == Some(fill));
            let first = match sw.kind {
                ExtKind::Peak => Reason::SwingPeak,
                ExtKind::Trough => Reason::SwingTrough,
            };
            first_leg_opens(s, w, sw.side, sw.t + w.delay_ms, fill, sw.kind, first, sw.d);
        }
    }
    if 0 <= j < ticks.len() && any_open(s) && last.side == PositionSide::Down && ticks[j].1
        <= last.anchor_d - 30_000_000_000 && must_complete(
        w,
        asks,
        last.fill as int,
        s.next_t,
        ticks[j].0 as int,
        PositionSide::Up,
        880_000_000,
    ) {
        what_must_be_completed_is(
            s,
            w,
            tape,
            asks,
            swings,
            ticks,
            ticks[j].0 as int,
            PositionSide::Up,
            ExtKind::Trough,
            Reason::EarlyOpposite,
        );
    }
}

proof fn trading_leaves_nothing_out(
    s: Sim,
    w: Terms,
    tape: Seq<(i64, i64)>,
    asks: Seq<(i64, i64, i64)>,
    swings: Seq<Swing>,
    ticks: Seq<(i64, i64)>,
    i: int,
    j: int,
)
    requires
        tells_its_trades(s, w, tape, asks, swings, ticks),
        can_be_played(w, swings, ticks),
        0 <= i <= swings.len(),
        0 <= j <= ticks.len(),
        in_turn(swings, ticks, i, j),
        nothing_to_buy(s, w, tape, asks, swings, ticks, i, j),
    ensures
        ({
            let end = traded_through(s, w, tape, asks, swings, ticks, i, j);
            is_done(end) || nothing_to_buy(
                end,
                w,
                tape,
                asks,
                swings,
                ticks,
                swings.len() as int,
                ticks.len() as int,
            )
        }),
    decreases swings.len() - i + ticks.len() - j,
{
    if (i >= swings.len() && j >= ticks.len()) || is_done(s) {
    } else if swing_is_next(swings, ticks, i, j) {
        a_step_waits(s, w, tape, asks, swings, ticks, i, -1);
        a_swing_is_written(s, w, tape, asks, swings, ticks, i);
        let next = on_swing(s, w, tape, asks, swings[i]);
        if next != s && next != missed(s) {
            assert forall|k: int| 0 <= k < i + 1 implies (#[trigger] swings[k]).t < next.next_t by {
                assert(swings[k].t <= swings[i].t);
            }
            assert forall|k: int| 0 <= k < j implies (#[trigger] ticks[k]).0 < next.next_t by {
                assert(ticks[k].0 <= swings[i].t);
            }
        }
        assert(nothing_to_buy(next, w, tape, asks, swings, ticks, i + 1, j));
        assert forall|a: int, b: int| 0 <= a < i + 1 && j <= b < ticks.len() implies (
        #[trigger] swings[a]).t <= (#[trigger] ticks[b]).0 by {
            assert(ticks[j].0 <= ticks[b].0);
            assert(swings[a].t <= swings[i].t);
        }
        trading_leaves_nothing_out(next, w, tape, asks, swings, ticks, i + 1, j);
    } else {
        a_step_waits(s, w, tape, asks, swings, ticks, -1, j);
        a_tick_is_written(s, w, tape, asks, swings, ticks, j);
        let next = on_tick(s, w, asks, ticks[j].0 as int, ticks[j].1 as int);
        if next != s && next != missed(s) {
            assert forall|k: int| 0 <= k < i implies (#[trigger] swings[k]).t < next.next_t by {
                assert(swings[k].t <= ticks[j].0);
            }
            assert forall|k: int| 0 <= k < j + 1 implies (#[trigger] ticks[k]).0 < next.next_t by {
                assert(ticks[k].0 <= ticks[j].0);
            }
        }
        assert(nothing_to_buy(next, w, tape, asks, swings, ticks, i, j + 1));
        assert forall|a: int, b: int| 0 <= a < j + 1 && i <= b < swings.len() implies (
        #[trigger] ticks[a]).0 <= (#[trigger] swings[b]).t by {
            assert(swings[i].t <= swings[b].t);
            assert(ticks[a].0 <= ticks[j].0);
        }
        trading_leaves_nothing_out(next, w, tape, asks, swings, ticks, i, j + 1);
    }
}

/// A window that starts from nothing leaves nothing out: what it does not buy was
/// not to be bought.
pub proof fn a_fresh_window_leaves_nothing_out(
    s: Sim,
    w: Terms,
    tape: Seq<(i64, i64)>,
    asks: Seq<(i64, i64, i64)>,
    swings: Seq<Swing>,
    ticks: Seq<(i64, i64)>,
    winner: Option<PositionSide>,
)
    requires
        s.lots.len() == 0,
        s.trades.len() == 0,
        s.pairs == 0,
        s.next_t == w.open_ms,
        can_be_played(w, swings, ticks),
        in_turn(swings, ticks, 0, 0),
        asks.len() > 0,
        super::tape::ask_tape_ok(asks),
    ensures
        leaves_nothing_out(
            played(s, w, tape, asks, swings, ticks, winner).trades,
            w,
            tape,
            asks,
            swings,
            ticks,
        ),
{
    let book = lot_book(s.lots);
    open_means_an_open_holding(book, PositionSide::Up);
    open_means_an_open_holding(book, PositionSide::Down);
    assert(!any_open(s));
    trading_is_written(s, w, tape, asks, swings, ticks, 0, 0);
    trading_leaves_nothing_out(s, w, tape, asks, swings, ticks, 0, 0);
    let through = traded_through(s, w, tape, asks, swings, ticks, 0, 0);
    nothing_bought_yet_waits_for_the_open(s, w, tape, asks, swings, ticks, 0, 0);
    the_end_is_written(through, w, tape, asks, swings, ticks, winner);
    super::sim_laws::closing_appends_only_exits(through, w, asks, winner);
    let end = played(s, w, tape, asks, swings, ticks, winner);
    the_end_follows_trading(through, w, tape, asks, swings, ticks, winner);
    assert(end.trades.len() == through.trades.len() + (if any_open(through) {
        1int
    } else {
        0int
    }));
    assert(forall|k: int| 0 <= k < through.trades.len() ==> #[trigger] end.trades[k] == through.trades[k]);
    if any_open(through) {
        assert(end.trades[end.trades.len() - 2] == through.trades.last());
    } else {
        assert(end.trades =~= through.trades);
    }
}

/// How many trades the end of a window adds.
proof fn the_end_follows_trading(
    s: Sim,
    w: Terms,
    tape: Seq<(i64, i64)>,
    asks: Seq<(i64, i64, i64)>,
    swings: Seq<Swing>,
    ticks: Seq<(i64, i64)>,
    winner: Option<PositionSide>,
)
    requires
        tells_its_trades(s, w, tape, asks, swings, ticks),
        can_be_played(w, swings, ticks),
    ensures
        ({
            let end = settled(
                flattened(s, w, asks),
                winner,
                asks[asks.len() - 1],
                w.end_ms - 1,
                0,
            );
            end.trades.len() == s.trades.len() + (if any_open(s) {
                1int
            } else {
                0int
            })
        }),
{
    let by = w.market_end - 25_000;
    let t = by + w.delay_ms;
    let last = asks[asks.len() - 1];
    let flat = flattened(s, w, asks);
    let book = lot_book(s.lots);
    open_means_an_open_holding(book, PositionSide::Up);
    open_means_an_open_holding(book, PositionSide::Down);
    if any_open(s) {
        let n = s.lots.len() - 1;
        assert forall|k: int| 0 <= k < s.lots.len() - 1 implies (#[trigger] s.lots[k]).shares
            <= s.lots[k].paired by {
            assert(s.lots[k].paired == s.lots[k].shares || s.lots[n].paired == s.lots[n].shares);
        }
        let half = flattened_side(s, asks, t, by, PositionSide::Up);
        if let Some(ask) = ask_known(asks, t, PositionSide::Up) {
            one_lot_is_sold(s, PositionSide::Up, sell_price(ask as int), t, by, 0);
        }
        if let Some(ask) = ask_known(asks, t, PositionSide::Down) {
            one_lot_is_sold(s, PositionSide::Down, sell_price(ask as int), t, by, 0);
        }
        if half != s {
            assert(half.lots.last().shares == half.lots.last().paired);
            assert forall|k: int| 0 <= k < half.lots.len() implies (#[trigger] half.lots[k]).shares
                <= half.lots[k].paired by {
                if k < n {
                    assert(half.lots[k] == s.lots[k]);
                }
            }
            if let Some(ask) = ask_known(asks, t, PositionSide::Down) {
                nothing_is_sold(half, PositionSide::Down, sell_price(ask as int), t, by, 0);
            }
        }
        if flat == s {
            one_lot_is_settled(s, winner, last, w.end_ms - 1, 0);
        } else {
            assert forall|k: int| 0 <= k < flat.lots.len() implies (#[trigger] flat.lots[k]).shares
                <= flat.lots[k].paired by {
                if k < n {
                    assert(flat.lots[k] == s.lots[k]);
                }
            }
            nothing_is_settled(flat, winner, last, w.end_ms - 1, 0);
        }
    } else {
        assert forall|k: int| 0 <= k < s.lots.len() implies (#[trigger] s.lots[k]).shares
            <= s.lots[k].paired by {
            assert(book[k] == (s.lots[k].side, s.lots[k].shares - s.lots[k].paired));
        }
        nothing_is_settled(s, winner, last, w.end_ms - 1, 0);
    }
}

/// While nothing has been bought, trading waits for the open only.
proof fn nothing_bought_yet_waits_for_the_open(
    s: Sim,
    w: Terms,
    tape: Seq<(i64, i64)>,
    asks: Seq<(i64, i64, i64)>,
    swings: Seq<Swing>,
    ticks: Seq<(i64, i64)>,
    i: int,
    j: int,
)
    requires
        s.trades.len() == 0 ==> s.next_t == w.open_ms,
        tells_its_trades(s, w, tape, asks, swings, ticks),
        can_be_played(w, swings, ticks),
    ensures
        ({
            let end = traded_through(s, w, tape, asks, swings, ticks, i, j);
            end.trades.len() == 0 ==> end.next_t == w.open_ms
        }),
    decreases swings.len() - i + ticks.len() - j,
{
    if i < 0 || j < 0 || (i >= swings.len() && j >= ticks.len()) || i > swings.len() || j
        > ticks.len() || is_done(s) {
    } else if swing_is_next(swings, ticks, i, j) {
        a_swing_is_written(s, w, tape, asks, swings, ticks, i);
        let next = on_swing(s, w, tape, asks, swings[i]);
        super::sim_laws::events_are_steps(s, w, tape, asks, swings[i], 0, 0);
        a_buy_is_a_trade(s, next, w, asks);
        nothing_bought_yet_waits_for_the_open(next, w, tape, asks, swings, ticks, i + 1, j);
    } else {
        a_tick_is_written(s, w, tape, asks, swings, ticks, j);
        let next = on_tick(s, w, asks, ticks[j].0 as int, ticks[j].1 as int);
        super::sim_laws::events_are_steps(
            s,
            w,
            tape,
            asks,
            arbitrary(),
            ticks[j].0 as int,
            ticks[j].1 as int,
        );
        a_buy_is_a_trade(s, next, w, asks);
        nothing_bought_yet_waits_for_the_open(next, w, tape, asks, swings, ticks, i, j + 1);
    }
}

proof fn a_buy_is_a_trade(s: Sim, after: Sim, w: Terms, asks: Seq<(i64, i64, i64)>)
    requires
        super::sim_laws::steps_to(s, after, w, asks),
    ensures
        after == s || after == missed(s) || after.trades.len() > s.trades.len(),
{
    if after != s && after != missed(s) {
        let (t, side, fill, kind, reason, anchor_d) = choose|
            t: int,
            side: PositionSide,
            fill: i64,
            kind: ExtKind,
            reason: Reason,
            anchor_d: i64,
        | #[trigger] super::sim_laws::buys_at(s, after, w, asks, t, side, fill, kind, reason, anchor_d);
        let fill_t = t + w.delay_ms;
        let held = Sim {
            lots: s.lots.push(new_lot(side, w.shares, fill, fill_t, kind, anchor_d)),
            trades: s.trades.push(
                SimTrade {
                    kind: TradeKind::Buy,
                    side,
                    t: fill_t as i64,
                    fill,
                    shares: w.shares,
                    reason,
                    net: 0,
                    anchor_d,
                },
            ),
            ..s
        };
        super::sim_laws::pairing_appends_pairs(held, fill_t);
    }
}

} // verus!
