//! What a whole window does, from its prices and quotes to its trades.
use vstd::prelude::*;
use crate::fifo::can_match;
use crate::units::{price_ok, shares_ok};
use super::gap_swing::{deltas, deltas_from, gap_outcome, terms_of};
use super::ledger::{
    a_fresh_window_leaves_nothing_out, a_fresh_window_writes_a_ledger, can_be_played, in_turn,
    is_ledger, leaves_nothing_out,
};
use super::sides::PositionSide;
use super::sim::{
    any_open, bought, is_done, net_sum, on_swing, on_tick, played, terms_ok, traded_through, Anchor,
    Sim, Terms,
};
use super::sim_laws::{books_balance, count_of, every_buy_is_of_the_size, lot_sound};
use super::swings::{
    detected_swings_alternate, sampled, samples_are_on_the_grid, swings_of, ExtKind, Swing,
};
use super::tape::{ask_tape_ok, price_known};
use super::trades::{Reason, SimTrade, TradeKind};
use super::venue_swing::{
    interleaved, merged_swings_alternate, swings_together, union_of, union_step, united,
    venue_deltas, venue_outcome,
};
use super::window::{
    anchor_in, commits_ok, next_trade_t, outcome_of, paired_on, pairs_in, start_of, ticks_of,
    CommittedLot,
};

verus! {

/// The terms of a window are what is asked for: its open, how far it has been
/// seen, its close, the size of an order and its delay.
pub proof fn terms_are_what_is_asked_for(
    open_ms: i64,
    end_ms: i64,
    shares: i64,
    close: Option<i64>,
    delay_ms: i64,
)
    ensures
        ({
            let w = terms_of(open_ms, end_ms, shares, close, delay_ms);
            &&& w.open_ms == open_ms
            &&& w.end_ms == end_ms
            &&& w.shares == shares
            &&& w.delay_ms == delay_ms
            &&& close is Some ==> w.market_end == close->0
            &&& close is None ==> w.market_end == end_ms
        }),
{
}

/// The deltas of prices are their distances from the strike, one for each price
/// and at its time.
pub proof fn deltas_are_distances(btc: Seq<(i64, i64)>, strike: i64, k: int)
    requires
        0 <= k < btc.len(),
        price_ok(btc[k].1 as int),
        price_ok(strike as int),
    ensures
        deltas_from(btc, Some(strike)).len() == btc.len(),
        deltas_from(btc, Some(strike))[k].0 == btc[k].0,
        deltas_from(btc, Some(strike))[k].1 == btc[k].1 - strike,
        deltas_from(btc, None).len() == 0,
{
}

/// Without a strike, prices or quotes nothing is traded.
pub proof fn a_window_needs_a_strike_prices_and_quotes(
    w: Terms,
    ptb: Option<i64>,
    btc: Seq<(i64, i64)>,
    asks: Seq<(i64, i64, i64)>,
    winner: Option<PositionSide>,
    commits: Seq<CommittedLot>,
)
    requires
        ptb is None || btc.len() == 0 || asks.len() == 0,
    ensures
        ({
            let out = gap_outcome(w, ptb, btc, asks, winner, commits);
            out.trades.len() == 0 && out.total_pnl == 0 && out.pairs == 0 && out.missed == 0
        }),
{
}

/// What a window nets is what its trades net together.
pub proof fn nets_add_up(trades: Seq<SimTrade>, tr: SimTrade)
    ensures
        net_sum(Seq::empty()) == 0,
        net_sum(trades.push(tr)) == net_sum(trades) + tr.net,
{
    assert(trades.push(tr).drop_last() =~= trades);
}

/// The total of a window is the sum of its trades' nets, its pairs are its PAIR
/// trades and those in the fills it started from, and its buys are of the size
/// that is asked for.
pub proof fn an_outcome_is_its_trades(
    w: Terms,
    tape: Seq<(i64, i64)>,
    asks: Seq<(i64, i64, i64)>,
    swings: Seq<Swing>,
    winner: Option<PositionSide>,
    commits: Seq<CommittedLot>,
)
    requires
        commits_ok(commits),
        shares_ok(w.shares as int),
    ensures
        ({
            let out = outcome_of(w, tape, asks, swings, winner, commits);
            &&& out.total_pnl == net_sum(out.trades)
            &&& out.pairs == pairs_in(commits, w.shares as int) + count_of(
                out.trades,
                TradeKind::Pair,
            )
            &&& forall|k: int|
                0 <= k < out.trades.len() && (#[trigger] out.trades[k]).kind == TradeKind::Buy
                    ==> out.trades[k].shares == w.shares
        }),
{
    let s = start_of(commits, w);
    assert forall|i: int| 0 <= i < s.lots.len() implies lot_sound(#[trigger] s.lots[i]) by {
        assert(super::window::commit_ok(commits[i]));
    }
    books_balance(s, w, tape, asks, swings, ticks_of(tape, w), winner);
    every_buy_is_of_the_size(s, w, tape, asks, swings, ticks_of(tape, w), winner);
}

/// Every grid time whose price is known is sampled, and nothing else.
pub proof fn the_grid_is_sampled(tape: Seq<(i64, i64)>, t: int, until: int, step: int, k: int)
    requires
        -4_000_000_000_000_000 <= t,
        until <= 4_000_000_000_000_000,
        0 < step,
        0 <= k,
        t + k * step < until,
        price_known(tape, t + k * step) is Some,
    ensures
        sampled(tape, t, until, step).contains(
            ((t + k * step) as i64, price_known(tape, t + k * step)->0),
        ),
    decreases k,
{
    let at = ((t + k * step) as i64, price_known(tape, t + k * step)->0);
    let all = sampled(tape, t, until, step);
    assert(t < until) by (nonlinear_arith)
        requires
            t + k * step < until,
            k >= 0,
            step > 0,
    ;
    if k == 0 {
        assert(0 * step == 0);
        assert(all[0] == at);
    } else {
        assert(t + step + (k - 1) * step == t + k * step) by (nonlinear_arith);
        the_grid_is_sampled(tape, t + step, until, step, k - 1);
        let rest = sampled(tape, t + step, until, step);
        let i = choose|i: int| 0 <= i < rest.len() && rest[i] == at;
        if price_known(tape, t) is Some {
            assert(all[i + 1] == at);
        } else {
            assert(all[i] == at);
        }
    }
}

/// A fall is looked for every half second from a second after the open, as long as
/// the window has been seen and ten seconds are left.
pub proof fn falls_are_looked_for_every_half_second(tape: Seq<(i64, i64)>, w: Terms, k: int)
    requires
        terms_ok(w),
        0 <= k,
    ensures
        ({
            let at = w.open_ms + 1_000 + k * 500;
            let ticks = ticks_of(tape, w);
            &&& at < w.end_ms && at < w.market_end - 10_000 && price_known(tape, at) is Some
                ==> ticks.contains((at as i64, price_known(tape, at)->0))
            &&& forall|i: int|
                0 <= i < ticks.len() ==> {
                    &&& w.open_ms + 1_000 <= (#[trigger] ticks[i]).0 < w.end_ms
                    &&& ticks[i].0 < w.market_end - 10_000
                    &&& (ticks[i].0 - w.open_ms) % 500 == 0
                    &&& price_known(tape, ticks[i].0 as int) == Some(ticks[i].1)
                }
        }),
{
    let from = w.open_ms + 1_000;
    let until = if w.end_ms <= w.market_end - 10_000 {
        w.end_ms as int
    } else {
        w.market_end - 10_000
    };
    let ticks = ticks_of(tape, w);
    assert(ticks == sampled(tape, from, until, 500));
    samples_are_on_the_grid(tape, from, until, 500);
    let at = from + k * 500;
    if at < until && price_known(tape, at) is Some {
        the_grid_is_sampled(tape, from, until, 500, k);
    }
    assert forall|i: int| 0 <= i < ticks.len() implies (((#[trigger] ticks[i]).0 - w.open_ms) % 500
        == 0) by {
        assert((ticks[i].0 - from) % 500 == 0);
    }
}

/// What a window starts from nothing with.
proof fn a_fresh_start(w: Terms)
    ensures
        ({
            let s = start_of(Seq::empty(), w);
            &&& s.lots.len() == 0
            &&& s.trades.len() == 0
            &&& s.pairs == 0
            &&& s.next_t == w.open_ms
            &&& s.missed == 0
        }),
{
    let none = Seq::<CommittedLot>::empty();
    assert(super::window::paired_on(none, PositionSide::Up) == 0);
}

proof fn a_window_can_be_played(w: Terms, tape: Seq<(i64, i64)>, swings: Seq<Swing>)
    requires
        terms_ok(w),
        w.delay_ms >= 0,
        w.shares >= 1_000_000,
        forall|k: int|
            0 <= k < swings.len() ==> w.open_ms < (#[trigger] swings[k]).t < w.end_ms && (
            swings[k].side == PositionSide::Up <==> swings[k].kind == ExtKind::Trough),
        forall|a: int, b: int|
            0 <= a <= b < swings.len() ==> (#[trigger] swings[a]).t <= (#[trigger] swings[b]).t,
    ensures
        can_be_played(w, swings, ticks_of(tape, w)),
        in_turn(swings, ticks_of(tape, w), 0, 0),
{
    falls_are_looked_for_every_half_second(tape, w, 0);
    let ticks = ticks_of(tape, w);
    let until = if w.end_ms <= w.market_end - 10_000 {
        w.end_ms as int
    } else {
        w.market_end - 10_000
    };
    samples_are_on_the_grid(tape, w.open_ms + 1_000, until, 500);
}

/// A gap-swing window that starts from nothing writes the ledger of its swings on
/// bitcoin's distances from the strike, and leaves nothing out.
pub proof fn a_gap_window_writes_its_ledger(
    open_ms: i64,
    end_ms: i64,
    market_end: i64,
    shares: i64,
    delay_ms: i64,
    strike: i64,
    btc: Seq<(i64, i64)>,
    asks: Seq<(i64, i64, i64)>,
    winner: Option<PositionSide>,
)
    requires
        terms_ok(Terms { open_ms, end_ms, market_end, shares, delay_ms }),
        delay_ms >= 0,
        shares >= 1_000_000,
        btc.len() > 0,
        asks.len() > 0,
        ask_tape_ok(asks),
    ensures
        ({
            let w = Terms { open_ms, end_ms, market_end, shares, delay_ms };
            let tape = deltas(btc, strike as int);
            let swings = swings_of(tape, asks, open_ms as int, end_ms as int, market_end as int);
            let ticks = ticks_of(tape, w);
            let out = gap_outcome(w, Some(strike), btc, asks, winner, Seq::empty());
            &&& is_ledger(out.trades, w, tape, asks, swings, ticks, winner)
            &&& leaves_nothing_out(out.trades, w, tape, asks, swings, ticks)
            &&& out.total_pnl == net_sum(out.trades)
            &&& out.pairs == out.trades.len() as int / 3
        }),
{
    let w = Terms { open_ms, end_ms, market_end, shares, delay_ms };
    let tape = deltas(btc, strike as int);
    let swings = swings_of(tape, asks, open_ms as int, end_ms as int, market_end as int);
    detected_swings_alternate(tape, asks, open_ms as int, end_ms as int, market_end as int);
    assert forall|k: int| 0 <= k < swings.len() implies ((#[trigger] swings[k]).side
        == PositionSide::Up <==> swings[k].kind == ExtKind::Trough) by {
        assert(swings[k].side == super::swings::signal_side(swings[k].kind));
    }
    a_window_can_be_played(w, tape, swings);
    a_fresh_start(w);
    let s = start_of(Seq::empty(), w);
    let ticks = ticks_of(tape, w);
    a_fresh_window_writes_a_ledger(s, w, tape, asks, swings, ticks, winner);
    a_fresh_window_leaves_nothing_out(s, w, tape, asks, swings, ticks, winner);
    rounds_are_pairs(w, tape, asks, swings, winner);
}

/// The pairs of a fresh window are its rounds.
proof fn rounds_are_pairs(
    w: Terms,
    tape: Seq<(i64, i64)>,
    asks: Seq<(i64, i64, i64)>,
    swings: Seq<Swing>,
    winner: Option<PositionSide>,
)
    requires
        can_be_played(w, swings, ticks_of(tape, w)),
        is_ledger(
            outcome_of(w, tape, asks, swings, winner, Seq::empty()).trades,
            w,
            tape,
            asks,
            swings,
            ticks_of(tape, w),
            winner,
        ),
    ensures
        ({
            let out = outcome_of(w, tape, asks, swings, winner, Seq::empty());
            out.pairs == out.trades.len() as int / 3
        }),
{
    let out = outcome_of(w, tape, asks, swings, winner, Seq::empty());
    an_outcome_is_its_trades(w, tape, asks, swings, winner, Seq::empty());
    a_fresh_start(w);
    let n = out.trades.len() as int;
    let ticks = ticks_of(tape, w);
    if n % 3 == 2 {
        let rounds = out.trades.drop_last();
        rounds_have_one_pair(rounds, w, tape, asks, swings, ticks);
        assert(out.trades == rounds.push(out.trades.last()));
    } else {
        rounds_have_one_pair(out.trades, w, tape, asks, swings, ticks);
    }
}

proof fn rounds_have_one_pair(
    trades: Seq<SimTrade>,
    w: Terms,
    tape: Seq<(i64, i64)>,
    asks: Seq<(i64, i64, i64)>,
    swings: Seq<Swing>,
    ticks: Seq<(i64, i64)>,
)
    requires
        forall|k: int|
            0 <= k < trades.len() ==> #[trigger] super::ledger::has_its_place(
                trades,
                k,
                w,
                tape,
                asks,
                swings,
                ticks,
            ),
    ensures
        count_of(trades, TradeKind::Pair) == trades.len() as int / 3,
    decreases trades.len(),
{
    if trades.len() > 0 {
        let rest = trades.drop_last();
        let n = rest.len() as int;
        assert forall|k: int| 0 <= k < rest.len() implies #[trigger] super::ledger::has_its_place(
            rest,
            k,
            w,
            tape,
            asks,
            swings,
            ticks,
        ) by {
            assert(super::ledger::has_its_place(trades, k, w, tape, asks, swings, ticks));
        }
        rounds_have_one_pair(rest, w, tape, asks, swings, ticks);
        assert(super::ledger::has_its_place(trades, n, w, tape, asks, swings, ticks));
    }
}

proof fn together_in_order(a: Seq<Swing>, b: Seq<Swing>, i: int, j: int, from: int, until: int)
    requires
        0 <= i <= a.len(),
        0 <= j <= b.len(),
        forall|k: int, l: int| 0 <= k <= l < a.len() ==> (#[trigger] a[k]).t <= (#[trigger] a[l]).t,
        forall|k: int, l: int| 0 <= k <= l < b.len() ==> (#[trigger] b[k]).t <= (#[trigger] b[l]).t,
        forall|k: int|
            0 <= k < a.len() ==> from < (#[trigger] a[k]).t < until && (a[k].side
                == PositionSide::Up <==> a[k].kind == ExtKind::Trough),
        forall|k: int|
            0 <= k < b.len() ==> from < (#[trigger] b[k]).t < until && (b[k].side
                == PositionSide::Up <==> b[k].kind == ExtKind::Trough),
    ensures
        ({
            let all = swings_together(a, b, i, j);
            &&& forall|k: int, l: int|
                0 <= k <= l < all.len() ==> (#[trigger] all[k]).t <= (#[trigger] all[l]).t
            &&& forall|k: int|
                0 <= k < all.len() ==> {
                    &&& from < (#[trigger] all[k]).t < until
                    &&& all[k].side == PositionSide::Up <==> all[k].kind == ExtKind::Trough
                    &&& i < a.len() && j < b.len() ==> all[k].t >= a[i].t || all[k].t >= b[j].t
                    &&& i < a.len() && j >= b.len() ==> all[k].t >= a[i].t
                    &&& i >= a.len() && j < b.len() ==> all[k].t >= b[j].t
                }
            &&& all.len() == a.len() - i + b.len() - j
        }),
    decreases a.len() - i + b.len() - j,
{
    if i == a.len() && j == b.len() {
    } else {
        let first_a = i < a.len() && (j == b.len() || a[i].t <= b[j].t);
        let head = if first_a {
            a[i]
        } else {
            b[j]
        };
        let rest = if first_a {
            swings_together(a, b, i + 1, j)
        } else {
            swings_together(a, b, i, j + 1)
        };
        if first_a {
            together_in_order(a, b, i + 1, j, from, until);
        } else {
            together_in_order(a, b, i, j + 1, from, until);
        }
        let all = swings_together(a, b, i, j);
        assert(all == seq![head] + rest);
        assert forall|k: int| 0 <= k < rest.len() implies (#[trigger] rest[k]).t >= head.t by {
            if first_a {
                if i + 1 < a.len() {
                    assert(a[i].t <= a[i + 1].t);
                }
            } else {
                if j + 1 < b.len() {
                    assert(b[j].t <= b[j + 1].t);
                }
            }
        }
        assert(forall|k: int| 1 <= k < all.len() ==> #[trigger] all[k] == rest[k - 1]);
        assert(all[0] == head);
        assert forall|k: int, l: int| 0 <= k <= l < all.len() implies (#[trigger] all[k]).t <= (
        #[trigger] all[l]).t by {
            if k > 0 {
                assert(rest[k - 1].t <= rest[l - 1].t);
            }
        }
    }
}

proof fn merging_keeps_order(all: Seq<Swing>, n: int)
    requires
        0 <= n <= all.len(),
        forall|k: int, l: int|
            0 <= k <= l < all.len() ==> (#[trigger] all[k]).t <= (#[trigger] all[l]).t,
    ensures
        ({
            let kept = united(all, n);
            &&& forall|k: int, l: int|
                0 <= k <= l < kept.len() ==> (#[trigger] kept[k]).t <= (#[trigger] kept[l]).t
            &&& forall|k: int| 0 <= k < kept.len() ==> n > 0 && (#[trigger] kept[k]).t <= all[n - 1].t
        }),
    decreases n,
{
    if n > 0 {
        merging_keeps_order(all, n - 1);
        let before = united(all, n - 1);
        let kept = united(all, n);
        assert(kept == union_step(before, all[n - 1]));
        assert forall|k: int| 0 <= k < kept.len() implies n > 0 && (#[trigger] kept[k]).t <= all[n
            - 1].t by {
            if k < before.len() && kept[k] == before[k] {
                assert(all[n - 2].t <= all[n - 1].t);
            }
        }
        assert forall|k: int, l: int| 0 <= k <= l < kept.len() implies (#[trigger] kept[k]).t <= (
        #[trigger] kept[l]).t by {
            if kept[l] == all[n - 1] {
            } else {
                assert(kept[l] == before[l]);
                assert(kept[k] == before[k]);
            }
        }
    }
}

/// A venue-swing window that starts from nothing writes the ledger of both venues'
/// merged swings, and leaves nothing out.
pub proof fn a_venue_window_writes_its_ledger(
    open_ms: i64,
    end_ms: i64,
    market_end: i64,
    shares: i64,
    delay_ms: i64,
    binance: Seq<(i64, i64)>,
    coinbase: Seq<(i64, i64)>,
    asks: Seq<(i64, i64, i64)>,
    winner: Option<PositionSide>,
)
    requires
        terms_ok(Terms { open_ms, end_ms, market_end, shares, delay_ms }),
        delay_ms >= 0,
        shares >= 1_000_000,
        asks.len() > 0,
        ask_tape_ok(asks),
        venue_deltas(binance, open_ms, end_ms).len() > 0 || venue_deltas(
            coinbase,
            open_ms,
            end_ms,
        ).len() > 0,
    ensures
        ({
            let w = Terms { open_ms, end_ms, market_end, shares, delay_ms };
            let bn = venue_deltas(binance, open_ms, end_ms);
            let cb = venue_deltas(coinbase, open_ms, end_ms);
            let tape = interleaved(bn, cb, 0, 0);
            let swings = union_of(
                swings_of(bn, asks, open_ms as int, end_ms as int, market_end as int),
                swings_of(cb, asks, open_ms as int, end_ms as int, market_end as int),
            );
            let ticks = ticks_of(tape, w);
            let out = venue_outcome(w, binance, coinbase, asks, winner, Seq::empty());
            &&& is_ledger(out.trades, w, tape, asks, swings, ticks, winner)
            &&& leaves_nothing_out(out.trades, w, tape, asks, swings, ticks)
            &&& out.total_pnl == net_sum(out.trades)
            &&& out.pairs == out.trades.len() as int / 3
        }),
{
    let w = Terms { open_ms, end_ms, market_end, shares, delay_ms };
    let o = open_ms as int;
    let e = end_ms as int;
    let c = market_end as int;
    let bn = venue_deltas(binance, open_ms, end_ms);
    let cb = venue_deltas(coinbase, open_ms, end_ms);
    let tape = interleaved(bn, cb, 0, 0);
    let a = swings_of(bn, asks, o, e, c);
    let b = swings_of(cb, asks, o, e, c);
    detected_swings_alternate(bn, asks, o, e, c);
    detected_swings_alternate(cb, asks, o, e, c);
    assert forall|k: int| 0 <= k < a.len() implies ((#[trigger] a[k]).side == PositionSide::Up
        <==> a[k].kind == ExtKind::Trough) by {
        assert(a[k].side == super::swings::signal_side(a[k].kind));
    }
    assert forall|k: int| 0 <= k < b.len() implies ((#[trigger] b[k]).side == PositionSide::Up
        <==> b[k].kind == ExtKind::Trough) by {
        assert(b[k].side == super::swings::signal_side(b[k].kind));
    }
    together_in_order(a, b, 0, 0, o, e);
    let all = swings_together(a, b, 0, 0);
    merging_keeps_order(all, all.len() as int);
    merged_swings_alternate(all, all.len() as int);
    let swings = union_of(a, b);
    assert forall|k: int| 0 <= k < swings.len() implies w.open_ms < (#[trigger] swings[k]).t
        < w.end_ms && (swings[k].side == PositionSide::Up <==> swings[k].kind
        == ExtKind::Trough) by {
        assert(all.contains(swings[k]));
        let i = choose|i: int| 0 <= i < all.len() && all[i] == swings[k];
        assert(all[i].t == swings[k].t);
    }
    a_window_can_be_played(w, tape, swings);
    a_fresh_start(w);
    let s = start_of(Seq::empty(), w);
    let ticks = ticks_of(tape, w);
    a_fresh_window_writes_a_ledger(s, w, tape, asks, swings, ticks, winner);
    a_fresh_window_leaves_nothing_out(s, w, tape, asks, swings, ticks, winner);
    rounds_are_pairs(w, tape, asks, swings, winner);
}

/// A window that starts from fills waits after the last of them: eight seconds if
/// it completed a pair, 0.4 seconds if not; without fills it waits for the open.
pub proof fn fills_are_followed_by_a_wait(
    commits: Seq<CommittedLot>,
    shares: int,
    open_ms: int,
)
    requires
        shares > 0,
    ensures
        commits.len() == 0 ==> next_trade_t(commits, shares, open_ms) == open_ms,
        commits.len() > 0 ==> {
            let order = super::window::fill_order(commits, commits.len() as int);
            let n = commits.len() as int;
            let last = order[n - 1];
            let book = super::window::replayed(order, n - 1).push((last.side, last.shares as int));
            next_trade_t(commits, shares, open_ms) == last.fill_t + (if can_match(book) {
                8_000int
            } else {
                400int
            })
        },
{
}

/// The fall that completes a pair early is measured from the last fill that is
/// open.
pub proof fn a_fall_is_measured_from_the_last_open_fill(commits: Seq<CommittedLot>, n: int)
    requires
        0 < n <= commits.len(),
    ensures
        ({
            let c = commits[n - 1];
            &&& c.shares <= c.paired ==> anchor_in(commits, n) == anchor_in(commits, n - 1)
            &&& c.shares > c.paired ==> anchor_in(commits, n) is Some
            &&& c.shares > c.paired ==> anchor_in(commits, n)->0.t == c.fill_t
            &&& c.shares > c.paired ==> anchor_in(commits, n)->0.d == c.anchor_d
            &&& c.shares > c.paired ==> anchor_in(commits, n)->0.side == c.side
            &&& c.shares > c.paired ==> (anchor_in(commits, n)->0.kind == ExtKind::Trough
                <==> c.from_trough)
        }),
        anchor_in(commits, 0) is None,
{
}

/// A window that starts from fills holds what they leave unpaired, at what was paid
/// for it.
pub proof fn fills_are_what_a_window_holds(commits: Seq<CommittedLot>, w: Terms, k: int)
    requires
        0 <= k < commits.len(),
    ensures
        ({
            let s = start_of(commits, w);
            let c = commits[k];
            &&& s.lots.len() == commits.len()
            &&& s.lots[k].side == c.side
            &&& s.lots[k].shares == c.shares
            &&& s.lots[k].paired == c.paired
            &&& s.lots[k].fill == c.fill
            &&& s.lots[k].fill_t == c.fill_t
            &&& s.lots[k].anchor_d == c.anchor_d
            &&& s.trades.len() == 0
            &&& s.missed == 0
        }),
{
}

/// The missed trades of a window are those that it has missed by its end, and its pairs
/// those that it has made.
pub proof fn an_outcome_tells_what_was_missed(
    w: Terms,
    tape: Seq<(i64, i64)>,
    asks: Seq<(i64, i64, i64)>,
    swings: Seq<Swing>,
    winner: Option<PositionSide>,
    commits: Seq<CommittedLot>,
)
    ensures
        ({
            let out = outcome_of(w, tape, asks, swings, winner, commits);
            let end = played(start_of(commits, w), w, tape, asks, swings, ticks_of(tape, w), winner);
            &&& out.trades == end.trades
            &&& out.missed == end.missed
            &&& out.pairs == end.pairs
        }),
{
}

/// The pairs in fills are what both sides have paired, in whole orders.
pub proof fn paired_fills_are_pairs(commits: Seq<CommittedLot>, shares: int)
    requires
        shares > 0,
        paired_on(commits, PositionSide::Up) >= 0,
        paired_on(commits, PositionSide::Down) >= 0,
    ensures
        ({
            let up = paired_on(commits, PositionSide::Up);
            let down = paired_on(commits, PositionSide::Down);
            let n = pairs_in(commits, shares);
            &&& n * shares <= up && n * shares <= down
            &&& n < 4_294_967_295 ==> up < (n + 1) * shares || down < (n + 1) * shares
            &&& 0 <= n <= 4_294_967_295
        }),
{
    let up = paired_on(commits, PositionSide::Up);
    let down = paired_on(commits, PositionSide::Down);
    let both = if up <= down {
        up
    } else {
        down
    };
    let q = both / shares;
    vstd::arithmetic::div_mod::lemma_fundamental_div_mod(both, shares);
    vstd::arithmetic::div_mod::lemma_mod_bound(both, shares);
    vstd::arithmetic::div_mod::lemma_div_pos_is_pos(both, shares);
    assert(shares * q == q * shares) by (nonlinear_arith);
    assert((q + 1) * shares == q * shares + shares) by (nonlinear_arith);
    assert(q > 4_294_967_295 ==> 4_294_967_295 * shares <= q * shares) by (nonlinear_arith)
        requires
            shares > 0,
    ;
    if both == 0 {
        assert(q == 0);
    }
}

/// A fill that is added is paired on its own side only.
pub proof fn paired_shares_add_up(commits: Seq<CommittedLot>, c: CommittedLot)
    ensures
        paired_on(commits.push(c), c.side) == paired_on(commits, c.side) + c.paired,
        paired_on(commits.push(c), c.side.opposite_spec()) == paired_on(
            commits,
            c.side.opposite_spec(),
        ),
        paired_on(Seq::empty(), c.side) == 0,
{
    assert(commits.push(c).drop_last() =~= commits);
}

/// Trading stops after sixteen pairs as soon as nothing is open, and not before.
pub proof fn sixteen_pairs_are_enough(s: Sim)
    ensures
        is_done(s) <==> s.pairs >= 16 && !any_open(s),
        any_open(s) <==> exists|k: int|
            0 <= k < s.lots.len() && (#[trigger] s.lots[k]).shares > s.lots[k].paired,
{
    let book = super::sim::lot_book(s.lots);
    crate::fifo::open_means_an_open_holding(book, PositionSide::Up);
    crate::fifo::open_means_an_open_holding(book, PositionSide::Down);
    if any_open(s) {
        let side = if crate::fifo::has_open(book, PositionSide::Up) {
            PositionSide::Up
        } else {
            PositionSide::Down
        };
        let k = choose|k: int| 0 <= k < book.len() && (#[trigger] book[k]).0 == side && book[k].1 > 0;
        assert(s.lots[k].shares > s.lots[k].paired);
    }
    if exists|k: int| 0 <= k < s.lots.len() && (#[trigger] s.lots[k]).shares > s.lots[k].paired {
        let k = choose|k: int|
            0 <= k < s.lots.len() && (#[trigger] s.lots[k]).shares > s.lots[k].paired;
        assert(book[k].1 > 0);
        assert(book[k].0 == PositionSide::Up || book[k].0 == PositionSide::Down);
    }
}

/// Swings and ticks are gone through in the order of their times, a swing before a tick
/// of its time, until trading stops.
pub proof fn swings_go_before_ticks(
    s: Sim,
    w: Terms,
    tape: Seq<(i64, i64)>,
    asks: Seq<(i64, i64, i64)>,
    swings: Seq<Swing>,
    ticks: Seq<(i64, i64)>,
    i: int,
    j: int,
)
    requires
        0 <= i < swings.len(),
        0 <= j < ticks.len(),
        s.pairs < 16,
    ensures
        swings[i].t <= ticks[j].0 ==> traded_through(s, w, tape, asks, swings, ticks, i, j)
            == traded_through(
            on_swing(s, w, tape, asks, swings[i]),
            w,
            tape,
            asks,
            swings,
            ticks,
            i + 1,
            j,
        ),
        swings[i].t > ticks[j].0 ==> traded_through(s, w, tape, asks, swings, ticks, i, j)
            == traded_through(
            on_tick(s, w, asks, ticks[j].0 as int, ticks[j].1 as int),
            w,
            tape,
            asks,
            swings,
            ticks,
            i,
            j + 1,
        ),
{
}

/// A fall is measured from the last first leg; a second leg leaves nothing to measure
/// from.
pub proof fn a_first_leg_is_the_anchor(
    s: Sim,
    shares: i64,
    side: PositionSide,
    fill_t: int,
    fill: i64,
    kind: ExtKind,
    reason: Reason,
    d: i64,
)
    ensures
        ({
            let after = bought(s, shares, side, fill_t, fill, kind, reason, d);
            let second = reason == Reason::SwingPeakSecond || reason == Reason::SwingTroughSecond
                || reason == Reason::EarlyOpposite;
            &&& second ==> after.anchor is None
            &&& !reason.completes_pair() ==> after.anchor == Some(
                Anchor { t: fill_t as i64, d, side, kind },
            )
        }),
{
}

} // verus!
