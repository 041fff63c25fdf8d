//! Nothing is decided on what is not known yet.
use vstd::prelude::*;
use super::gap_swing::{deltas, gap_outcome};
use super::sides::PositionSide;
use super::sim::{
    flattened, net_sum, on_swing, on_tick, played, settled, settled_lot, traded_through, Sim,
    Terms, EMERGENCY_LEFT_MS, FIRST_TICK_MS, RAPID_FALL_MS, TICK_MS,
};
use super::sim_laws::{appends_only_exits, closing_appends_only_exits};
use super::swings::{
    confirmed, confirmed_extremes_alternate, detected_swings_alternate, majors,
    majors_are_confirmed, sampled, samples_are_on_the_grid, swings_of, traded, Extreme, Swing,
    GRID_MARGIN_MS, GRID_MS,
};
use super::tape::{ask_known, ask_look_up_is_causal, price_known, price_look_up_is_causal};
use super::venue_swing::{
    clean_prints_stay, deltas_within, in_order, interleaved, merged_swings_alternate,
    swings_together, union_of, venue_deltas, venue_open, venue_outcome,
};
use super::trades::{SimTrade, TradeKind};
use super::window::{outcome_of, start_of, ticks_end, ticks_of, CommittedLot, Outcome};
use crate::units::time_ok;

verus! {

/// Whether two tapes of prices say the same up to `until`.
pub open spec fn prices_agree(a: Seq<(i64, i64)>, b: Seq<(i64, i64)>, until: int) -> bool {
    forall|t: int| t <= until ==> #[trigger] price_known(a, t) == price_known(b, t)
}

/// Whether two tapes of quotes say the same up to `until`.
pub open spec fn asks_agree(a: Seq<(i64, i64, i64)>, b: Seq<(i64, i64, i64)>, until: int) -> bool {
    forall|t: int, side: PositionSide|
        t <= until ==> #[trigger] ask_known(a, t, side) == ask_known(b, t, side)
}

proof fn samples_agree(a: Seq<(i64, i64)>, b: Seq<(i64, i64)>, t: int, until: int, step: int)
    requires
        prices_agree(a, b, until),
    ensures
        sampled(a, t, until, step) == sampled(b, t, until, step),
    decreases (if t < until { until - t } else { 0 }),
{
    if t < until && step > 0 {
        assert(price_known(a, t) == price_known(b, t));
        samples_agree(a, b, t + step, until, step);
    }
}

proof fn traded_agree(
    major: Seq<Extreme>,
    a: Seq<(i64, i64, i64)>,
    b: Seq<(i64, i64, i64)>,
    market_end: int,
    n: int,
    until: int,
)
    requires
        asks_agree(a, b, until),
        0 <= n <= major.len(),
        forall|i: int| 0 <= i < major.len() ==> (#[trigger] major[i]).t <= until,
    ensures
        traded(major, a, market_end, n) == traded(major, b, market_end, n),
    decreases n,
{
    if n > 0 {
        traded_agree(major, a, b, market_end, n - 1, until);
        let e = major[n - 1];
        let side = super::swings::signal_side(e.kind);
        assert(ask_known(a, e.t as int, side) == ask_known(b, e.t as int, side));
    }
}

/// The swings of a window depend on nothing after its end.
pub proof fn swings_agree(
    tape: Seq<(i64, i64)>,
    tape_cut: Seq<(i64, i64)>,
    asks: Seq<(i64, i64, i64)>,
    asks_cut: Seq<(i64, i64, i64)>,
    open_ms: int,
    end_ms: int,
    market_end: int,
)
    requires
        time_ok(open_ms),
        time_ok(end_ms),
        prices_agree(tape, tape_cut, end_ms),
        asks_agree(asks, asks_cut, end_ms),
    ensures
        swings_of(tape, asks, open_ms, end_ms, market_end) == swings_of(
            tape_cut,
            asks_cut,
            open_ms,
            end_ms,
            market_end,
        ),
{
    let from = open_ms + GRID_MARGIN_MS;
    let until = end_ms - GRID_MARGIN_MS;
    assert(prices_agree(tape, tape_cut, until));
    samples_agree(tape, tape_cut, from, until, GRID_MS as int);
    let grid = sampled(tape, from, until, GRID_MS as int);
    samples_are_on_the_grid(tape, from, until, GRID_MS as int);
    confirmed_extremes_alternate(grid);
    let raw = confirmed(grid);
    majors_are_confirmed(raw, raw.len() as int);
    let major = majors(raw, raw.len() as int).kept;
    assert forall|i: int| 0 <= i < major.len() implies (#[trigger] major[i]).t <= end_ms by {
        let j = choose|j: int| 0 <= j < raw.len() && #[trigger] raw[j] == major[i];
        let g = choose|g: int|
            0 <= g < grid.len() && (#[trigger] grid[g]).0 == raw[j].t && grid[g].1 == raw[j].d;
        assert(grid[g].0 < until);
    }
    traded_agree(major, asks, asks_cut, market_end, major.len() as int, end_ms);
}

proof fn trading_agrees(
    s: Sim,
    w: Terms,
    tape: Seq<(i64, i64)>,
    tape_cut: Seq<(i64, i64)>,
    asks: Seq<(i64, i64, i64)>,
    asks_cut: Seq<(i64, i64, i64)>,
    swings: Seq<Swing>,
    ticks: Seq<(i64, i64)>,
    i: int,
    j: int,
)
    requires
        prices_agree(tape, tape_cut, w.end_ms as int),
        asks_agree(asks, asks_cut, w.end_ms as int),
        forall|k: int| 0 <= k < swings.len() ==> (#[trigger] swings[k]).t <= w.end_ms,
        forall|k: int| 0 <= k < ticks.len() ==> (#[trigger] ticks[k]).0 <= w.end_ms,
    ensures
        traded_through(s, w, tape, asks, swings, ticks, i, j) == traded_through(
            s,
            w,
            tape_cut,
            asks_cut,
            swings,
            ticks,
            i,
            j,
        ),
    decreases swings.len() - i + ticks.len() - j,
{
    if i < 0 || j < 0 || (i >= swings.len() && j >= ticks.len()) || i > swings.len() || j
        > ticks.len() || super::sim::is_done(s) {
    } else if super::sim::swing_is_next(swings, ticks, i, j) {
        let sw = swings[i];
        let t = sw.t as int;
        assert(price_known(tape, t) == price_known(tape_cut, t));
        assert(price_known(tape, t - RAPID_FALL_MS) == price_known(tape_cut, t - RAPID_FALL_MS));
        assert(ask_known(asks, t, sw.side) == ask_known(asks_cut, t, sw.side));
        if t + w.delay_ms <= w.end_ms {
            assert(ask_known(asks, t + w.delay_ms, sw.side) == ask_known(
                asks_cut,
                t + w.delay_ms,
                sw.side,
            ));
            assert(price_known(tape, t + w.delay_ms) == price_known(tape_cut, t + w.delay_ms));
        }
        let next = on_swing(s, w, tape, asks, sw);
        assert(next == on_swing(s, w, tape_cut, asks_cut, sw));
        trading_agrees(next, w, tape, tape_cut, asks, asks_cut, swings, ticks, i + 1, j);
    } else {
        let t = ticks[j].0 as int;
        let side = PositionSide::Up;
        assert(ask_known(asks, t, side) == ask_known(asks_cut, t, side));
        if t + w.delay_ms <= w.end_ms {
            assert(ask_known(asks, t + w.delay_ms, side) == ask_known(
                asks_cut,
                t + w.delay_ms,
                side,
            ));
        }
        let next = on_tick(s, w, asks, t, ticks[j].1 as int);
        assert(next == on_tick(s, w, asks_cut, t, ticks[j].1 as int));
        trading_agrees(next, w, tape, tape_cut, asks, asks_cut, swings, ticks, i, j + 1);
    }
}

/// The last time at which a window reads a quote: the end of what has been
/// seen, or the fill of the sale near the close.
pub open spec fn horizon(w: Terms) -> int {
    let sale = w.market_end - EMERGENCY_LEFT_MS + w.delay_ms;
    if sale >= w.end_ms {
        sale
    } else {
        w.end_ms as int
    }
}

/// A trade without what its settlement nets.
pub open spec fn unsettled(t: SimTrade) -> SimTrade {
    if t.kind == TradeKind::Settle {
        SimTrade { net: 0, ..t }
    } else {
        t
    }
}

/// What settlements net.
pub open spec fn settlement_of(trades: Seq<SimTrade>) -> int
    decreases trades.len(),
{
    if trades.len() == 0 {
        0
    } else {
        settlement_of(trades.drop_last()) + (if trades.last().kind == TradeKind::Settle {
            trades.last().net as int
        } else {
            0
        })
    }
}

/// Whether trades are the same but for what settlements net.
pub open spec fn same_trades(a: Seq<SimTrade>, b: Seq<SimTrade>) -> bool {
    &&& a.len() == b.len()
    &&& forall|k: int| 0 <= k < a.len() ==> unsettled(#[trigger] a[k]) == unsettled(b[k])
}

/// Whether outcomes are the same but for what settlements net.
pub open spec fn same_but_settlement(a: Outcome, b: Outcome) -> bool {
    &&& same_trades(a.trades, b.trades)
    &&& a.pairs == b.pairs
    &&& a.missed == b.missed
    &&& a.total_pnl - settlement_of(a.trades) == b.total_pnl - settlement_of(b.trades)
}

proof fn totals_are_the_same(a: Seq<SimTrade>, b: Seq<SimTrade>)
    requires
        same_trades(a, b),
    ensures
        net_sum(a) - settlement_of(a) == net_sum(b) - settlement_of(b),
    decreases a.len(),
{
    if a.len() > 0 {
        let n = a.len() - 1;
        assert(unsettled(a[n]) == unsettled(b[n]));
        assert forall|k: int| 0 <= k < n implies unsettled(#[trigger] a.drop_last()[k])
            == unsettled(b.drop_last()[k]) by {
            assert(unsettled(a[k]) == unsettled(b[k]));
        }
        totals_are_the_same(a.drop_last(), b.drop_last());
    }
}

proof fn settling_moves_only_nets(
    a: Sim,
    b: Sim,
    winner: Option<PositionSide>,
    last: (i64, i64, i64),
    other_winner: Option<PositionSide>,
    other_last: (i64, i64, i64),
    t: int,
    i: int,
)
    requires
        0 <= i,
        a.lots == b.lots,
        same_trades(a.trades, b.trades),
        a.pairs == b.pairs,
        a.missed == b.missed,
    ensures
        ({
            let after = settled(a, winner, last, t, i);
            let other = settled(b, other_winner, other_last, t, i);
            &&& same_trades(after.trades, other.trades)
            &&& after.pairs == other.pairs
            &&& after.missed == other.missed
        }),
    decreases a.lots.len() - i,
{
    if i < a.lots.len() {
        if a.lots[i].shares > a.lots[i].paired {
            settling_moves_only_nets(
                settled_lot(a, i, winner, last, t),
                settled_lot(b, i, other_winner, other_last, t),
                winner,
                last,
                other_winner,
                other_last,
                t,
                i + 1,
            );
        } else {
            settling_moves_only_nets(a, b, winner, last, other_winner, other_last, t, i + 1);
        }
    }
}

proof fn settling_agrees(
    s: Sim,
    winner: PositionSide,
    last: (i64, i64, i64),
    other: (i64, i64, i64),
    t: int,
    i: int,
)
    requires
        0 <= i,
    ensures
        settled(s, Some(winner), last, t, i) == settled(s, Some(winner), other, t, i),
    decreases s.lots.len() - i,
{
    if i < s.lots.len() {
        if s.lots[i].shares > s.lots[i].paired {
            let next = settled_lot(s, i, Some(winner), last, t);
            assert(next == settled_lot(s, i, Some(winner), other, t));
            settling_agrees(next, winner, last, other, t, i + 1);
        } else {
            settling_agrees(s, winner, last, other, t, i + 1);
        }
    }
}

/// The sale near the close reads no quote after its fill.
pub proof fn the_sale_reads_nothing_ahead(
    s: Sim,
    w: Terms,
    asks: Seq<(i64, i64, i64)>,
    asks_cut: Seq<(i64, i64, i64)>,
)
    requires
        asks_agree(asks, asks_cut, w.market_end - EMERGENCY_LEFT_MS + w.delay_ms),
    ensures
        flattened(s, w, asks) == flattened(s, w, asks_cut),
{
    let t = w.market_end - EMERGENCY_LEFT_MS + w.delay_ms;
    assert(ask_known(asks, t, PositionSide::Up) == ask_known(asks_cut, t, PositionSide::Up));
    assert(ask_known(asks, t, PositionSide::Down) == ask_known(asks_cut, t, PositionSide::Down));
}

/// What a window comes to depends on no price after its end and on no quote
/// after its horizon, nor on who won, but for what settlements net; and that
/// depends on nothing else but who won or, where that is not known, on the last
/// quote.
pub proof fn outcome_is_causal(
    w: Terms,
    tape: Seq<(i64, i64)>,
    tape_cut: Seq<(i64, i64)>,
    asks: Seq<(i64, i64, i64)>,
    asks_cut: Seq<(i64, i64, i64)>,
    swings: Seq<Swing>,
    winner: Option<PositionSide>,
    other: Option<PositionSide>,
    commits: Seq<CommittedLot>,
)
    requires
        time_ok(w.open_ms as int),
        time_ok(w.end_ms as int),
        time_ok(w.market_end as int),
        prices_agree(tape, tape_cut, w.end_ms as int),
        asks_agree(asks, asks_cut, horizon(w)),
        forall|k: int| 0 <= k < swings.len() ==> (#[trigger] swings[k]).t <= w.end_ms,
    ensures
        ({
            let a = outcome_of(w, tape, asks, swings, winner, commits);
            let b = outcome_of(w, tape_cut, asks_cut, swings, other, commits);
            &&& same_but_settlement(a, b)
            &&& winner == other && (winner is Some || asks[asks.len() - 1] == asks_cut[asks_cut.len()
                - 1]) ==> a == b
        }),
{
    assert(prices_agree(tape, tape_cut, ticks_end(w)));
    samples_agree(tape, tape_cut, w.open_ms + FIRST_TICK_MS, ticks_end(w), TICK_MS as int);
    let ticks = ticks_of(tape, w);
    samples_are_on_the_grid(tape, w.open_ms + FIRST_TICK_MS, ticks_end(w), TICK_MS as int);
    assert(asks_agree(asks, asks_cut, w.end_ms as int));
    let s = start_of(commits, w);
    trading_agrees(s, w, tape, tape_cut, asks, asks_cut, swings, ticks, 0, 0);
    let through = traded_through(s, w, tape, asks, swings, ticks, 0, 0);
    assert(asks_agree(asks, asks_cut, w.market_end - EMERGENCY_LEFT_MS + w.delay_ms));
    the_sale_reads_nothing_ahead(through, w, asks, asks_cut);
    let flat = flattened(through, w, asks);
    let last = asks[asks.len() - 1];
    let other_last = asks_cut[asks_cut.len() - 1];
    let t = w.end_ms - 1;
    settling_moves_only_nets(flat, flat, winner, last, other, other_last, t, 0);
    totals_are_the_same(
        settled(flat, winner, last, t, 0).trades,
        settled(flat, other, other_last, t, 0).trades,
    );
    if winner == other {
        if let Some(won) = winner {
            settling_agrees(flat, won, last, other_last, t, 0);
        }
    }
}

/// Whether a trade takes a position: a buy, or a pair.
pub open spec fn is_entry(t: SimTrade) -> bool {
    t.kind == TradeKind::Buy || t.kind == TradeKind::Pair
}

/// The buys and the pairs among trades.
pub open spec fn entries_of(trades: Seq<SimTrade>) -> Seq<SimTrade>
    decreases trades.len(),
{
    if trades.len() == 0 {
        Seq::empty()
    } else if is_entry(trades.last()) {
        entries_of(trades.drop_last()).push(trades.last())
    } else {
        entries_of(trades.drop_last())
    }
}

/// Whether two outcomes have the same buys, pairs and misses.
pub open spec fn same_entries(a: Outcome, b: Outcome) -> bool {
    &&& entries_of(a.trades) == entries_of(b.trades)
    &&& a.pairs == b.pairs
    &&& a.missed == b.missed
}

proof fn exits_are_no_entries(s: Sim, after: Sim, n: int)
    requires
        appends_only_exits(s, after),
        s.trades.len() <= n <= after.trades.len(),
    ensures
        entries_of(after.trades.take(n)) == entries_of(s.trades),
    decreases n,
{
    let head = after.trades.take(n);
    if n > s.trades.len() {
        exits_are_no_entries(s, after, n - 1);
        assert(head.drop_last() =~= after.trades.take(n - 1));
        assert(head.last() == after.trades[n - 1]);
    } else {
        assert(head =~= s.trades);
    }
}

/// What a window buys, pairs and misses depends on no price and no quote after
/// its end, nor on who won.
pub proof fn entries_are_causal(
    w: Terms,
    tape: Seq<(i64, i64)>,
    tape_cut: Seq<(i64, i64)>,
    asks: Seq<(i64, i64, i64)>,
    asks_cut: Seq<(i64, i64, i64)>,
    swings: Seq<Swing>,
    winner: Option<PositionSide>,
    other: Option<PositionSide>,
    commits: Seq<CommittedLot>,
)
    requires
        time_ok(w.open_ms as int),
        time_ok(w.end_ms as int),
        prices_agree(tape, tape_cut, w.end_ms as int),
        asks_agree(asks, asks_cut, w.end_ms as int),
        forall|k: int| 0 <= k < swings.len() ==> (#[trigger] swings[k]).t <= w.end_ms,
    ensures
        same_entries(
            outcome_of(w, tape, asks, swings, winner, commits),
            outcome_of(w, tape_cut, asks_cut, swings, other, commits),
        ),
{
    assert(prices_agree(tape, tape_cut, ticks_end(w)));
    samples_agree(tape, tape_cut, w.open_ms + FIRST_TICK_MS, ticks_end(w), TICK_MS as int);
    let ticks = ticks_of(tape, w);
    samples_are_on_the_grid(tape, w.open_ms + FIRST_TICK_MS, ticks_end(w), TICK_MS as int);
    let s = start_of(commits, w);
    trading_agrees(s, w, tape, tape_cut, asks, asks_cut, swings, ticks, 0, 0);
    let through = traded_through(s, w, tape, asks, swings, ticks, 0, 0);
    closing_appends_only_exits(through, w, asks, winner);
    closing_appends_only_exits(through, w, asks_cut, other);
    let a = played(s, w, tape, asks, swings, ticks, winner);
    let b = played(s, w, tape_cut, asks_cut, swings, ticks, other);
    exits_are_no_entries(through, a, a.trades.len() as int);
    exits_are_no_entries(through, b, b.trades.len() as int);
    assert(a.trades.take(a.trades.len() as int) =~= a.trades);
    assert(b.trades.take(b.trades.len() as int) =~= b.trades);
}

/// Who won changes nothing of a gap-swing window but what settlements net, and
/// the total by that.
pub proof fn the_winner_moves_only_settlement(
    w: Terms,
    ptb: Option<i64>,
    btc: Seq<(i64, i64)>,
    asks: Seq<(i64, i64, i64)>,
    winner: Option<PositionSide>,
    other: Option<PositionSide>,
    commits: Seq<CommittedLot>,
)
    requires
        time_ok(w.open_ms as int),
        time_ok(w.end_ms as int),
        time_ok(w.market_end as int),
    ensures
        same_but_settlement(
            gap_outcome(w, ptb, btc, asks, winner, commits),
            gap_outcome(w, ptb, btc, asks, other, commits),
        ),
{
    if ptb is Some && btc.len() > 0 && asks.len() > 0 {
        let tape = deltas(btc, ptb->0 as int);
        let open_ms = w.open_ms as int;
        let end_ms = w.end_ms as int;
        let market_end = w.market_end as int;
        let swings = swings_of(tape, asks, open_ms, end_ms, market_end);
        detected_swings_alternate(tape, asks, open_ms, end_ms, market_end);
        outcome_is_causal(w, tape, tape, asks, asks, swings, winner, other, commits);
    }
}

/// Who won changes nothing of a venue-swing window but what settlements net, and
/// the total by that.
pub proof fn the_winner_moves_only_venue_settlement(
    w: Terms,
    binance: Seq<(i64, i64)>,
    coinbase: Seq<(i64, i64)>,
    asks: Seq<(i64, i64, i64)>,
    winner: Option<PositionSide>,
    other: Option<PositionSide>,
    commits: Seq<CommittedLot>,
)
    requires
        time_ok(w.open_ms as int),
        time_ok(w.end_ms as int),
        time_ok(w.market_end as int),
    ensures
        same_but_settlement(
            venue_outcome(w, binance, coinbase, asks, winner, commits),
            venue_outcome(w, binance, coinbase, asks, other, commits),
        ),
{
    let bn = venue_deltas(binance, w.open_ms, w.end_ms);
    let cb = venue_deltas(coinbase, w.open_ms, w.end_ms);
    let swings = venue_swings_in_time(w, bn, cb, asks);
    let tape = interleaved(bn, cb, 0, 0);
    outcome_is_causal(w, tape, tape, asks, asks, swings, winner, other, commits);
}

/// A gap-swing window reads nothing ahead: cutting its prices after its end
/// and its quotes after its horizon changes nothing, but for what settlements net
/// where it is not known who won.
pub proof fn gap_window_reads_nothing_ahead(
    w: Terms,
    ptb: i64,
    btc: Seq<(i64, i64)>,
    n: int,
    asks: Seq<(i64, i64, i64)>,
    m: int,
    winner: Option<PositionSide>,
    commits: Seq<CommittedLot>,
)
    requires
        time_ok(w.open_ms as int),
        time_ok(w.end_ms as int),
        time_ok(w.market_end as int),
        0 < n <= btc.len(),
        n < btc.len() ==> btc[n].0 > w.end_ms,
        0 < m <= asks.len(),
        m < asks.len() ==> asks[m].0 > horizon(w),
    ensures
        ({
            let whole = gap_outcome(w, Some(ptb), btc, asks, winner, commits);
            let cut = gap_outcome(w, Some(ptb), btc.take(n), asks.take(m), winner, commits);
            same_but_settlement(whole, cut) && (winner is Some ==> whole == cut)
        }),
{
    let tape = deltas(btc, ptb as int);
    let tape_cut = deltas(btc.take(n), ptb as int);
    assert(tape_cut =~= tape.take(n));
    assert forall|t: int| t <= w.end_ms implies #[trigger] price_known(tape, t) == price_known(
        tape_cut,
        t,
    ) by {
        price_look_up_is_causal(tape, n, t);
    }
    asks_agree_until_the_next(asks, m, horizon(w));
    let open_ms = w.open_ms as int;
    let end_ms = w.end_ms as int;
    let market_end = w.market_end as int;
    assert(asks_agree(asks, asks.take(m), end_ms));
    swings_agree(tape, tape_cut, asks, asks.take(m), open_ms, end_ms, market_end);
    let swings = swings_of(tape, asks, open_ms, end_ms, market_end);
    detected_swings_alternate(tape, asks, open_ms, end_ms, market_end);
    outcome_is_causal(w, tape, tape_cut, asks, asks.take(m), swings, winner, winner, commits);
}

/// Nothing that comes later changes a gap-swing window: prices appended after its
/// end and quotes appended after its horizon change nothing, but for what
/// settlements net where it is not known who won.
pub proof fn gap_window_ignores_what_comes_later(
    w: Terms,
    ptb: i64,
    btc: Seq<(i64, i64)>,
    later: Seq<(i64, i64)>,
    asks: Seq<(i64, i64, i64)>,
    later_asks: Seq<(i64, i64, i64)>,
    winner: Option<PositionSide>,
    commits: Seq<CommittedLot>,
)
    requires
        time_ok(w.open_ms as int),
        time_ok(w.end_ms as int),
        time_ok(w.market_end as int),
        btc.len() > 0,
        later.len() > 0 ==> later[0].0 > w.end_ms,
        asks.len() > 0,
        later_asks.len() > 0 ==> later_asks[0].0 > horizon(w),
    ensures
        ({
            let known = gap_outcome(w, Some(ptb), btc, asks, winner, commits);
            let more = gap_outcome(
                w,
                Some(ptb),
                btc + later,
                asks + later_asks,
                winner,
                commits,
            );
            same_but_settlement(more, known) && (winner is Some ==> more == known)
        }),
{
    let n = btc.len() as int;
    let m = asks.len() as int;
    assert((btc + later).take(n) =~= btc);
    assert((asks + later_asks).take(m) =~= asks);
    gap_window_reads_nothing_ahead(
        w,
        ptb,
        btc + later,
        n,
        asks + later_asks,
        m,
        winner,
        commits,
    );
}

/// What a gap-swing window buys, pairs and misses is known by its end: prices and
/// quotes appended after it change none of it, nor does who won.
pub proof fn gap_entries_are_known_by_the_end(
    w: Terms,
    ptb: i64,
    btc: Seq<(i64, i64)>,
    later: Seq<(i64, i64)>,
    asks: Seq<(i64, i64, i64)>,
    later_asks: Seq<(i64, i64, i64)>,
    winner: Option<PositionSide>,
    other: Option<PositionSide>,
    commits: Seq<CommittedLot>,
)
    requires
        time_ok(w.open_ms as int),
        time_ok(w.end_ms as int),
        btc.len() > 0,
        later.len() > 0 ==> later[0].0 > w.end_ms,
        asks.len() > 0,
        later_asks.len() > 0 ==> later_asks[0].0 > w.end_ms,
    ensures
        same_entries(
            gap_outcome(w, Some(ptb), btc + later, asks + later_asks, winner, commits),
            gap_outcome(w, Some(ptb), btc, asks, other, commits),
        ),
{
    let all = btc + later;
    let all_asks = asks + later_asks;
    let n = btc.len() as int;
    let m = asks.len() as int;
    assert(all.take(n) =~= btc);
    assert(all_asks.take(m) =~= asks);
    let tape = deltas(all, ptb as int);
    let tape_cut = deltas(btc, ptb as int);
    assert(tape_cut =~= tape.take(n));
    let open_ms = w.open_ms as int;
    let end_ms = w.end_ms as int;
    let market_end = w.market_end as int;
    assert forall|t: int| t <= end_ms implies #[trigger] price_known(tape, t) == price_known(
        tape_cut,
        t,
    ) by {
        price_look_up_is_causal(tape, n, t);
    }
    asks_agree_until_the_next(all_asks, m, end_ms);
    swings_agree(tape, tape_cut, all_asks, asks, open_ms, end_ms, market_end);
    let swings = swings_of(tape, all_asks, open_ms, end_ms, market_end);
    detected_swings_alternate(tape, all_asks, open_ms, end_ms, market_end);
    entries_are_causal(w, tape, tape_cut, all_asks, asks, swings, winner, other, commits);
}

proof fn asks_agree_until_the_next(asks: Seq<(i64, i64, i64)>, m: int, until: int)
    requires
        0 < m <= asks.len(),
        m < asks.len() ==> asks[m].0 > until,
    ensures
        asks_agree(asks, asks.take(m), until),
{
    assert forall|t: int, side: PositionSide| t <= until implies #[trigger] ask_known(
        asks,
        t,
        side,
    ) == ask_known(asks.take(m), t, side) by {
        ask_look_up_is_causal(asks, m, t, side);
    }
}

proof fn later_prints_do_not_count(
    prints: Seq<(i64, i64)>,
    n: int,
    open: int,
    open_ms: int,
    end_ms: int,
    k: int,
)
    requires
        0 <= n <= k <= prints.len(),
        in_order(prints),
        n < prints.len() ==> prints[n].0 > end_ms,
    ensures
        deltas_within(prints, open, open_ms, end_ms, k) == deltas_within(
            prints.take(n),
            open,
            open_ms,
            end_ms,
            n,
        ),
    decreases k,
{
    if k > n {
        later_prints_do_not_count(prints, n, open, open_ms, end_ms, k - 1);
        assert(prints[n].0 <= prints[k - 1].0);
    } else if k > 0 {
        cut_prints_count_the_same(prints, n, open, open_ms, end_ms, k);
    }
}

proof fn cut_prints_count_the_same(
    prints: Seq<(i64, i64)>,
    n: int,
    open: int,
    open_ms: int,
    end_ms: int,
    k: int,
)
    requires
        0 <= k <= n <= prints.len(),
    ensures
        deltas_within(prints, open, open_ms, end_ms, k) == deltas_within(
            prints.take(n),
            open,
            open_ms,
            end_ms,
            k,
        ),
    decreases k,
{
    if k > 0 {
        cut_prints_count_the_same(prints, n, open, open_ms, end_ms, k - 1);
        assert(prints.take(n)[k - 1] == prints[k - 1]);
    }
}

/// Whether a venue's prints are in order and above nothing.
pub open spec fn prints_clean(prints: Seq<(i64, i64)>) -> bool {
    in_order(prints) && forall|i: int| 0 <= i < prints.len() ==> (#[trigger] prints[i]).1 > 0
}

/// The deltas of a venue depend on no print after the end of the window.
pub proof fn venue_deltas_read_nothing_ahead(
    prints: Seq<(i64, i64)>,
    n: int,
    open_ms: i64,
    end_ms: i64,
)
    requires
        prints_clean(prints),
        open_ms <= end_ms,
        0 <= n <= prints.len(),
        n == 0 ==> prints.len() == 0,
        n < prints.len() ==> prints[n].0 > end_ms,
    ensures
        venue_deltas(prints, open_ms, end_ms) == venue_deltas(prints.take(n), open_ms, end_ms),
{
    let cut = prints.take(n);
    clean_prints_stay(prints, prints.len() as int);
    assert(prints.take(prints.len() as int) =~= prints);
    clean_prints_stay(cut, n);
    assert(cut.take(n) =~= cut);
    price_look_up_is_causal(prints, n, open_ms as int);
    let open = venue_open(prints, open_ms as int) as int;
    if n > 0 {
        assert(cut[0] == prints[0]);
    }
    later_prints_do_not_count(
        prints,
        n,
        open,
        open_ms as int,
        end_ms as int,
        prints.len() as int,
    );
}

/// A venue-swing window reads nothing ahead: cutting both venues' prints after
/// its end and the quotes after its horizon changes nothing, but for what
/// settlements net where it is not known who won.
pub proof fn venue_window_reads_nothing_ahead(
    w: Terms,
    binance: Seq<(i64, i64)>,
    n: int,
    coinbase: Seq<(i64, i64)>,
    k: int,
    asks: Seq<(i64, i64, i64)>,
    m: int,
    winner: Option<PositionSide>,
    commits: Seq<CommittedLot>,
)
    requires
        time_ok(w.open_ms as int),
        time_ok(w.end_ms as int),
        time_ok(w.market_end as int),
        w.open_ms <= w.end_ms,
        prints_clean(binance),
        prints_clean(coinbase),
        0 <= n <= binance.len(),
        n == 0 ==> binance.len() == 0,
        n < binance.len() ==> binance[n].0 > w.end_ms,
        0 <= k <= coinbase.len(),
        k == 0 ==> coinbase.len() == 0,
        k < coinbase.len() ==> coinbase[k].0 > w.end_ms,
        0 < m <= asks.len(),
        m < asks.len() ==> asks[m].0 > horizon(w),
    ensures
        ({
            let whole = venue_outcome(w, binance, coinbase, asks, winner, commits);
            let cut = venue_outcome(
                w,
                binance.take(n),
                coinbase.take(k),
                asks.take(m),
                winner,
                commits,
            );
            same_but_settlement(whole, cut) && (winner is Some ==> whole == cut)
        }),
{
    venue_deltas_read_nothing_ahead(binance, n, w.open_ms, w.end_ms);
    venue_deltas_read_nothing_ahead(coinbase, k, w.open_ms, w.end_ms);
    let bn = venue_deltas(binance, w.open_ms, w.end_ms);
    let cb = venue_deltas(coinbase, w.open_ms, w.end_ms);
    let cut = asks.take(m);
    asks_agree_until_the_next(asks, m, horizon(w));
    let open_ms = w.open_ms as int;
    let end_ms = w.end_ms as int;
    let market_end = w.market_end as int;
    assert(asks_agree(asks, cut, end_ms));
    swings_agree(bn, bn, asks, cut, open_ms, end_ms, market_end);
    swings_agree(cb, cb, asks, cut, open_ms, end_ms, market_end);
    let swings = venue_swings_in_time(w, bn, cb, asks);
    let tape = interleaved(bn, cb, 0, 0);
    outcome_is_causal(w, tape, tape, asks, cut, swings, winner, winner, commits);
}

/// Nothing that comes later changes a venue-swing window: prints appended after
/// its end and quotes appended after its horizon change nothing, but for what
/// settlements net where it is not known who won.
pub proof fn venue_window_ignores_what_comes_later(
    w: Terms,
    binance: Seq<(i64, i64)>,
    later_binance: Seq<(i64, i64)>,
    coinbase: Seq<(i64, i64)>,
    later_coinbase: Seq<(i64, i64)>,
    asks: Seq<(i64, i64, i64)>,
    later_asks: Seq<(i64, i64, i64)>,
    winner: Option<PositionSide>,
    commits: Seq<CommittedLot>,
)
    requires
        time_ok(w.open_ms as int),
        time_ok(w.end_ms as int),
        time_ok(w.market_end as int),
        w.open_ms <= w.end_ms,
        prints_clean(binance + later_binance),
        prints_clean(coinbase + later_coinbase),
        binance.len() == 0 ==> later_binance.len() == 0,
        later_binance.len() > 0 ==> later_binance[0].0 > w.end_ms,
        coinbase.len() == 0 ==> later_coinbase.len() == 0,
        later_coinbase.len() > 0 ==> later_coinbase[0].0 > w.end_ms,
        asks.len() > 0,
        later_asks.len() > 0 ==> later_asks[0].0 > horizon(w),
    ensures
        ({
            let known = venue_outcome(w, binance, coinbase, asks, winner, commits);
            let more = venue_outcome(
                w,
                binance + later_binance,
                coinbase + later_coinbase,
                asks + later_asks,
                winner,
                commits,
            );
            same_but_settlement(more, known) && (winner is Some ==> more == known)
        }),
{
    let n = binance.len() as int;
    let k = coinbase.len() as int;
    let m = asks.len() as int;
    assert((binance + later_binance).take(n) =~= binance);
    assert((coinbase + later_coinbase).take(k) =~= coinbase);
    assert((asks + later_asks).take(m) =~= asks);
    venue_window_reads_nothing_ahead(
        w,
        binance + later_binance,
        n,
        coinbase + later_coinbase,
        k,
        asks + later_asks,
        m,
        winner,
        commits,
    );
}

/// What a venue-swing window buys, pairs and misses is known by its end: prints
/// and quotes appended after it change none of it, nor does who won.
pub proof fn venue_entries_are_known_by_the_end(
    w: Terms,
    binance: Seq<(i64, i64)>,
    later_binance: Seq<(i64, i64)>,
    coinbase: Seq<(i64, i64)>,
    later_coinbase: Seq<(i64, i64)>,
    asks: Seq<(i64, i64, i64)>,
    later_asks: Seq<(i64, i64, i64)>,
    winner: Option<PositionSide>,
    other: Option<PositionSide>,
    commits: Seq<CommittedLot>,
)
    requires
        time_ok(w.open_ms as int),
        time_ok(w.end_ms as int),
        w.open_ms <= w.end_ms,
        prints_clean(binance + later_binance),
        prints_clean(coinbase + later_coinbase),
        binance.len() == 0 ==> later_binance.len() == 0,
        later_binance.len() > 0 ==> later_binance[0].0 > w.end_ms,
        coinbase.len() == 0 ==> later_coinbase.len() == 0,
        later_coinbase.len() > 0 ==> later_coinbase[0].0 > w.end_ms,
        asks.len() > 0,
        later_asks.len() > 0 ==> later_asks[0].0 > w.end_ms,
    ensures
        same_entries(
            venue_outcome(
                w,
                binance + later_binance,
                coinbase + later_coinbase,
                asks + later_asks,
                winner,
                commits,
            ),
            venue_outcome(w, binance, coinbase, asks, other, commits),
        ),
{
    let n = binance.len() as int;
    let k = coinbase.len() as int;
    let m = asks.len() as int;
    let all_asks = asks + later_asks;
    assert((binance + later_binance).take(n) =~= binance);
    assert((coinbase + later_coinbase).take(k) =~= coinbase);
    assert(all_asks.take(m) =~= asks);
    venue_deltas_read_nothing_ahead(binance + later_binance, n, w.open_ms, w.end_ms);
    venue_deltas_read_nothing_ahead(coinbase + later_coinbase, k, w.open_ms, w.end_ms);
    let bn = venue_deltas(binance, w.open_ms, w.end_ms);
    let cb = venue_deltas(coinbase, w.open_ms, w.end_ms);
    let open_ms = w.open_ms as int;
    let end_ms = w.end_ms as int;
    let market_end = w.market_end as int;
    asks_agree_until_the_next(all_asks, m, end_ms);
    swings_agree(bn, bn, all_asks, asks, open_ms, end_ms, market_end);
    swings_agree(cb, cb, all_asks, asks, open_ms, end_ms, market_end);
    let swings = venue_swings_in_time(w, bn, cb, all_asks);
    let tape = interleaved(bn, cb, 0, 0);
    entries_are_causal(w, tape, tape, all_asks, asks, swings, winner, other, commits);
}

/// The merged swings of a window are within it.
proof fn venue_swings_in_time(
    w: Terms,
    bn: Seq<(i64, i64)>,
    cb: Seq<(i64, i64)>,
    asks: Seq<(i64, i64, i64)>,
) -> (swings: Seq<Swing>)
    requires
        time_ok(w.open_ms as int),
        time_ok(w.end_ms as int),
    ensures
        swings == union_of(
            swings_of(bn, asks, w.open_ms as int, w.end_ms as int, w.market_end as int),
            swings_of(cb, asks, w.open_ms as int, w.end_ms as int, w.market_end as int),
        ),
        forall|i: int| 0 <= i < swings.len() ==> (#[trigger] swings[i]).t <= w.end_ms,
{
    let open_ms = w.open_ms as int;
    let end_ms = w.end_ms as int;
    let market_end = w.market_end as int;
    let a = swings_of(bn, asks, open_ms, end_ms, market_end);
    let b = swings_of(cb, asks, open_ms, end_ms, market_end);
    detected_swings_alternate(bn, asks, open_ms, end_ms, market_end);
    detected_swings_alternate(cb, asks, open_ms, end_ms, market_end);
    let all = swings_together(a, b, 0, 0);
    together_in_time(a, b, 0, 0, end_ms);
    merged_swings_alternate(all, all.len() as int);
    let swings = union_of(a, b);
    assert forall|i: int| 0 <= i < swings.len() implies (#[trigger] swings[i]).t <= w.end_ms by {
        assert(all.contains(swings[i]));
        let c = choose|c: int| 0 <= c < all.len() && all[c] == swings[i];
        assert(all[c].t <= end_ms);
    }
    swings
}

proof fn together_in_time(a: Seq<Swing>, b: Seq<Swing>, i: int, j: int, until: int)
    requires
        0 <= i <= a.len(),
        0 <= j <= b.len(),
        forall|c: int| 0 <= c < a.len() ==> (#[trigger] a[c]).t < until,
        forall|c: int| 0 <= c < b.len() ==> (#[trigger] b[c]).t < until,
    ensures
        forall|c: int|
            0 <= c < swings_together(a, b, i, j).len() ==> (#[trigger] swings_together(
                a,
                b,
                i,
                j,
            )[c]).t <= until,
    decreases a.len() - i + b.len() - j,
{
    if i == a.len() && j == b.len() {
    } else if i < a.len() && (j == b.len() || a[i].t <= b[j].t) {
        together_in_time(a, b, i + 1, j, until);
        let rest = swings_together(a, b, i + 1, j);
        let all = swings_together(a, b, i, j);
        assert forall|c: int| 0 <= c < all.len() implies (#[trigger] all[c]).t <= until by {
            if c > 0 {
                assert(all[c] == rest[c - 1]);
            }
        }
    } else {
        together_in_time(a, b, i, j + 1, until);
        let rest = swings_together(a, b, i, j + 1);
        let all = swings_together(a, b, i, j);
        assert forall|c: int| 0 <= c < all.len() implies (#[trigger] all[c]).t <= until by {
            if c > 0 {
                assert(all[c] == rest[c - 1]);
            }
        }
    }
}

} // verus!
