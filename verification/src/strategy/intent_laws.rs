//! What a live window asks for.
use vstd::prelude::*;
use crate::fifo::{
    can_match, first_open, first_open_finds_the_first, match_size, one_match_closes_a_holding,
    open_count,
};
use crate::units::magnitude;
use super::gap_swing::{self, GapState};
use super::intents::{
    action_of, anchor_of, asks_for, commits_after, commits_bought, commits_paired,
    commits_paired_once, commits_sold, emit_step, emitted_through, key_of, open_in, open_on,
    pairing_commits_matches_the_book, Intents,
};
use super::pairing_laws::a_limit_is_in_whole_cents;
use super::sides::PositionSide;
use super::sim::Terms;
use super::sim_laws::every_buy_is_of_the_size;
use super::swings::swings_of;
use super::tape::price_known;
use super::trades::{BotAction, Reason, SimTrade, TradeKind};
use super::venue_engine::{self, VenueState};
use super::venue_swing::{interleaved, union_of, venue_deltas, venue_outcome};
use super::window::{commit_book, start_of, ticks_of, CommittedLot};

verus! {

/// Whether a trade's reason is that of a second leg.
pub open spec fn second(tr: SimTrade) -> bool {
    tr.reason == Reason::SwingPeakSecond || tr.reason == Reason::SwingTroughSecond || tr.reason
        == Reason::EarlyOpposite
}

/// A trade is asked for if and only if its time has come, it has not been asked
/// for, and the fills in place allow it: a first leg with nothing open, a second
/// leg with the other token open, a sale with its own token open.  Pairs and
/// settlements are never asked for.
pub proof fn a_trade_is_asked_for_when_it_is_due(b: Intents, now: int, tr: SimTrade)
    ensures
        asks_for(b, now, tr) <==> {
            &&& tr.t <= now
            &&& !b.emitted.contains(key_of(tr))
            &&& tr.kind == TradeKind::Buy || tr.kind == TradeKind::Sell
            &&& tr.kind == TradeKind::Buy && !second(tr) ==> open_in(b.commits) <= 0
            &&& tr.kind == TradeKind::Buy && second(tr) && tr.side == PositionSide::Up ==> open_on(
                b.commits,
                PositionSide::Down,
            ) > 0
            &&& tr.kind == TradeKind::Buy && second(tr) && tr.side == PositionSide::Down ==> open_on(
                b.commits,
                PositionSide::Up,
            ) > 0
            &&& tr.kind == TradeKind::Sell ==> open_on(b.commits, tr.side) > 0
        },
{
}

/// What is asked for follows the trade: a first leg is an entry, a second leg a
/// pair, a sale a sale, of the trade's token and reason; signalled the delay before
/// its fill, and limited to 2 cents above it in whole cents from 1 to 99.
pub proof fn an_order_follows_its_trade(tr: SimTrade, delay: int)
    requires
        i64::MIN <= tr.t - delay <= i64::MAX,
    ensures
        ({
            let limit = match action_of(tr, delay) {
                BotAction::BuyEntry { worst_ask, .. } => worst_ask,
                BotAction::BuyPair { worst_ask, .. } => worst_ask,
                BotAction::SellFlatten { worst_ask, .. } => worst_ask,
            };
            let signal = (tr.t - delay) as i64;
            let order = if tr.kind == TradeKind::Sell {
                BotAction::SellFlatten {
                    side: tr.side,
                    signal_t: signal,
                    worst_ask: limit,
                    reason: tr.reason,
                }
            } else if second(tr) {
                BotAction::BuyPair {
                    side: tr.side,
                    signal_t: signal,
                    worst_ask: limit,
                    reason: tr.reason,
                }
            } else {
                BotAction::BuyEntry {
                    side: tr.side,
                    signal_t: signal,
                    worst_ask: limit,
                    reason: tr.reason,
                }
            };
            &&& action_of(tr, delay) == order
            &&& limit % 10_000_000 == 0
            &&& 10_000_000 <= limit <= 990_000_000
            &&& 0 <= tr.fill <= 970_000_000 ==> magnitude(2 * (limit - (tr.fill + 20_000_000)))
                <= 10_000_000
            &&& tr.fill >= 970_000_000 ==> limit == 990_000_000
        }),
{
    a_limit_is_in_whole_cents(tr.fill + 20_000_000);
}

/// Two trades are the same order if and only if they agree in kind, side and
/// reason, and in their time unless they are falls that complete a pair.
pub proof fn orders_are_told_apart(a: SimTrade, b: SimTrade)
    ensures
        key_of(a) == key_of(b) <==> a.kind == b.kind && a.side == b.side && a.reason == b.reason && (
        a.t == b.t || a.reason == Reason::EarlyOpposite),
{
}

/// Asking for a trade remembers it, adds its order to those to hand out, and its
/// fill to those in place; a trade that is not asked for changes nothing.
pub proof fn asking_remembers_the_trade(
    b: Intents,
    tape: Seq<(i64, i64)>,
    open_ms: int,
    delay: int,
    now: int,
    tr: SimTrade,
)
    ensures
        ({
            let after = emit_step(b, tape, open_ms, delay, now, tr);
            &&& !asks_for(b, now, tr) ==> after == b
            &&& asks_for(b, now, tr) ==> {
                &&& after.emitted == b.emitted.push(key_of(tr))
                &&& after.pending == b.pending.push(action_of(tr, delay))
                &&& after.commits == commits_after(b.commits, tape, open_ms, delay, tr)
            }
        }),
{
}

/// The trades of a play are gone through one after the other, all of them.
pub proof fn trades_are_gone_through(
    b: Intents,
    tape: Seq<(i64, i64)>,
    open_ms: int,
    delay: int,
    now: int,
    trades: Seq<SimTrade>,
    n: int,
)
    requires
        0 < n <= trades.len(),
    ensures
        emitted_through(b, tape, open_ms, delay, now, trades, n) == emit_step(
            emitted_through(b, tape, open_ms, delay, now, trades, n - 1),
            tape,
            open_ms,
            delay,
            now,
            trades[n - 1],
        ),
        emitted_through(b, tape, open_ms, delay, now, trades, 0) == b,
{
}

/// A bought fill is added with its token, size, price and time; only a second leg
/// is paired off.
pub proof fn a_bought_fill_is_added(
    commits: Seq<CommittedLot>,
    side: PositionSide,
    shares: i64,
    fill: i64,
    fill_t: i64,
    is_pair: bool,
    anchor_d: i64,
)
    ensures
        ({
            let after = commits_bought(commits, side, shares, fill, fill_t, is_pair, anchor_d);
            let n = commits.len() as int;
            &&& after.len() == n + 1
            &&& after[n].side == side
            &&& after[n].shares == shares
            &&& after[n].fill == fill
            &&& after[n].fill_t == fill_t
            &&& after[n].anchor_d == anchor_d
            &&& after[n].from_trough <==> side == PositionSide::Up
            &&& !is_pair ==> after[n].paired == 0
            &&& is_pair ==> !can_match(commit_book(after))
            &&& forall|k: int|
                0 <= k < n ==> {
                    &&& (#[trigger] after[k]).side == commits[k].side
                    &&& after[k].shares == commits[k].shares
                    &&& after[k].fill == commits[k].fill
                    &&& after[k].fill_t == commits[k].fill_t
                    &&& !is_pair ==> after[k] == commits[k]
                }
        }),
{
    let added = commits.push(
        CommittedLot {
            side,
            shares,
            fill,
            fill_t,
            paired: 0,
            anchor_d,
            from_trough: side == PositionSide::Up,
        },
    );
    if is_pair {
        pairing_moves_only_what_is_paired(added);
    }
    let after = commits_bought(commits, side, shares, fill, fill_t, is_pair, anchor_d);
    assert(added[commits.len() as int].side == side);
    assert forall|k: int| 0 <= k < commits.len() implies {
        &&& (#[trigger] after[k]).side == commits[k].side
        &&& after[k].shares == commits[k].shares
        &&& after[k].fill == commits[k].fill
        &&& after[k].fill_t == commits[k].fill_t
        &&& !is_pair ==> after[k] == commits[k]
    } by {
        assert(added[k] == commits[k]);
    }
}

/// Pairing fills changes nothing of them but what is paired, and pairs all it can.
pub proof fn pairing_moves_only_what_is_paired(commits: Seq<CommittedLot>)
    ensures
        ({
            let after = commits_paired(commits);
            &&& after.len() == commits.len()
            &&& !can_match(commit_book(after))
            &&& forall|k: int|
                0 <= k < commits.len() ==> #[trigger] after[k] == (CommittedLot {
                    paired: after[k].paired,
                    ..commits[k]
                })
        }),
    decreases open_count(commit_book(commits)),
{
    if can_match(commit_book(commits)) {
        let book = commit_book(commits);
        pairing_commits_matches_the_book(commits);
        one_match_closes_a_holding(book);
        first_open_finds_the_first(book, PositionSide::Up, 0);
        first_open_finds_the_first(book, PositionSide::Down, 0);
        let next = commits_paired_once(commits);
        pairing_moves_only_what_is_paired(next);
        let after = commits_paired(commits);
        assert forall|k: int| 0 <= k < commits.len() implies #[trigger] after[k] == (CommittedLot {
            paired: after[k].paired,
            ..commits[k]
        }) by {
            assert(after[k] == (CommittedLot { paired: after[k].paired, ..next[k] }));
            assert(next[k] == (CommittedLot { paired: next[k].paired, ..commits[k] }));
        }
    }
}

/// Fills are paired first in, first out: the first open ones of the two tokens, as
/// many shares as both have.
pub proof fn fills_are_paired_first_in_first_out(commits: Seq<CommittedLot>, u: int, d: int)
    requires
        0 <= u < commits.len(),
        0 <= d < commits.len(),
        commits[u].side == PositionSide::Up,
        commits[d].side == PositionSide::Down,
        commits[u].shares > commits[u].paired,
        commits[d].shares > commits[d].paired,
        forall|k: int|
            0 <= k < u ==> !((#[trigger] commits[k]).side == PositionSide::Up && commits[k].shares
                > commits[k].paired),
        forall|k: int|
            0 <= k < d ==> !((#[trigger] commits[k]).side == PositionSide::Down && commits[k].shares
                > commits[k].paired),
    ensures
        ({
            let after = commits_paired_once(commits);
            let up = commits[u].shares - commits[u].paired;
            let down = commits[d].shares - commits[d].paired;
            let q = if up <= down {
                up
            } else {
                down
            };
            &&& after[u] == (CommittedLot { paired: (commits[u].paired + q) as i64, ..commits[u] })
            &&& after[d] == (CommittedLot { paired: (commits[d].paired + q) as i64, ..commits[d] })
            &&& forall|k: int|
                0 <= k < commits.len() && k != u && k != d ==> #[trigger] after[k] == commits[k]
            &&& commits_paired(commits) == commits_paired(after)
        }),
{
    let book = commit_book(commits);
    first_of_a_side(commits, PositionSide::Up, u, 0);
    first_of_a_side(commits, PositionSide::Down, d, 0);
    assert(book[u] == (commits[u].side, commits[u].shares - commits[u].paired));
    assert(book[d] == (commits[d].side, commits[d].shares - commits[d].paired));
    assert(can_match(book));
    assert(match_size(book) <= commits[u].shares - commits[u].paired);
    reveal_with_fuel(commits_paired, 2);
}

proof fn first_of_a_side(commits: Seq<CommittedLot>, side: PositionSide, u: int, i: int)
    requires
        0 <= i <= u < commits.len(),
        commits[u].side == side,
        commits[u].shares > commits[u].paired,
        forall|k: int|
            0 <= k < u ==> !((#[trigger] commits[k]).side == side && commits[k].shares
                > commits[k].paired),
    ensures
        first_open(commit_book(commits), side, i) == u,
    decreases u - i,
{
    let book = commit_book(commits);
    assert(book[i] == (commits[i].side, commits[i].shares - commits[i].paired));
    if i < u {
        first_of_a_side(commits, side, u, i + 1);
    }
}

/// A sale closes all fills of its token and no other.
pub proof fn a_sale_closes_its_token(commits: Seq<CommittedLot>, side: PositionSide, k: int)
    requires
        0 <= k < commits.len(),
    ensures
        commits_sold(commits, side).len() == commits.len(),
        commits[k].side == side ==> commits_sold(commits, side)[k] == (CommittedLot {
            paired: commits[k].shares,
            ..commits[k]
        }),
        commits[k].side != side ==> commits_sold(commits, side)[k] == commits[k],
{
}

/// A fall is measured from the delta that is given, else from the one known at the
/// signal, which is not before the open, else from the one known at the fill.
pub proof fn a_fall_is_measured_from_the_signal(
    tape: Seq<(i64, i64)>,
    open_ms: int,
    delay: int,
    fill_t: int,
    d: i64,
)
    ensures
        ({
            let signal = if fill_t - delay >= open_ms {
                fill_t - delay
            } else {
                open_ms
            };
            let r = anchor_of(tape, open_ms, delay, fill_t, d);
            &&& d > 1_000 || d < -1_000 ==> r == d
            &&& -1_000 <= d <= 1_000 && price_known(tape, signal) is Some ==> r == price_known(
                tape,
                signal,
            )->0
            &&& -1_000 <= d <= 1_000 && price_known(tape, signal) is None && price_known(
                tape,
                fill_t,
            ) is Some ==> r == price_known(tape, fill_t)->0
            &&& -1_000 <= d <= 1_000 && price_known(tape, signal) is None && price_known(
                tape,
                fill_t,
            ) is None ==> r == 0
        }),
{
}

/// Whether fills have only been added to, by fills of a size.
pub open spec fn fills_added(before: Seq<CommittedLot>, after: Seq<CommittedLot>, shares: i64) -> bool {
    &&& after.len() >= before.len()
    &&& forall|k: int|
        0 <= k < before.len() ==> {
            &&& (#[trigger] after[k]).shares == before[k].shares
            &&& after[k].side == before[k].side
            &&& after[k].fill == before[k].fill
            &&& after[k].fill_t == before[k].fill_t
        }
    &&& forall|k: int|
        before.len() <= k < after.len() ==> (#[trigger] after[k]).shares == shares
}

/// Every fill that a play asks for is of the size of its buys.
pub proof fn fills_are_of_the_size(
    b: Intents,
    tape: Seq<(i64, i64)>,
    open_ms: int,
    delay: int,
    now: int,
    trades: Seq<SimTrade>,
    n: int,
    shares: i64,
)
    requires
        0 <= n <= trades.len(),
        forall|k: int|
            0 <= k < trades.len() && (#[trigger] trades[k]).kind == TradeKind::Buy
                ==> trades[k].shares == shares,
    ensures
        fills_added(
            b.commits,
            emitted_through(b, tape, open_ms, delay, now, trades, n).commits,
            shares,
        ),
    decreases n,
{
    if n > 0 {
        fills_are_of_the_size(b, tape, open_ms, delay, now, trades, n - 1, shares);
        let before = emitted_through(b, tape, open_ms, delay, now, trades, n - 1);
        let after = emitted_through(b, tape, open_ms, delay, now, trades, n);
        let tr = trades[n - 1];
        if asks_for(before, now, tr) {
            if tr.kind != TradeKind::Sell {
                let anchor = anchor_of(tape, open_ms, delay, tr.t as int, tr.anchor_d);
                a_bought_fill_is_added(
                    before.commits,
                    tr.side,
                    tr.shares,
                    tr.fill,
                    tr.t,
                    tr.reason.completes_pair(),
                    anchor,
                );
                assert(tr.kind == TradeKind::Buy);
            }
            assert forall|k: int| 0 <= k < b.commits.len() implies {
                &&& (#[trigger] after.commits[k]).shares == b.commits[k].shares
                &&& after.commits[k].side == b.commits[k].side
                &&& after.commits[k].fill == b.commits[k].fill
                &&& after.commits[k].fill_t == b.commits[k].fill_t
            } by {
                assert(before.commits[k].shares == b.commits[k].shares);
            }
            assert forall|k: int| b.commits.len() <= k < after.commits.len() implies (
            #[trigger] after.commits[k]).shares == shares by {
                if k < before.commits.len() {
                    assert(before.commits[k].shares == shares);
                }
            }
        }
    }
}

/// Playing a gap-swing window adds fills of its size only.
pub proof fn a_gap_play_adds_fills_of_the_size(g: GapState, now: int)
    ensures
        fills_added(
            g.intents.commits,
            gap_swing::refreshed(g, now).intents.commits,
            g.shares,
        ),
{
    let w = gap_swing::live_terms(g, gap_swing::seen_until(g, now));
    let out = gap_swing::gap_outcome(w, g.ptb, g.btc, g.asks, None, g.intents.commits);
    let tape = gap_swing::deltas_from(g.btc, g.ptb);
    every_buy_is_of_the_size(
        start_of(g.intents.commits, w),
        w,
        tape,
        g.asks,
        swings_of(tape, g.asks, w.open_ms as int, w.end_ms as int, w.market_end as int),
        ticks_of(tape, w),
        None,
    );
    fills_are_of_the_size(
        g.intents,
        tape,
        g.open_ms as int,
        g.delay_ms as int,
        now,
        out.trades,
        out.trades.len() as int,
        g.shares,
    );
}

/// Playing a venue-swing window adds fills of its size only.
pub proof fn a_venue_play_adds_fills_of_the_size(g: VenueState, now: int)
    ensures
        fills_added(
            g.intents.commits,
            venue_engine::refreshed(g, now).intents.commits,
            g.shares,
        ),
{
    let w = venue_engine::live_terms(g, venue_engine::seen_until(g, now));
    let out = venue_outcome(w, g.binance, g.coinbase, g.asks, None, g.intents.commits);
    let bn = venue_deltas(g.binance, w.open_ms, w.end_ms);
    let cb = venue_deltas(g.coinbase, w.open_ms, w.end_ms);
    let tape = interleaved(bn, cb, 0, 0);
    let o = w.open_ms as int;
    let e = w.end_ms as int;
    let c = w.market_end as int;
    every_buy_is_of_the_size(
        start_of(g.intents.commits, w),
        w,
        tape,
        g.asks,
        union_of(swings_of(bn, g.asks, o, e, c), swings_of(cb, g.asks, o, e, c)),
        ticks_of(tape, w),
        None,
    );
    fills_are_of_the_size(
        g.intents,
        venue_engine::live_deltas(g),
        g.open_ms as int,
        g.delay_ms as int,
        now,
        out.trades,
        out.trades.len() as int,
        g.shares,
    );
}

/// The play of a gap-swing window that is running: from its open up to a
/// millisecond after now or its end, with its close, size and delay, from its
/// fills; what it comes to is what the window says of itself.
pub proof fn a_running_gap_window_is_played_again(g: GapState, now: int)
    requires
        i64::MIN <= now + 1 <= i64::MAX,
    ensures
        ({
            let w = Terms {
                open_ms: g.open_ms,
                end_ms: if now + 1 < g.end_ms {
                    (now + 1) as i64
                } else {
                    g.end_ms
                },
                market_end: g.end_ms,
                shares: g.shares,
                delay_ms: g.delay_ms,
            };
            let out = gap_swing::gap_outcome(w, g.ptb, g.btc, g.asks, None, g.intents.commits);
            let after = gap_swing::refreshed(g, now);
            &&& after.intents == emitted_through(
                g.intents,
                gap_swing::deltas_from(g.btc, g.ptb),
                g.open_ms as int,
                g.delay_ms as int,
                now,
                out.trades,
                out.trades.len() as int,
            )
            &&& after.last_pnl == out.total_pnl
            &&& after.last_pairs == out.pairs
            &&& after == (GapState {
                intents: after.intents,
                last_pnl: after.last_pnl,
                last_pairs: after.last_pairs,
                ..g
            })
        }),
{
}

/// The play of a venue-swing window that is running likewise, on both venues'
/// prints.
pub proof fn a_running_venue_window_is_played_again(g: VenueState, now: int)
    requires
        i64::MIN <= now + 1 <= i64::MAX,
    ensures
        ({
            let w = Terms {
                open_ms: g.open_ms,
                end_ms: if now + 1 < g.end_ms {
                    (now + 1) as i64
                } else {
                    g.end_ms
                },
                market_end: g.end_ms,
                shares: g.shares,
                delay_ms: g.delay_ms,
            };
            let out = super::venue_swing::venue_outcome(
                w,
                g.binance,
                g.coinbase,
                g.asks,
                None,
                g.intents.commits,
            );
            let after = venue_engine::refreshed(g, now);
            &&& after.intents == emitted_through(
                g.intents,
                super::venue_swing::interleaved(
                    super::venue_swing::venue_deltas(g.binance, g.open_ms, g.end_ms),
                    super::venue_swing::venue_deltas(g.coinbase, g.open_ms, g.end_ms),
                    0,
                    0,
                ),
                g.open_ms as int,
                g.delay_ms as int,
                now,
                out.trades,
                out.trades.len() as int,
            )
            &&& after.last_pnl == out.total_pnl
            &&& after.last_pairs == out.pairs
            &&& after == (VenueState {
                intents: after.intents,
                last_pnl: after.last_pnl,
                last_pairs: after.last_pairs,
                ..g
            })
        }),
{
}

/// A price above nothing that is not a repetition is added and the window played
/// again at its time; its orders are handed out.  Any other changes nothing.
pub proof fn a_new_price_plays_the_gap_window(g: GapState, t: i64, price: i64)
    ensures
        ({
            let news = price > 0 && (g.btc.len() == 0 || g.btc.last().0 != t || g.btc.last().1
                != price);
            let (after, orders) = gap_swing::priced(g, t, price);
            let played = gap_swing::refreshed(
                GapState { btc: g.btc.push((t, price)), ..g },
                t as int,
            );
            &&& !news ==> after == g && orders.len() == 0
            &&& news ==> {
                &&& orders == played.intents.pending
                &&& after.intents.pending.len() == 0
                &&& after.intents.emitted == played.intents.emitted
                &&& after.intents.commits == played.intents.commits
                &&& after.btc == g.btc.push((t, price))
            }
        }),
{
}

/// A price of a venue above nothing that is not a repetition is added to that
/// venue's prints and the window played again; its orders are handed out.
pub proof fn a_new_print_plays_the_venue_window(g: VenueState, t: i64, price: i64)
    ensures
        ({
            let news = price > 0 && (g.binance.len() == 0 || g.binance.last().0 != t
                || g.binance.last().1 != price);
            let (after, orders) = venue_engine::priced_on_binance(g, t, price);
            let played = venue_engine::refreshed(
                VenueState { binance: g.binance.push((t, price)), ..g },
                t as int,
            );
            &&& !news ==> after == g && orders.len() == 0
            &&& news ==> {
                &&& orders == played.intents.pending
                &&& after.intents.pending.len() == 0
                &&& after.intents.emitted == played.intents.emitted
                &&& after.intents.commits == played.intents.commits
                &&& after.binance == g.binance.push((t, price))
                &&& after.coinbase == g.coinbase
            }
        }),
        ({
            let news = price > 0 && (g.coinbase.len() == 0 || g.coinbase.last().0 != t
                || g.coinbase.last().1 != price);
            let (after, orders) = venue_engine::priced_on_coinbase(g, t, price);
            let played = venue_engine::refreshed(
                VenueState { coinbase: g.coinbase.push((t, price)), ..g },
                t as int,
            );
            &&& !news ==> after == g && orders.len() == 0
            &&& news ==> {
                &&& orders == played.intents.pending
                &&& after.intents.pending.len() == 0
                &&& after.intents.emitted == played.intents.emitted
                &&& after.intents.commits == played.intents.commits
                &&& after.coinbase == g.coinbase.push((t, price))
                &&& after.binance == g.binance
            }
        }),
{
}

/// A quote with both asks above nothing is added unless there is one of its
/// millisecond; a tick adds its quote, plays the window and hands out its orders.
pub proof fn quotes_and_ticks_of_a_gap_window(g: GapState, t: i64, up: i64, down: i64)
    ensures
        ({
            let good = up > 0 && down > 0 && (g.asks.len() == 0 || g.asks.last().0 != t);
            let after = gap_swing::quoted(g, t, up, down);
            let (ticked, orders) = gap_swing::ticked(g, t, up, down);
            let played = gap_swing::refreshed(after, t as int);
            &&& good ==> after == (GapState { asks: g.asks.push((t, up, down)), ..g })
            &&& !good ==> after == g
            &&& orders == played.intents.pending
            &&& ticked.intents.pending.len() == 0
            &&& ticked.intents.emitted == played.intents.emitted
            &&& ticked.intents.commits == played.intents.commits
            &&& ticked.asks == after.asks
        }),
{
}

/// Quotes and ticks of a venue-swing window likewise.
pub proof fn quotes_and_ticks_of_a_venue_window(g: VenueState, t: i64, up: i64, down: i64)
    ensures
        ({
            let good = up > 0 && down > 0 && (g.asks.len() == 0 || g.asks.last().0 != t);
            let after = venue_engine::quoted(g, t, up, down);
            let (ticked, orders) = venue_engine::ticked(g, t, up, down);
            let played = venue_engine::refreshed(after, t as int);
            &&& good ==> after == (VenueState { asks: g.asks.push((t, up, down)), ..g })
            &&& !good ==> after == g
            &&& orders == played.intents.pending
            &&& ticked.intents.pending.len() == 0
            &&& ticked.intents.emitted == played.intents.emitted
            &&& ticked.intents.commits == played.intents.commits
            &&& ticked.asks == after.asks
        }),
{
}

/// A live window starts with orders of ten shares, a delay of 250 milliseconds in
/// gap swing and of 70 in venue swing, and with nothing seen.
pub proof fn a_live_window_starts_with_nothing(open_ms: i64, end_ms: i64, ptb: Option<i64>)
    ensures
        ({
            let g = gap_swing::fresh_gap(open_ms, end_ms, ptb);
            &&& g.open_ms == open_ms && g.end_ms == end_ms && g.ptb == ptb
            &&& g.shares == 10_000_000_000
            &&& g.delay_ms == 250
            &&& g.btc.len() == 0 && g.asks.len() == 0 && g.intents.commits.len() == 0
            &&& g.intents.emitted.len() == 0 && g.intents.pending.len() == 0
        }),
        ({
            let v = venue_engine::fresh_venue(open_ms, end_ms, ptb);
            &&& v.open_ms == open_ms && v.end_ms == end_ms && v.ptb == ptb
            &&& v.shares == 10_000_000_000
            &&& v.delay_ms == 70
            &&& v.binance.len() == 0 && v.coinbase.len() == 0 && v.asks.len() == 0
            &&& v.intents.commits.len() == 0
            &&& v.intents.emitted.len() == 0 && v.intents.pending.len() == 0
        }),
{
}

/// The next window keeps the size and the delay of orders and what was seen from a
/// minute before its open to its end, and nothing else.
pub proof fn the_next_window_keeps_its_own_ticks(
    g: GapState,
    open_ms: i64,
    end_ms: i64,
    ptb: Option<i64>,
    p: (i64, i64),
    q: (i64, i64, i64),
)
    ensures
        ({
            let n = gap_swing::next_gap(g, open_ms, end_ms, ptb);
            &&& n.shares == g.shares && n.delay_ms == g.delay_ms
            &&& n.open_ms == open_ms && n.end_ms == end_ms && n.ptb == ptb
            &&& n.intents.commits.len() == 0 && n.intents.emitted.len() == 0
            &&& n.btc.contains(p) <==> g.btc.contains(p) && open_ms - 60_000 <= p.0 < end_ms
            &&& n.asks.contains(q) <==> g.asks.contains(q) && open_ms - 60_000 <= q.0 < end_ms
        }),
{
    let n = gap_swing::next_gap(g, open_ms, end_ms, ptb);
    let keep = |x: (i64, i64)| gap_swing::kept_for(x.0, open_ms, end_ms);
    let keep_ask = |x: (i64, i64, i64)| gap_swing::kept_for(x.0, open_ms, end_ms);
    assert(n.btc == g.btc.filter(keep));
    assert(n.asks == g.asks.filter(keep_ask));
    if n.btc.contains(p) {
        let i = choose|i: int| 0 <= i < n.btc.len() && n.btc[i] == p;
        g.btc.lemma_filter_pred(keep, i);
        g.btc.lemma_filter_contains_rev(keep, p);
    }
    if g.btc.contains(p) && open_ms - 60_000 <= p.0 < end_ms {
        let i = choose|i: int| 0 <= i < g.btc.len() && g.btc[i] == p;
        assert(keep(g.btc[i]));
        g.btc.lemma_filter_contains(keep, i);
    }
    if n.asks.contains(q) {
        let i = choose|i: int| 0 <= i < n.asks.len() && n.asks[i] == q;
        g.asks.lemma_filter_pred(keep_ask, i);
        g.asks.lemma_filter_contains_rev(keep_ask, q);
    }
    if g.asks.contains(q) && open_ms - 60_000 <= q.0 < end_ms {
        let i = choose|i: int| 0 <= i < g.asks.len() && g.asks[i] == q;
        assert(keep_ask(g.asks[i]));
        g.asks.lemma_filter_contains(keep_ask, i);
    }
}

} // verus!
