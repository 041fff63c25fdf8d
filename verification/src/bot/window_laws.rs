//! How the trading loop starts, watches and closes windows.
use vstd::prelude::*;
use super::state::{
    asks_fed, asks_ingested, booked_through, engine_fed, executed_all, filled, is_note, is_report,
    locked, seeded, seeded_from, started, window_closed, window_slug, window_started, window_winner,
    BotState, EngineState, Order, TapeNote, WindowReport,
};
use crate::dry_fills::{due_fills, waiting_fills, Due};
use crate::pnl::{ledger_gross, window_booked};
use crate::poly_book::{asks_of, latest_of, MarketQuotes};
use crate::strategy::detector::Trend;
use crate::strategy::gap_swing::{ticked, GapState};
use crate::strategy::intents::open_in;
use crate::strategy::pairing::Pairing;
use crate::strategy::venue_engine::VenueState;
use crate::subscriptions::Directory;
use crate::text::number_text;

verus! {

/// What trades is fed the asks of a quote at its time: pairing's trend takes it with an
/// UP ask, the swing strategies with both asks, unless they have one of that time.
pub proof fn what_trades_sees_the_quote(e: EngineState, q: MarketQuotes)
    ensures
        e matches EngineState::Pairing { trend, pairing } ==> {
            &&& engine_fed(e, q)->pairing == pairing
            &&& q.up_ask > 0 ==> engine_fed(e, q)->trend == (Trend {
                poly: trend.poly.push((q.t, q.up_ask, q.down_ask)),
                ..trend
            })
            &&& q.up_ask <= 0 ==> engine_fed(e, q)->trend == trend
        },
        e matches EngineState::Gap(g) ==> {
            let known = g.asks.len() > 0 && g.asks.last().0 == q.t;
            &&& q.up_ask > 0 && q.down_ask > 0 && !known ==> engine_fed(e, q) == EngineState::Gap(
                GapState { asks: g.asks.push((q.t, q.up_ask, q.down_ask)), ..g },
            )
            &&& q.up_ask <= 0 || q.down_ask <= 0 || known ==> engine_fed(e, q) == e
        },
        e matches EngineState::Venue(v) ==> {
            let known = v.asks.len() > 0 && v.asks.last().0 == q.t;
            &&& q.up_ask > 0 && q.down_ask > 0 && !known ==> engine_fed(e, q) == EngineState::Venue(
                VenueState { asks: v.asks.push((q.t, q.up_ask, q.down_ask)), ..v },
            )
            &&& q.up_ask <= 0 || q.down_ask <= 0 || known ==> engine_fed(e, q) == e
        },
{
}

/// In a turn in which orders are placed what trades sees the last quote of its market.
/// In any other turn the swing strategies see that of the traded window as long as it
/// is subscribed to, and pairing sees none.
pub proof fn what_trades_is_shown_the_last_quote(b: BotState)
    ensures
        b.market is None ==> asks_fed(b) == b,
        b.market matches Some(m) ==> match latest_of(b.books, m.start_ts) {
            Some(q) => asks_fed(b) == (BotState { engine: engine_fed(b.engine, q), ..b }),
            None => asks_fed(b) == b,
        },
        b.trading_start is None || b.engine is Pairing ==> asks_ingested(b) == b,
        b.trading_start matches Some(start) ==> (!(b.engine is Pairing)
            && b.directory.subscribed.contains(start) ==> match latest_of(b.books, start) {
            Some(q) => asks_ingested(b) == (BotState { engine: engine_fed(b.engine, q), ..b }),
            None => asks_ingested(b) == b,
        }),
        b.trading_start matches Some(start) ==> (!b.directory.subscribed.contains(start)
            ==> asks_ingested(b) == b),
{
}

/// The asks that a swing strategy knows.
pub open spec fn known_asks(e: EngineState) -> Seq<(i64, i64, i64)> {
    match e {
        EngineState::Pairing { trend, .. } => trend.poly,
        EngineState::Gap(g) => g.asks,
        EngineState::Venue(v) => v.asks,
    }
}

/// Whether a swing strategy knows a quote of a time.
pub open spec fn knows_a_quote_of(e: EngineState, t: i64) -> bool {
    exists|j: int| 0 <= j < known_asks(e).len() && (#[trigger] known_asks(e)[j]).0 == t
}

proof fn a_quote_is_learned(e: EngineState, q: MarketQuotes, t: i64)
    requires
        !(e is Pairing),
    ensures
        q.up_ask > 0 && q.down_ask > 0 ==> knows_a_quote_of(engine_fed(e, q), q.t),
        knows_a_quote_of(e, t) ==> knows_a_quote_of(engine_fed(e, q), t),
        !(engine_fed(e, q) is Pairing),
{
    let after = known_asks(engine_fed(e, q));
    if q.up_ask > 0 && q.down_ask > 0 {
        assert(after[after.len() - 1].0 == q.t);
    }
    if knows_a_quote_of(e, t) {
        let j = choose|j: int| 0 <= j < known_asks(e).len() && (#[trigger] known_asks(e)[j]).0 == t;
        assert(after[j].0 == t);
    }
}

proof fn seeding_learns_the_quotes(e: EngineState, asks: Seq<(i64, i64, i64)>, n: int, k: int)
    requires
        !(e is Pairing),
        0 <= n <= asks.len(),
    ensures
        !(seeded(e, asks, n) is Pairing),
        0 <= k < n && asks[k].1 > 0 && asks[k].2 > 0 ==> knows_a_quote_of(
            seeded(e, asks, n),
            asks[k].0,
        ),
    decreases n,
{
    if n > 0 {
        seeding_learns_the_quotes(e, asks, n - 1, k);
        let q = asks[n - 1];
        if 0 <= k < n {
            a_quote_is_learned(
                seeded(e, asks, n - 1),
                MarketQuotes { t: q.0, up_ask: q.1, down_ask: q.2 },
                asks[k].0,
            );
        }
    }
}

/// A swing strategy starts a window with all quotes of it that came before: it knows one
/// of the time of each that has both asks, and one of the time of the last.
pub proof fn a_swing_window_starts_with_its_quotes(b: BotState, start_ts: i64, k: int)
    requires
        b.directory.markets.contains_key(start_ts),
        !(b.engine is Pairing),
    ensures
        ({
            let asks = asks_of(b.books, start_ts);
            let e = window_started(b, start_ts).engine;
            &&& 0 <= k < asks.len() && asks[k].1 > 0 && asks[k].2 > 0 ==> knows_a_quote_of(
                e,
                asks[k].0,
            )
            &&& latest_of(b.books, start_ts) matches Some(q) ==> (q.up_ask > 0 && q.down_ask > 0
                ==> knows_a_quote_of(e, q.t))
        }),
{
    let asks = asks_of(b.books, start_ts);
    let m = b.directory.markets[start_ts];
    let e = window_started(b, start_ts).engine;
    let open_ms = (m.start_ts * 1_000) as i64;
    let end_ms = ((m.start_ts + 300) * 1_000) as i64;
    let delay_ms = super::state::reckoned_delay(
        super::state::strategy_of_engine(b.engine),
        b.live,
    );
    let first = match b.engine {
        EngineState::Gap(g) => EngineState::Gap(
            GapState {
                shares: b.shares,
                delay_ms,
                ..crate::strategy::gap_swing::next_gap(g, open_ms, end_ms, None)
            },
        ),
        EngineState::Venue(v) => EngineState::Venue(
            VenueState {
                shares: b.shares,
                delay_ms,
                ..crate::strategy::venue_engine::next_venue(v, open_ms, end_ms, None)
            },
        ),
        _ => b.engine,
    };
    assert(e == seeded_from(first, b.books, start_ts));
    seeding_learns_the_quotes(first, asks, asks.len() as int, k);
    if let Some(q) = latest_of(b.books, start_ts) {
        a_quote_is_learned(
            seeded(first, asks, asks.len() as int),
            q,
            if 0 <= k < asks.len() {
                asks[k].0
            } else {
                0
            },
        );
    }
}

/// A window starts with the oracle's last average as its opening price if that is of the
/// window and above nothing, and without one else.
pub proof fn an_average_of_the_window_opens_it(b: BotState, start_ts: i64, now: i64)
    requires
        b.directory.markets.contains_key(start_ts),
    ensures
        b.last_cl is None ==> started(b, start_ts, now) == (
            window_started(b, start_ts),
            Seq::<Order>::empty(),
        ),
        b.last_cl matches Some((t, px)) ==> (if t >= b.directory.markets[start_ts].start_ts * 1_000
            && px > 0 {
            started(b, start_ts, now) == locked(window_started(b, start_ts), start_ts, px, now)
        } else {
            started(b, start_ts, now) == (window_started(b, start_ts), Seq::<Order>::empty())
        }),
{
}

/// A pairing window is booked from its ledger with all its fills that still waited; its
/// quotes are forgotten, and no fill of it waits any longer.
pub proof fn a_pairing_window_is_booked_from_its_ledger(b: BotState, start_ts: i64)
    requires
        b.engine is Pairing,
    ensures
        ({
            let due = Due::Window { start_ts };
            let fills = due_fills(due, b.pending);
            let rest = BotState { pending: waiting_fills(due, b.pending), ..b };
            let all_in = booked_through(rest, fills, true, fills.len() as int);
            let after = window_closed(b, start_ts);
            &&& after.accounts == window_booked(all_in.accounts, window_winner(b, start_ts))
            &&& after.accounts.window is None
            &&& after.pending == waiting_fills(due, b.pending)
            &&& after.engine == b.engine
            &&& latest_of(after.books, start_ts) is None
            &&& asks_of(after.books, start_ts).len() == 0
        }),
{
    let due = Due::Window { start_ts };
    let fills = due_fills(due, b.pending);
    let rest = BotState { pending: waiting_fills(due, b.pending), ..b };
    super::state::booking_moves_only_accounts(rest, fills, true, fills.len() as int);
}

/// A closed window forgets no other window's quotes.
pub proof fn other_windows_keep_their_quotes(b: BotState, start_ts: i64, other: i64)
    requires
        other != start_ts,
    ensures
        latest_of(window_closed(b, start_ts).books, other) == latest_of(b.books, other),
        asks_of(window_closed(b, start_ts).books, other) == asks_of(b.books, other),
{
}

/// A window is called by the name of its market, or by its opening second where its
/// market is not known.
pub proof fn a_window_has_its_name(b: BotState, start_ts: i64)
    ensures
        b.directory.markets.contains_key(start_ts) ==> window_slug(b, start_ts)
            == b.directory.markets[start_ts].slug,
        !b.directory.markets.contains_key(start_ts) ==> window_slug(b, start_ts)
            == "btc-updown-5m-"@ + number_text(start_ts as int),
{
}

/// A report of a swing window has the net that is added to the totals and the pairs that
/// are made, under the window's name.
pub proof fn a_swing_report_is_what_is_booked(b: BotState, start_ts: i64, r: WindowReport)
    requires
        is_report(r, b, start_ts),
        !(b.engine is Pairing),
        result_fits(b, start_ts),
    ensures
        r matches WindowReport::Settled { slug, net, pairs, .. } && {
            let after = window_closed(b, start_ts);
            &&& slug@ == window_slug(b, start_ts)
            &&& after.accounts.totals.net - b.accounts.totals.net == net
            &&& after.accounts.totals.gross - b.accounts.totals.gross == net
            &&& after.engine matches EngineState::Gap(g) ==> g.last_pairs == pairs && g.last_pnl
                == net
            &&& after.engine matches EngineState::Venue(v) ==> v.last_pairs == pairs && v.last_pnl
                == net
        },
{
    let due = Due::Window { start_ts };
    let fills = due_fills(due, b.pending);
    let rest = BotState { pending: waiting_fills(due, b.pending), ..b };
    super::state::booking_leaves_totals(rest, fills, true, fills.len() as int);
}

/// Whether a result of any size fits into the totals.
pub open spec fn result_fits(b: BotState, start_ts: i64) -> bool {
    let after = window_closed(b, start_ts);
    let pnl = match after.engine {
        EngineState::Pairing { .. } => 0,
        EngineState::Gap(g) => g.last_pnl,
        EngineState::Venue(v) => v.last_pnl,
    };
    &&& i128::MIN <= b.accounts.totals.net + pnl <= i128::MAX
    &&& i128::MIN <= b.accounts.totals.gross + pnl <= i128::MAX
}

/// A report of a pairing window says what its ledger came to, or that nothing was traded.
pub proof fn a_pairing_report_is_of_its_ledger(b: BotState, start_ts: i64, r: WindowReport)
    requires
        is_report(r, b, start_ts),
        b.engine is Pairing,
    ensures
        ({
            let f = filled(b, Due::Window { start_ts }, true);
            let traded = f.accounts.window is Some && f.accounts.window->0.ledger.legs > 0;
            &&& traded ==> (r matches WindowReport::Closed(c) && {
                let l = f.accounts.window->0.ledger;
                &&& c.gross == ledger_gross(l, window_winner(b, start_ts))
                &&& c.net + l.fees == c.gross
                &&& c.fees == l.fees
                &&& c.legs == l.legs
                &&& c.slug@ == f.accounts.window->0.slug
            })
            &&& f.accounts.window is None || f.accounts.window->0.ledger.legs == 0 ==> (
            r matches WindowReport::Idle { slug } && slug@ == window_slug(b, start_ts))
        }),
{
}

/// A note has Binance's distance from the opening price, where both are known, and how
/// many fills there are, how many shares of them are open, and how many pairs are made.
pub proof fn a_note_says_how_it_goes(n: TapeNote, b: BotState)
    requires
        is_note(n, b),
    ensures
        ({
            let strike = match b.engine {
                EngineState::Pairing { trend, .. } => trend.strike,
                EngineState::Gap(g) => g.ptb,
                EngineState::Venue(v) => v.ptb,
            };
            &&& b.last_bn is Some && strike is Some ==> n.delta is Some && n.delta->0
                == b.last_bn->0 - strike->0
            &&& b.last_bn is None || strike is None ==> n.delta is None
        }),
        b.engine matches EngineState::Gap(g) ==> n.fills == g.intents.commits.len() && n.unpaired
            == open_in(g.intents.commits) && n.pairs == g.last_pairs,
        b.engine matches EngineState::Venue(v) ==> n.fills == v.intents.commits.len() && n.unpaired
            == open_in(v.intents.commits) && n.pairs == v.last_pairs,
{
}

/// An opening price that is taken up by gap swing is ticked with at once, at the last asks
/// of the window; without quotes it is ticked with none.
pub proof fn an_opening_price_is_ticked_with_the_last_asks(
    b: BotState,
    start_ts: i64,
    ptb: i64,
    now: i64,
    g: GapState,
)
    requires
        b.engine == EngineState::Gap(g),
        g.ptb is None,
        ptb > 0,
    ensures
        ({
            let noted = Directory {
                strikes: b.directory.strikes.insert(start_ts, ptb),
                ..b.directory
            };
            let open = GapState { ptb: Some(ptb), ..g };
            let quote = latest_of(b.books, start_ts);
            &&& quote matches Some(q) ==> {
                let (after, actions) = ticked(open, now, q.up_ask, q.down_ask);
                locked(b, start_ts, ptb, now) == executed_all(
                    BotState { engine: EngineState::Gap(after), directory: noted, ..b },
                    actions,
                    now as int,
                )
            }
            &&& quote is None ==> {
                let (after, actions) = ticked(open, now, 0, 0);
                locked(b, start_ts, ptb, now) == executed_all(
                    BotState { engine: EngineState::Gap(after), directory: noted, ..b },
                    actions,
                    now as int,
                )
            }
        }),
{
}

/// Venue swing notes an opening price and orders nothing on it; a strategy that has one
/// takes no other, and pairing none at all.
pub proof fn venue_swing_notes_its_opening_price(b: BotState, start_ts: i64, ptb: i64, now: i64)
    ensures
        b.engine matches EngineState::Venue(v) ==> (v.ptb is None && ptb > 0 ==> locked(
            b,
            start_ts,
            ptb,
            now,
        ) == (
            BotState {
                engine: EngineState::Venue(VenueState { ptb: Some(ptb), ..v }),
                directory: Directory {
                    strikes: b.directory.strikes.insert(start_ts, ptb),
                    ..b.directory
                },
                ..b
            },
            Seq::<Order>::empty(),
        )),
        b.engine is Pairing || ptb <= 0 || super::state::strike_of(b.engine) is Some ==> locked(
            b,
            start_ts,
            ptb,
            now,
        ) == (b, Seq::<Order>::empty()),
{
}

} // verus!
