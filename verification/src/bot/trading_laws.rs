//! What the trading loop does with prices, quotes, orders and windows.
use vstd::prelude::*;
use super::laws::orders_move_only_what_waits;
use super::state::{
    asks_at_lock, asks_fed, averaged, bn_ingested, booked, cb_ingested, closing_ticked, driven_bn,
    driven_cb, due_at, engine_closing, engine_fed, engine_ticked, executed, executed_all,
    executed_through, fill_price, fresh_bot, locked, may_trade, note_due, quote_taken, seeded,
    signal_taken, site_struck, started, starting_strike, strategy_of_engine, turn_ended,
    window_closed, window_started, window_winner, BotState, EngineState, Order,
};
use crate::config::StrategyKind;
use crate::dry_fills::{due_fills, is_due, waiting_fills, Due, FillKind, PendingDryFill};
use crate::feeds::polymarket::PolyQuote;
use crate::poly_book::{asks_of, latest_of, MarketQuotes};
use crate::strategy::detector::CaptureSignal;
use crate::strategy::gap_swing::GapState;
use crate::strategy::sides::PositionSide;
use crate::strategy::sim::Terms;
use crate::strategy::tape::ask_known;
use crate::strategy::trades::{BotAction, Reason};
use crate::strategy::venue_engine::VenueState;
use crate::units::time_ok;

verus! {

/// Whether what trades asks for orders of a size, at their signal in live trading,
/// and else with the delay of its strategy: 250 milliseconds for gap swing, 70 for
/// venue swing.
pub open spec fn trades_on_time(e: EngineState, live: bool, shares: i64) -> bool {
    match e {
        EngineState::Pairing { .. } => true,
        EngineState::Gap(g) => {
            &&& g.shares == shares
            &&& live ==> g.delay_ms == 0
            &&& !live ==> g.delay_ms == 250
        },
        EngineState::Venue(v) => {
            &&& v.shares == shares
            &&& live ==> v.delay_ms == 0
            &&& !live ==> v.delay_ms == 70
        },
    }
}

/// A bot starts with what its strategy asks for: orders of the configured size,
/// at their signal in live trading.
pub proof fn a_new_bot_trades_on_time(strategy: StrategyKind, live: bool, shares: i64, now: int)
    ensures
        ({
            let b = fresh_bot(strategy, live, shares, now);
            &&& b.live == live
            &&& b.shares == shares
            &&& trades_on_time(b.engine, live, shares)
            &&& strategy_of_engine(b.engine) == strategy
            &&& b.trading_start is None
            &&& b.market is None
            &&& b.pending.len() == 0
            &&& b.accounts.totals.net == 0
        }),
{
}

/// A quote changes nothing of what trades but what it knows of quotes.
proof fn a_quote_keeps_size_and_delay(e: EngineState, q: MarketQuotes)
    ensures
        match (e, engine_fed(e, q)) {
            (EngineState::Gap(a), EngineState::Gap(b)) => b == (GapState { asks: b.asks, ..a }),
            (EngineState::Venue(a), EngineState::Venue(b)) => b == (VenueState {
                asks: b.asks,
                ..a
            }),
            (EngineState::Pairing { .. }, EngineState::Pairing { .. }) => true,
            _ => false,
        },
{
}

proof fn seeding_keeps_size_and_delay(e: EngineState, asks: Seq<(i64, i64, i64)>, n: int)
    ensures
        match (e, seeded(e, asks, n)) {
            (EngineState::Gap(a), EngineState::Gap(b)) => b == (GapState { asks: b.asks, ..a }),
            (EngineState::Venue(a), EngineState::Venue(b)) => b == (VenueState {
                asks: b.asks,
                ..a
            }),
            (EngineState::Pairing { .. }, EngineState::Pairing { .. }) => true,
            _ => false,
        },
    decreases n,
{
    if n > 0 {
        seeding_keeps_size_and_delay(e, asks, n - 1);
        let q = asks[n - 1];
        a_quote_keeps_size_and_delay(
            seeded(e, asks, n - 1),
            MarketQuotes { t: q.0, up_ask: q.1, down_ask: q.2 },
        );
    }
}

/// Whatever ran before, what trades a window that starts asks for orders of the
/// bot's size, at their signal in live trading and else with the delay of its
/// strategy; it trades its five minutes, from nothing, under the market's name.
pub proof fn a_window_starts_on_time(b: BotState, start_ts: i64, now: i64)
    requires
        b.directory.markets.contains_key(start_ts),
    ensures
        trades_on_time(started(b, start_ts, now).0.engine, b.live, b.shares),
        b.directory.markets[start_ts].start_ts == start_ts && time_ok(start_ts * 1_000) && time_ok(
            (start_ts + 300) * 1_000,
        ) ==> ({
            let after = window_started(b, start_ts);
            &&& after.trading_start == Some(start_ts)
            &&& after.market == Some(b.directory.markets[start_ts])
            &&& after.accounts.window is Some
            &&& after.accounts.window->0.slug == b.directory.markets[start_ts].slug
            &&& after.accounts.window->0.ledger.legs == 0
            &&& after.accounts.totals == b.accounts.totals
            &&& match after.engine {
                EngineState::Pairing { trend, pairing } => {
                    &&& trend.open_ms == start_ts * 1_000
                    &&& trend.end_ms == start_ts * 1_000 + 300_000
                    &&& trend.strike == starting_strike(b, start_ts)
                    &&& pairing.state is Idle
                    &&& pairing.history.len() == 0
                },
                EngineState::Gap(g) => {
                    &&& g.open_ms == start_ts * 1_000
                    &&& g.end_ms == start_ts * 1_000 + 300_000
                    &&& g.ptb is None
                    &&& g.intents.commits.len() == 0
                    &&& g.intents.emitted.len() == 0
                },
                EngineState::Venue(v) => {
                    &&& v.open_ms == start_ts * 1_000
                    &&& v.end_ms == start_ts * 1_000 + 300_000
                    &&& v.ptb is None
                    &&& v.intents.commits.len() == 0
                    &&& v.intents.emitted.len() == 0
                },
            }
        }),
        strategy_of_engine(started(b, start_ts, now).0.engine) == strategy_of_engine(b.engine),
{
    let m = b.directory.markets[start_ts];
    let open_ms = (m.start_ts * 1_000) as i64;
    let end_ms = ((m.start_ts + 300) * 1_000) as i64;
    let asks = asks_of(b.books, start_ts);
    match b.engine {
        EngineState::Gap(g) => {
            let e = EngineState::Gap(
                GapState {
                    shares: b.shares,
                    delay_ms: if b.live {
                        0
                    } else {
                        250
                    },
                    ..crate::strategy::gap_swing::next_gap(g, open_ms, end_ms, None)
                },
            );
            seeding_keeps_size_and_delay(e, asks, asks.len() as int);
            if let Some(q) = latest_of(b.books, start_ts) {
                a_quote_keeps_size_and_delay(seeded(e, asks, asks.len() as int), q);
            }
        },
        EngineState::Venue(v) => {
            let e = EngineState::Venue(
                VenueState {
                    shares: b.shares,
                    delay_ms: if b.live {
                        0
                    } else {
                        70
                    },
                    ..crate::strategy::venue_engine::next_venue(v, open_ms, end_ms, None)
                },
            );
            seeding_keeps_size_and_delay(e, asks, asks.len() as int);
            if let Some(q) = latest_of(b.books, start_ts) {
                a_quote_keeps_size_and_delay(seeded(e, asks, asks.len() as int), q);
            }
        },
        _ => {},
    }
    let after = window_started(b, start_ts);
    if let Some((t, px)) = b.last_cl {
        locking_keeps_size_and_delay(after, start_ts, px, now);
    }
}

/// An opening price changes neither the size nor the delay of orders.
pub proof fn locking_keeps_size_and_delay(b: BotState, start_ts: i64, ptb: i64, now: i64)
    requires
        trades_on_time(b.engine, b.live, b.shares),
    ensures
        trades_on_time(locked(b, start_ts, ptb, now).0.engine, b.live, b.shares),
        strategy_of_engine(locked(b, start_ts, ptb, now).0.engine) == strategy_of_engine(b.engine),
        locked(b, start_ts, ptb, now).0.live == b.live,
        locked(b, start_ts, ptb, now).0.shares == b.shares,
{
    match b.engine {
        EngineState::Gap(g) if g.ptb is None && ptb > 0 => {
            let (up, down) = asks_at_lock(b, start_ts);
            let (after, actions) = crate::strategy::gap_swing::ticked(
                crate::strategy::gap_swing::struck(g, ptb),
                now,
                up,
                down,
            );
            let noted = crate::subscriptions::Directory {
                strikes: b.directory.strikes.insert(start_ts, ptb),
                ..b.directory
            };
            orders_move_only_what_waits(
                BotState { engine: EngineState::Gap(after), directory: noted, ..b },
                actions,
                now as int,
                actions.len() as int,
            );
        },
        _ => {},
    }
}

/// Prices, quotes and the end of a turn change neither the size nor the delay of
/// orders, nor whether the bot trades live.
pub proof fn a_turn_keeps_size_and_delay(
    b: BotState,
    t: i64,
    price: i64,
    got_bn: bool,
    now: i64,
    m: spec_fn(i64) -> i64,
)
    requires
        trades_on_time(b.engine, b.live, b.shares),
    ensures
        ({
            let after = driven_bn(b, t, price, now as int, m).0;
            trades_on_time(after.engine, b.live, b.shares) && after.live == b.live && after.shares
                == b.shares
        }),
        ({
            let after = driven_cb(b, t, price, got_bn, now as int, m).0;
            trades_on_time(after.engine, b.live, b.shares) && after.live == b.live && after.shares
                == b.shares
        }),
        ({
            let after = turn_ended(b, now).0;
            trades_on_time(after.engine, b.live, b.shares) && after.live == b.live && after.shares
                == b.shares
        }),
        trades_on_time(asks_fed(b).engine, b.live, b.shares),
        trades_on_time(bn_ingested(b, t, price).engine, b.live, b.shares),
        trades_on_time(cb_ingested(b, t, price).engine, b.live, b.shares),
{
    match b.engine {
        EngineState::Gap(g) => {
            let (after, actions) = crate::strategy::gap_swing::priced(g, t, price);
            orders_move_only_what_waits(
                BotState { engine: EngineState::Gap(after), last_bn: Some(price), ..b },
                actions,
                now as int,
                actions.len() as int,
            );
            orders_move_only_what_waits(
                BotState { engine: EngineState::Gap(after), last_cb: Some(price), ..b },
                actions,
                now as int,
                actions.len() as int,
            );
        },
        EngineState::Venue(v) => {
            let (after, actions) = crate::strategy::venue_engine::priced_on_binance(v, t, price);
            orders_move_only_what_waits(
                BotState { engine: EngineState::Venue(after), last_bn: Some(price), ..b },
                actions,
                now as int,
                actions.len() as int,
            );
            let (other, more) = crate::strategy::venue_engine::priced_on_coinbase(v, t, price);
            orders_move_only_what_waits(
                BotState { engine: EngineState::Venue(other), last_cb: Some(price), ..b },
                more,
                now as int,
                more.len() as int,
            );
        },
        _ => {},
    }
    if let Some(market) = b.market {
        if let Some(q) = latest_of(b.books, market.start_ts) {
            let (engine, actions) = engine_ticked(b.engine, q, now, market.end_ts * 1_000);
            orders_move_only_what_waits(
                BotState { engine, ..b },
                actions,
                now as int,
                actions.len() as int,
            );
        }
    }
}

/// Orders are placed from the moment the market's window opens, and in gap swing
/// only once the opening price is known.
pub proof fn trading_opens_with_the_window(b: BotState, now: int)
    ensures
        may_trade(b, now) <==> {
            &&& b.market is Some
            &&& now >= b.market->0.start_ts * 1_000
            &&& b.engine is Gap ==> b.engine->Gap_0.ptb is Some
        },
{
}

/// In live trading an entry is bought as an entry, a pair as a pair, and a sale is
/// sold, each for its own token, at its limit and for its reason; nothing waits.
pub proof fn live_orders_are_what_is_asked_for(
    b: BotState,
    side: PositionSide,
    signal_t: i64,
    worst_ask: i64,
    reason: Reason,
    now: int,
)
    requires
        may_trade(b, now),
        b.live,
    ensures
        executed(b, BotAction::BuyEntry { side, signal_t, worst_ask, reason }, now) == (
            b,
            Order::Buy { side, worst_ask, reason, pair: false },
        ),
        executed(b, BotAction::BuyPair { side, signal_t, worst_ask, reason }, now) == (
            b,
            Order::Buy { side, worst_ask, reason, pair: true },
        ),
        executed(b, BotAction::SellFlatten { side, signal_t, worst_ask, reason }, now) == (
            b,
            Order::Sell { side, worst_ask, reason },
        ),
{
}

/// In a dry run an order waits for its fill from its signal on: a buy with its
/// limit, a sale at a cent below it, a cent at least.
pub proof fn dry_orders_wait_for_their_fill(
    b: BotState,
    side: PositionSide,
    signal_t: i64,
    worst_ask: i64,
    reason: Reason,
    now: int,
)
    requires
        may_trade(b, now),
        !b.live,
        worst_ask > i64::MIN + 10_000_000,
    ensures
        ({
            let start_ts = b.market->0.start_ts;
            let entry = executed(b, BotAction::BuyEntry { side, signal_t, worst_ask, reason }, now);
            let pair = executed(b, BotAction::BuyPair { side, signal_t, worst_ask, reason }, now);
            let sale = executed(
                b,
                BotAction::SellFlatten { side, signal_t, worst_ask, reason },
                now,
            );
            let fill = PendingDryFill {
                send_t: signal_t,
                start_ts,
                side,
                kind: FillKind::Entry,
                worst_ask,
                reason,
            };
            &&& entry.1 == Order::Queued && pair.1 == Order::Queued && sale.1 == Order::Queued
            &&& entry.0.pending == b.pending.push(fill)
            &&& pair.0.pending == b.pending.push(PendingDryFill { kind: FillKind::Pair, ..fill })
            &&& worst_ask >= 20_000_000 ==> sale.0.pending == b.pending.push(
                PendingDryFill {
                    kind: FillKind::Flatten,
                    worst_ask: (worst_ask - 10_000_000) as i64,
                    ..fill
                },
            )
            &&& worst_ask < 20_000_000 ==> sale.0.pending == b.pending.push(
                PendingDryFill { kind: FillKind::Flatten, worst_ask: 10_000_000, ..fill },
            )
            &&& entry.0.engine == b.engine && pair.0.engine == b.engine && sale.0.engine == b.engine
        }),
{
}

/// Orders are executed one after the other, each on what the ones before it left.
pub proof fn orders_are_executed_in_turn(b: BotState, actions: Seq<BotAction>, now: int, n: int)
    requires
        0 < n <= actions.len(),
    ensures
        ({
            let (before, earlier) = executed_through(b, actions, now, n - 1);
            let (after, orders) = executed_through(b, actions, now, n);
            &&& after == executed(before, actions[n - 1], now).0
            &&& orders == earlier.push(executed(before, actions[n - 1], now).1)
        }),
        executed_through(b, actions, now, 0) == (b, Seq::<Order>::empty()),
        executed_all(b, actions, now) == executed_through(b, actions, now, actions.len() as int),
{
}

/// A fill of a dry run is due a quarter of a second after its order, in venue swing
/// 70 milliseconds after it; at the end of its window every fill is.
pub proof fn dry_fills_are_due_after_the_delay(b: BotState, p: PendingDryFill, now: i64, start: i64)
    ensures
        !(b.engine is Venue) ==> (is_due(due_at(b, now), p) <==> now >= p.send_t + 250),
        b.engine is Venue ==> (is_due(due_at(b, now), p) <==> now >= p.send_t + 70),
        is_due(Due::Window { start_ts: start }, p) <==> p.start_ts == start,
{
}

/// A fill of a dry run pays the last ask that is known before its delay is over,
/// its limit if none is; a sale gets its price.
pub proof fn dry_fills_pay_the_ask_of_their_time(b: BotState, p: PendingDryFill)
    ensures
        ({
            let delay = if b.engine is Venue {
                70int
            } else {
                250int
            };
            let ask = ask_known(asks_of(b.books, p.start_ts), p.send_t + delay - 1, p.side);
            &&& p.kind == FillKind::Flatten ==> fill_price(b, p) == p.worst_ask
            &&& p.kind != FillKind::Flatten && ask is Some ==> fill_price(b, p) == ask->0
            &&& p.kind != FillKind::Flatten && ask is None ==> fill_price(b, p) == p.worst_ask
        }),
{
}

/// In pairing a fill of the running window is booked, a buy as bought and a sale
/// as sold, of the bot's size at the price it came at; one of another window only
/// when that window ends.
pub proof fn pairing_books_its_fills(b: BotState, p: PendingDryFill, force: bool)
    requires
        b.engine is Pairing,
    ensures
        ({
            let after = booked(b, p, force);
            let px = fill_price(b, p) as int;
            &&& !force && b.trading_start != Some(p.start_ts) ==> after == b
            &&& (force || b.trading_start == Some(p.start_ts)) && p.kind != FillKind::Flatten
                ==> after.accounts == crate::pnl::buy_booked(
                b.accounts,
                p.side,
                px,
                b.shares as int,
            )
            &&& (force || b.trading_start == Some(p.start_ts)) && p.kind == FillKind::Flatten
                ==> after.accounts == crate::pnl::sale_booked(
                b.accounts,
                p.side,
                px,
                b.shares as int,
            )
        }),
{
}

/// The oracle's average at or after the open of the running window is its opening
/// price; an earlier one, or one not above nothing, is noted only.
pub proof fn the_first_average_of_a_window_opens_it(b: BotState, t: i64, price: i64, now: i64)
    ensures
        ({
            let seen = BotState { last_cl: Some((t, price)), ..b };
            match b.trading_start {
                Some(start) => if t >= start * 1_000 && price > 0 {
                    averaged(b, t, price, now) == locked(seen, start, price, now)
                } else {
                    averaged(b, t, price, now) == (seen, Seq::<Order>::empty())
                },
                None => averaged(b, t, price, now) == (seen, Seq::<Order>::empty()),
            }
        }),
        b.trading_start != Some(t) ==> site_struck(b, t, price, now) == (b, Seq::<Order>::empty()),
        b.trading_start == Some(t) ==> site_struck(b, t, price, now) == locked(b, t, price, now),
{
}

/// Pairing starts a window at the official opening price, else at Binance's last
/// price, else at Coinbase's.
pub proof fn pairing_starts_at_the_best_price_known(b: BotState, start_ts: i64)
    ensures
        b.directory.strikes.contains_key(start_ts) ==> starting_strike(b, start_ts) == Some(
            b.directory.strikes[start_ts],
        ),
        !b.directory.strikes.contains_key(start_ts) && b.last_bn is Some ==> starting_strike(
            b,
            start_ts,
        ) == b.last_bn,
        !b.directory.strikes.contains_key(start_ts) && b.last_bn is None ==> starting_strike(
            b,
            start_ts,
        ) == b.last_cb,
{
}

/// A price of Binance goes to what trades and is remembered; gap swing takes one
/// of Coinbase only in a turn without one of Binance, venue swing takes both.
pub proof fn prices_go_to_what_trades(
    b: BotState,
    t: i64,
    price: i64,
    got_bn: bool,
    now: int,
    m: spec_fn(i64) -> i64,
)
    ensures
        bn_ingested(b, t, price).last_bn == Some(price),
        cb_ingested(b, t, price).last_cb == Some(price),
        b.engine matches EngineState::Gap(g) ==> {
            let (after, actions) = crate::strategy::gap_swing::priced(g, t, price);
            &&& driven_bn(b, t, price, now, m) == executed_all(
                BotState { engine: EngineState::Gap(after), last_bn: Some(price), ..b },
                actions,
                now,
            )
            &&& got_bn ==> driven_cb(b, t, price, got_bn, now, m) == (
                BotState { last_cb: Some(price), ..b },
                Seq::<Order>::empty(),
            )
            &&& !got_bn ==> driven_cb(b, t, price, got_bn, now, m) == executed_all(
                BotState { engine: EngineState::Gap(after), last_cb: Some(price), ..b },
                actions,
                now,
            )
            &&& bn_ingested(b, t, price).engine == EngineState::Gap(after)
            &&& b.last_bn is Some ==> cb_ingested(b, t, price).engine == b.engine
            &&& b.last_bn is None ==> cb_ingested(b, t, price).engine == EngineState::Gap(after)
        },
        b.engine matches EngineState::Venue(v) ==> {
            let (bn, bought) = crate::strategy::venue_engine::priced_on_binance(v, t, price);
            let (cb, more) = crate::strategy::venue_engine::priced_on_coinbase(v, t, price);
            &&& driven_bn(b, t, price, now, m) == executed_all(
                BotState { engine: EngineState::Venue(bn), last_bn: Some(price), ..b },
                bought,
                now,
            )
            &&& driven_cb(b, t, price, got_bn, now, m) == executed_all(
                BotState { engine: EngineState::Venue(cb), last_cb: Some(price), ..b },
                more,
                now,
            )
            &&& bn_ingested(b, t, price).engine == EngineState::Venue(bn)
            &&& cb_ingested(b, t, price).engine == EngineState::Venue(cb)
        },
{
}

/// A signal is taken up where orders are placed and nothing is pending or held.
pub proof fn signals_are_taken_up(b: BotState, sig: CaptureSignal, now: int)
    requires
        b.engine is Pairing,
    ensures
        ({
            let p = b.engine->pairing;
            let after = signal_taken(b, Some(sig), now);
            &&& may_trade(b, now) && (p.state is Idle || p.state is Cooldown)
                ==> after.engine->pairing == crate::strategy::pairing::signalled(p, sig)
            &&& !may_trade(b, now) || p.state is Holding || p.state is PendingEntry ==> after == b
            &&& signal_taken(b, None, now) == b
        }),
{
}

/// A quote is taken if and only if its window is subscribed to.
pub proof fn quotes_of_subscribed_windows_are_taken(b: BotState, q: PolyQuote)
    ensures
        !b.directory.subscribed.contains(q.start_ts) ==> quote_taken(b, q) == b,
        b.directory.subscribed.contains(q.start_ts) && q.up_ask > 0 ==> latest_of(
            quote_taken(b, q).books,
            q.start_ts,
        ) == Some(MarketQuotes { t: q.t, up_ask: q.up_ask, down_ask: q.down_ask }),
        b.directory.subscribed.contains(q.start_ts) && q.up_ask <= 0 ==> quote_taken(b, q).books
            == b.books,
{
}

/// A turn ends with the last quote of the traded market, if there is one, handed
/// to what trades; and its orders are executed.
pub proof fn a_turn_ends_at_the_last_quote(b: BotState, now: i64)
    ensures
        b.market is None ==> turn_ended(b, now) == (b, Seq::<Order>::empty()),
        b.market matches Some(market) ==> (latest_of(b.books, market.start_ts) is None
            ==> turn_ended(b, now) == (b, Seq::<Order>::empty())),
        b.market matches Some(market) ==> (latest_of(b.books, market.start_ts) matches Some(q)
            ==> {
            let (engine, actions) = engine_ticked(b.engine, q, now, market.end_ts * 1_000);
            turn_ended(b, now) == executed_all(BotState { engine, ..b }, actions, now as int)
        }),
{
}

/// What trades is ticked with the asks of the quote at the time of the clock.
pub proof fn what_trades_is_ticked(e: EngineState, q: MarketQuotes, now: i64, end_ms: int)
    ensures
        e matches EngineState::Gap(g) ==> engine_ticked(e, q, now, end_ms) == ({
            let (after, actions) = crate::strategy::gap_swing::ticked(g, now, q.up_ask, q.down_ask);
            (EngineState::Gap(after), actions)
        }),
        e matches EngineState::Venue(v) ==> engine_ticked(e, q, now, end_ms) == ({
            let (after, actions) = crate::strategy::venue_engine::ticked(
                v,
                now,
                q.up_ask,
                q.down_ask,
            );
            (EngineState::Venue(after), actions)
        }),
        e matches EngineState::Pairing { trend, pairing } ==> {
            let (after, order) = crate::strategy::pairing::ticked(
                pairing,
                now,
                q.up_ask,
                q.down_ask,
                end_ms,
            );
            &&& engine_ticked(e, q, now, end_ms).0 == (EngineState::Pairing {
                trend,
                pairing: after,
            })
            &&& order is Some ==> engine_ticked(e, q, now, end_ms).1 == seq![order->0]
            &&& order is None ==> engine_ticked(e, q, now, end_ms).1.len() == 0
        },
{
}

/// At the end of a window pairing looks at its holding once more if the last tick
/// led to nothing.
pub proof fn a_window_ends_with_a_last_look(
    b: BotState,
    trend: crate::strategy::detector::Trend,
    pairing: crate::strategy::pairing::Pairing,
    q: MarketQuotes,
    now: i64,
    end_ms: int,
)
    ensures
        ({
            let e = EngineState::Pairing { trend, pairing };
            let (ticked, order) = crate::strategy::pairing::ticked(
                pairing,
                now,
                q.up_ask,
                q.down_ask,
                end_ms,
            );
            let (last, exit) = crate::strategy::pairing::last_ticked(ticked, end_ms);
            &&& order is Some ==> engine_closing(e, q, now, end_ms).1 == seq![order->0]
            &&& order is None && exit is Some ==> engine_closing(e, q, now, end_ms).1 == seq![exit->0]
            &&& order is None && exit is None ==> engine_closing(e, q, now, end_ms).1.len() == 0
            &&& order is None ==> engine_closing(e, q, now, end_ms).0->pairing == last
        }),
        b.market is None ==> closing_ticked(b, 0, now) == (b, Seq::<Order>::empty()),
{
}

/// Who wins is said by the last asks of the window where they are clear, and else
/// by the oracle's last average against the opening price; without quotes both
/// asks count as 50 cents.
pub proof fn the_oracle_decides_what_asks_leave_open(b: BotState, start_ts: i64)
    ensures
        ({
            let q = latest_of(b.books, start_ts);
            let up = if q is Some {
                q->0.up_ask
            } else {
                500_000_000
            };
            let down = if q is Some {
                q->0.down_ask
            } else {
                500_000_000
            };
            let strike = match b.engine {
                EngineState::Pairing { trend, .. } => trend.strike,
                EngineState::Gap(g) => g.ptb,
                EngineState::Venue(v) => v.ptb,
            };
            let (_, average) = b.last_cl->0;
            let clear = (up >= 550_000_000 && down <= 450_000_000) || (down >= 550_000_000 && up
                <= 450_000_000);
            let w = window_winner(b, start_ts);
            &&& up >= 550_000_000 && down <= 450_000_000 ==> w == Some(PositionSide::Up)
            &&& down >= 550_000_000 && up <= 450_000_000 ==> w == Some(PositionSide::Down)
            &&& !clear && b.last_cl is Some && strike is Some ==> (w == Some(PositionSide::Up)
                <==> average > strike->0)
            &&& !clear && b.last_cl is Some && strike is Some ==> w is Some
            &&& !clear && (b.last_cl is None || strike is None) ==> w is None
        }),
{
}

/// A swing window is booked at what it comes to when it is played to its close with
/// the orders' size and delay, from its fills; its quotes are forgotten.
pub proof fn a_gap_window_is_booked_at_its_outcome(b: BotState, start_ts: i64, g: GapState)
    requires
        b.engine == EngineState::Gap(g),
    ensures
        ({
            let w = Terms {
                open_ms: g.open_ms,
                end_ms: g.end_ms,
                market_end: g.end_ms,
                shares: g.shares,
                delay_ms: g.delay_ms,
            };
            let out = crate::strategy::gap_swing::gap_outcome(
                w,
                g.ptb,
                g.btc,
                g.asks,
                window_winner(b, start_ts),
                g.intents.commits,
            );
            let after = window_closed(b, start_ts);
            &&& after.accounts.totals.net == (b.accounts.totals.net + out.total_pnl) as i128
            &&& after.accounts.totals.gross == (b.accounts.totals.gross + out.total_pnl) as i128
            &&& after.accounts.totals.fees == b.accounts.totals.fees
            &&& after.accounts.window is None
            &&& latest_of(after.books, start_ts) is None
            &&& asks_of(after.books, start_ts).len() == 0
            &&& after.pending == waiting_fills(Due::Window { start_ts }, b.pending)
        }),
{
    let fills = due_fills(Due::Window { start_ts }, b.pending);
    let rest = BotState { pending: waiting_fills(Due::Window { start_ts }, b.pending), ..b };
    super::state::booking_leaves_totals(rest, fills, true, fills.len() as int);
}

/// A venue-swing window likewise.
pub proof fn a_venue_window_is_booked_at_its_outcome(b: BotState, start_ts: i64, v: VenueState)
    requires
        b.engine == EngineState::Venue(v),
    ensures
        ({
            let w = Terms {
                open_ms: v.open_ms,
                end_ms: v.end_ms,
                market_end: v.end_ms,
                shares: v.shares,
                delay_ms: v.delay_ms,
            };
            let out = crate::strategy::venue_swing::venue_outcome(
                w,
                v.binance,
                v.coinbase,
                v.asks,
                window_winner(b, start_ts),
                v.intents.commits,
            );
            let after = window_closed(b, start_ts);
            &&& after.accounts.totals.net == (b.accounts.totals.net + out.total_pnl) as i128
            &&& after.accounts.totals.gross == (b.accounts.totals.gross + out.total_pnl) as i128
            &&& after.accounts.totals.fees == b.accounts.totals.fees
            &&& after.accounts.window is None
            &&& latest_of(after.books, start_ts) is None
            &&& asks_of(after.books, start_ts).len() == 0
            &&& after.pending == waiting_fills(Due::Window { start_ts }, b.pending)
        }),
{
    let fills = due_fills(Due::Window { start_ts }, b.pending);
    let rest = BotState { pending: waiting_fills(Due::Window { start_ts }, b.pending), ..b };
    super::state::booking_leaves_totals(rest, fills, true, fills.len() as int);
}

/// A note on the tape is due every fifteen seconds, in the swing strategies.
pub proof fn notes_come_every_fifteen_seconds(b: BotState, now: int)
    ensures
        note_due(b, now) <==> !(b.engine is Pairing) && now >= b.last_tape_ms + 15_000,
{
}

} // verus!
