//! The state of the trading loop, and what every step makes of it.
use vstd::prelude::*;
use crate::config::StrategyKind;
use crate::dry_fills::{due_fills, fills_ok, waiting_fills, Due, FillKind, PendingDryFill};
use crate::feeds::polymarket::PolyQuote;
use crate::gamma::{slug_of, Market};
use crate::pnl::{
    buy_booked, fresh_ledger, net_booked, sale_booked, window_booked, winner_of, Accounts,
    Statement, Totals, WindowClose, MAX_TOTAL,
};
use crate::poly_book::{
    all_asks_ok, asks_of, book_pushed, latest_of, window_of, Books, MarketQuotes, TAKER_DELAY_MS,
};
use crate::strategy::detector::{
    after_bn, after_cb, next_trend, no_trend, trend_ok, CaptureSignal, Trend, MAX_SAMPLES,
};
use crate::strategy::gap_swing::{
    fresh_gap, gap_ok, gap_outcome, next_gap, priced, quoted, struck, GapState, MAX_LIVE_FILLS,
};
use crate::strategy::intents::open_in;
use crate::strategy::pairing::{last_ticked, pairing_ok, signalled, Pairing, State};
use crate::strategy::sides::PositionSide;
use crate::strategy::tape::ask_known;
use crate::strategy::trades::{BotAction, Reason};
use crate::strategy::venue_engine::{
    fresh_venue, next_venue, priced_on_binance, priced_on_coinbase, venue_ok, VenueState,
};
use crate::strategy::venue_swing::{venue_outcome, VENUE_TAKER_DELAY_MS};
use crate::subscriptions::{all_known, Directory};
use crate::units::{magnitude, price_ok, shares_ok, time_ok, CENT};

verus! {

/// Time between notes on the tape.
pub const TAPE_NOTE_MS: i64 = 15_000;

/// Attempts at the opening price of a window that starts.
pub const OFFICIAL_ATTEMPTS: u32 = 8;

/// Time between these attempts.
pub const OFFICIAL_RETRY_MS: u64 = 250;

/// How long the oracle feed is waited for before the site is asked for an
/// opening price.
pub const REST_FALLBACK_MS: u64 = 8_000;

/// What is assumed of both asks of a window that was never quoted.
pub const EVEN_ASK: i64 = 500_000_000;

/// What trades.
pub enum EngineState {
    Pairing { trend: Trend, pairing: Pairing },
    Gap(GapState),
    Venue(VenueState),
}

/// Whether what trades is valid.
pub open spec fn engine_ok(e: EngineState) -> bool {
    match e {
        EngineState::Pairing { trend, pairing } => trend_ok(trend) && pairing_ok(pairing),
        EngineState::Gap(g) => gap_ok(g),
        EngineState::Venue(v) => venue_ok(v),
    }
}

/// The strategy of what trades.
pub open spec fn strategy_of_engine(e: EngineState) -> StrategyKind {
    match e {
        EngineState::Pairing { .. } => StrategyKind::Pairing,
        EngineState::Gap(_) => StrategyKind::GapSwing,
        EngineState::Venue(_) => StrategyKind::VenueSwing,
    }
}

/// Whether what trades can take another price.
pub open spec fn has_room(e: EngineState) -> bool {
    match e {
        EngineState::Pairing { trend, .. } => trend.samples.len() < MAX_SAMPLES,
        EngineState::Gap(g) => g.intents.commits.len() <= MAX_LIVE_FILLS,
        EngineState::Venue(v) => v.intents.commits.len() <= MAX_LIVE_FILLS,
    }
}

/// The opening price that is known.
pub open spec fn strike_of(e: EngineState) -> Option<i64> {
    match e {
        EngineState::Pairing { trend, .. } => trend.strike,
        EngineState::Gap(g) => g.ptb,
        EngineState::Venue(v) => v.ptb,
    }
}

/// State of the trading loop.
pub struct BotState {
    pub live: bool,
    pub shares: i64,
    /// Last price of Binance.
    pub last_bn: Option<i64>,
    /// Last price of Coinbase.
    pub last_cb: Option<i64>,
    /// Last average of the oracle feed and its time.
    pub last_cl: Option<(i64, i64)>,
    pub directory: Directory,
    /// The window that is traded.
    pub trading_start: Option<i64>,
    /// Its market.
    pub market: Option<Market>,
    pub engine: EngineState,
    pub books: Books,
    pub accounts: Accounts,
    /// Fills of a dry run that wait.
    pub pending: Seq<PendingDryFill>,
    pub last_tape_ms: i64,
}

/// Whether a market is in range.
pub open spec fn market_ok(m: Market) -> bool {
    time_ok((m.start_ts + 300) * 1_000) && time_ok(m.start_ts * 1_000) && time_ok(m.end_ts * 1_000)
}

/// Whether the state is valid: all of it is in range, and the markets of the
/// windows that are subscribed to are known.
pub open spec fn bot_ok(b: BotState) -> bool {
    &&& shares_ok(b.shares as int)
    &&& b.last_bn matches Some(px) ==> price_ok(px as int)
    &&& b.last_cb matches Some(px) ==> price_ok(px as int)
    &&& b.last_cl matches Some(q) ==> time_ok(q.0 as int) && price_ok(q.1 as int)
    &&& b.trading_start matches Some(start) ==> time_ok(start * 1_000) && time_ok(
        (start + 300) * 1_000,
    )
    &&& b.market matches Some(m) ==> market_ok(m)
    &&& engine_ok(b.engine)
    &&& all_asks_ok(b.books)
    &&& fills_ok(b.pending)
    &&& forall|k: i64| #[trigger]
        b.directory.markets.contains_key(k) ==> market_ok(b.directory.markets[k])
    &&& forall|k: i64| #[trigger]
        b.directory.strikes.contains_key(k) ==> price_ok(b.directory.strikes[k] as int)
    &&& all_known(b.directory, b.directory.subscribed)
}

/// Delay from signal to fill that a strategy reckons with: none if it trades
/// live.
pub open spec fn reckoned_delay(strategy: StrategyKind, live: bool) -> i64 {
    if live {
        0
    } else {
        fill_delay(strategy)
    }
}

/// Delay from order to fill in a dry run.
pub open spec fn fill_delay(strategy: StrategyKind) -> i64 {
    match strategy {
        StrategyKind::VenueSwing => VENUE_TAKER_DELAY_MS,
        _ => TAKER_DELAY_MS,
    }
}

/// What trades a window in which nothing has happened.
pub open spec fn fresh_engine(strategy: StrategyKind, live: bool, shares: i64, start: int) -> EngineState {
    let open_ms = (start * 1_000) as i64;
    let end_ms = ((start + 300) * 1_000) as i64;
    let delay_ms = reckoned_delay(strategy, live);
    match strategy {
        StrategyKind::Pairing => EngineState::Pairing {
            trend: no_trend(open_ms, end_ms, None),
            pairing: Pairing { state: State::Idle, history: Seq::empty() },
        },
        StrategyKind::GapSwing => EngineState::Gap(
            GapState { shares, delay_ms, ..fresh_gap(open_ms, end_ms, None) },
        ),
        StrategyKind::VenueSwing => EngineState::Venue(
            VenueState { shares, delay_ms, ..fresh_venue(open_ms, end_ms, None) },
        ),
    }
}

/// The trading loop before its first turn.
pub open spec fn fresh_bot(strategy: StrategyKind, live: bool, shares: i64, now: int) -> BotState {
    BotState {
        live,
        shares,
        last_bn: None,
        last_cb: None,
        last_cl: None,
        directory: Directory {
            markets: Map::empty(),
            subscribed: Seq::empty(),
            strikes: Map::empty(),
            confirmed: Set::empty(),
            last_prefetch_ms: 0,
            last_limited_ms: 0,
        },
        trading_start: None,
        market: None,
        engine: fresh_engine(strategy, live, shares, window_of(now)),
        books: Books { windows: Map::empty(), latest: Map::empty() },
        accounts: Accounts { totals: Totals { net: 0, gross: 0, fees: 0 }, window: None },
        pending: Seq::empty(),
        last_tape_ms: 0,
    }
}

/// Whether orders are placed: there is a market, its window has opened, and
/// gap swing knows the opening price.
pub open spec fn may_trade(b: BotState, now: int) -> bool {
    match b.market {
        Some(m) => now >= m.start_ts * 1_000 && (b.engine matches EngineState::Gap(g) ==> g.ptb
            is Some),
        None => false,
    }
}

/// What becomes of an order that a strategy wants placed.
#[derive(Clone, Copy, Debug, PartialEq, Eq, Structural)]
pub enum Order {
    /// Nothing.
    Dropped,
    /// It is filled after a delay, in a dry run.
    Queued,
    /// Shares of a side are bought; `pair` if they complete a pair.
    Buy { side: PositionSide, worst_ask: i64, reason: Reason, pair: bool },
    /// Shares of a side are sold.
    Sell { side: PositionSide, worst_ask: i64, reason: Reason },
}

/// The price that a sale of a dry run is filled at: a cent below the ask, and
/// a cent at least.
pub open spec fn flatten_price(worst_ask: int) -> int {
    if worst_ask - CENT < CENT {
        CENT as int
    } else {
        worst_ask - CENT
    }
}

/// The fill that an order waits for in a dry run.
pub open spec fn dry_fill(a: BotAction, start_ts: i64) -> PendingDryFill {
    match a {
        BotAction::BuyEntry { side, signal_t, worst_ask, reason } => PendingDryFill {
            send_t: signal_t,
            start_ts,
            side,
            kind: FillKind::Entry,
            worst_ask,
            reason,
        },
        BotAction::BuyPair { side, signal_t, worst_ask, reason } => PendingDryFill {
            send_t: signal_t,
            start_ts,
            side,
            kind: FillKind::Pair,
            worst_ask,
            reason,
        },
        BotAction::SellFlatten { side, signal_t, worst_ask, reason } => PendingDryFill {
            send_t: signal_t,
            start_ts,
            side,
            kind: FillKind::Flatten,
            worst_ask: flatten_price(worst_ask as int) as i64,
            reason,
        },
    }
}

/// The order that is placed in live trading.
pub open spec fn live_order(a: BotAction) -> Order {
    match a {
        BotAction::BuyEntry { side, worst_ask, reason, .. } => Order::Buy {
            side,
            worst_ask,
            reason,
            pair: false,
        },
        BotAction::BuyPair { side, worst_ask, reason, .. } => Order::Buy {
            side,
            worst_ask,
            reason,
            pair: true,
        },
        BotAction::SellFlatten { side, worst_ask, reason, .. } => Order::Sell {
            side,
            worst_ask,
            reason,
        },
    }
}

/// What becomes of an order.
pub open spec fn executed(b: BotState, a: BotAction, now: int) -> (BotState, Order) {
    if !may_trade(b, now) {
        (b, Order::Dropped)
    } else if b.live {
        (b, live_order(a))
    } else {
        (
            BotState { pending: b.pending.push(dry_fill(a, b.market->0.start_ts)), ..b },
            Order::Queued,
        )
    }
}

/// What becomes of the first `n` orders.
pub open spec fn executed_through(b: BotState, actions: Seq<BotAction>, now: int, n: int) -> (
    BotState,
    Seq<Order>,
)
    decreases n,
{
    if n <= 0 {
        (b, Seq::empty())
    } else {
        let (before, orders) = executed_through(b, actions, now, n - 1);
        let (after, order) = executed(before, actions[n - 1], now);
        (after, orders.push(order))
    }
}

/// What becomes of orders.
pub open spec fn executed_all(b: BotState, actions: Seq<BotAction>, now: int) -> (
    BotState,
    Seq<Order>,
) {
    executed_through(b, actions, now, actions.len() as int)
}

/// The asks of a window that an opening price is taken up at.
pub open spec fn asks_at_lock(b: BotState, start_ts: i64) -> (i64, i64) {
    match latest_of(b.books, start_ts) {
        Some(q) => (q.up_ask, q.down_ask),
        None => (0, 0),
    }
}

/// The state after an opening price.  The first one that is above nothing is
/// kept; gap swing plays its window again with it.
pub open spec fn locked(b: BotState, start_ts: i64, ptb: i64, now: i64) -> (BotState, Seq<Order>) {
    let noted = Directory { strikes: b.directory.strikes.insert(start_ts, ptb), ..b.directory };
    match b.engine {
        EngineState::Gap(g) if g.ptb is None && ptb > 0 => {
            let (up, down) = asks_at_lock(b, start_ts);
            let (after, actions) = crate::strategy::gap_swing::ticked(
                struck(g, ptb),
                now,
                up,
                down,
            );
            executed_all(
                BotState { engine: EngineState::Gap(after), directory: noted, ..b },
                actions,
                now as int,
            )
        },
        EngineState::Venue(v) if v.ptb is None && ptb > 0 => (
            BotState {
                engine: EngineState::Venue(crate::strategy::venue_engine::struck(v, ptb)),
                directory: noted,
                ..b
            },
            Seq::empty(),
        ),
        _ => (b, Seq::empty()),
    }
}

/// The state after an average of the oracle feed.  One of the running window
/// is its opening price.
pub open spec fn averaged(b: BotState, t: i64, price: i64, now: i64) -> (BotState, Seq<Order>) {
    let seen = BotState { last_cl: Some((t, price)), ..b };
    match b.trading_start {
        Some(start) if t >= start * 1_000 && price > 0 => locked(seen, start, price, now),
        _ => (seen, Seq::empty()),
    }
}

/// The state after an opening price of the site.
pub open spec fn site_struck(b: BotState, start_ts: i64, px: i64, now: i64) -> (
    BotState,
    Seq<Order>,
) {
    if b.trading_start == Some(start_ts) {
        locked(b, start_ts, px, now)
    } else {
        (b, Seq::empty())
    }
}

/// The state after a quote: the books take it if its window is subscribed to.
pub open spec fn quote_taken(b: BotState, q: PolyQuote) -> BotState {
    if b.directory.subscribed.contains(q.start_ts) {
        BotState { books: book_pushed(b.books, q.start_ts, q.t, q.up_ask, q.down_ask), ..b }
    } else {
        b
    }
}

/// What trades after a quote.
pub open spec fn engine_fed(e: EngineState, q: MarketQuotes) -> EngineState {
    match e {
        EngineState::Pairing { trend, pairing } => EngineState::Pairing {
            trend: if q.up_ask > 0 {
                Trend { poly: trend.poly.push((q.t, q.up_ask, q.down_ask)), ..trend }
            } else {
                trend
            },
            pairing,
        },
        EngineState::Gap(g) => EngineState::Gap(quoted(g, q.t, q.up_ask, q.down_ask)),
        EngineState::Venue(v) => EngineState::Venue(
            crate::strategy::venue_engine::quoted(v, q.t, q.up_ask, q.down_ask),
        ),
    }
}

/// The state after what trades has seen the last quote of its market.
pub open spec fn asks_fed(b: BotState) -> BotState {
    match b.market {
        Some(m) => match latest_of(b.books, m.start_ts) {
            Some(q) => BotState { engine: engine_fed(b.engine, q), ..b },
            None => b,
        },
        None => b,
    }
}

/// The state after an impulse: it is taken up if orders are placed and nothing
/// is held.
pub open spec fn signal_taken(b: BotState, sig: Option<CaptureSignal>, now: int) -> BotState {
    match (sig, b.engine) {
        (Some(sig), EngineState::Pairing { trend, pairing }) => if may_trade(b, now) && (
        pairing.state is Idle || pairing.state is Cooldown) {
            BotState {
                engine: EngineState::Pairing { trend, pairing: signalled(pairing, sig) },
                ..b
            }
        } else {
            b
        },
        _ => b,
    }
}

/// The state after a price of Binance in a turn in which orders are placed.
pub open spec fn driven_bn(
    b: BotState,
    t: i64,
    price: i64,
    now: int,
    m: spec_fn(i64) -> i64,
) -> (BotState, Seq<Order>) {
    let seen = BotState { last_bn: Some(price), ..b };
    match b.engine {
        EngineState::Pairing { trend, pairing } => {
            let (after, sig) = after_bn(trend, t as int, price, m);
            (
                signal_taken(
                    BotState { engine: EngineState::Pairing { trend: after, pairing }, ..seen },
                    sig,
                    now,
                ),
                Seq::empty(),
            )
        },
        EngineState::Gap(g) => {
            let (after, actions) = priced(g, t, price);
            executed_all(BotState { engine: EngineState::Gap(after), ..seen }, actions, now)
        },
        EngineState::Venue(v) => {
            let (after, actions) = priced_on_binance(v, t, price);
            executed_all(BotState { engine: EngineState::Venue(after), ..seen }, actions, now)
        },
    }
}

/// The state after a price of Coinbase in a turn in which orders are placed.
pub open spec fn driven_cb(
    b: BotState,
    t: i64,
    price: i64,
    got_bn: bool,
    now: int,
    m: spec_fn(i64) -> i64,
) -> (BotState, Seq<Order>) {
    let seen = BotState { last_cb: Some(price), ..b };
    match b.engine {
        EngineState::Pairing { trend, pairing } => {
            let (after, sig) = after_cb(trend, t as int, price, m);
            (
                signal_taken(
                    BotState { engine: EngineState::Pairing { trend: after, pairing }, ..seen },
                    sig,
                    now,
                ),
                Seq::empty(),
            )
        },
        EngineState::Gap(g) => if got_bn {
            (seen, Seq::empty())
        } else {
            let (after, actions) = priced(g, t, price);
            executed_all(BotState { engine: EngineState::Gap(after), ..seen }, actions, now)
        },
        EngineState::Venue(v) => {
            let (after, actions) = priced_on_coinbase(v, t, price);
            executed_all(BotState { engine: EngineState::Venue(after), ..seen }, actions, now)
        },
    }
}

/// What trades after a tick of the clock at a quote, and the orders that come
/// up.
pub open spec fn engine_ticked(e: EngineState, q: MarketQuotes, now: i64, end_ms: int) -> (
    EngineState,
    Seq<BotAction>,
) {
    match e {
        EngineState::Pairing { trend, pairing } => {
            let (after, action) = crate::strategy::pairing::ticked(
                pairing,
                now,
                q.up_ask,
                q.down_ask,
                end_ms,
            );
            (
                EngineState::Pairing { trend, pairing: after },
                match action {
                    Some(a) => seq![a],
                    None => Seq::empty(),
                },
            )
        },
        EngineState::Gap(g) => {
            let (after, actions) = crate::strategy::gap_swing::ticked(
                g,
                now,
                q.up_ask,
                q.down_ask,
            );
            (EngineState::Gap(after), actions)
        },
        EngineState::Venue(v) => {
            let (after, actions) = crate::strategy::venue_engine::ticked(
                v,
                now,
                q.up_ask,
                q.down_ask,
            );
            (EngineState::Venue(after), actions)
        },
    }
}

/// The state after the end of a turn in which orders are placed.
pub open spec fn turn_ended(b: BotState, now: i64) -> (BotState, Seq<Order>) {
    match b.market {
        Some(m) => match latest_of(b.books, m.start_ts) {
            Some(q) => {
                let (engine, actions) = engine_ticked(b.engine, q, now, m.end_ts * 1_000);
                executed_all(BotState { engine, ..b }, actions, now as int)
            },
            None => (b, Seq::empty()),
        },
        None => (b, Seq::empty()),
    }
}

/// The state after the quotes of a turn in which no orders are placed.
pub open spec fn asks_ingested(b: BotState) -> BotState {
    match b.trading_start {
        Some(start) => match latest_of(b.books, start) {
            Some(q) => if !(b.engine is Pairing) && b.directory.subscribed.contains(start) {
                BotState { engine: engine_fed(b.engine, q), ..b }
            } else {
                b
            },
            None => b,
        },
        None => b,
    }
}

/// The state after a price of Binance in a turn in which no orders are placed.
pub open spec fn bn_ingested(b: BotState, t: i64, price: i64) -> BotState {
    let seen = BotState { last_bn: Some(price), ..b };
    match b.engine {
        EngineState::Pairing { .. } => seen,
        EngineState::Gap(g) => BotState { engine: EngineState::Gap(priced(g, t, price).0), ..seen },
        EngineState::Venue(v) => BotState {
            engine: EngineState::Venue(priced_on_binance(v, t, price).0),
            ..seen
        },
    }
}

/// The state after a price of Coinbase in a turn in which no orders are placed.
pub open spec fn cb_ingested(b: BotState, t: i64, price: i64) -> BotState {
    let seen = BotState { last_cb: Some(price), ..b };
    match b.engine {
        EngineState::Pairing { .. } => seen,
        EngineState::Gap(g) => if b.last_bn is None {
            BotState { engine: EngineState::Gap(priced(g, t, price).0), ..seen }
        } else {
            seen
        },
        EngineState::Venue(v) => BotState {
            engine: EngineState::Venue(priced_on_coinbase(v, t, price).0),
            ..seen
        },
    }
}

/// The price that a fill of a dry run comes at: that of a sale is known, a buy
/// pays the ask that is known when its delay is over.
pub open spec fn fill_price(b: BotState, p: PendingDryFill) -> i64 {
    let fill_t = p.send_t + fill_delay(strategy_of_engine(b.engine));
    match p.kind {
        FillKind::Flatten => p.worst_ask,
        _ => match ask_known(asks_of(b.books, p.start_ts), fill_t - 1, p.side) {
            Some(ask) => ask,
            None => p.worst_ask,
        },
    }
}

/// Whether a fill is booked: its window is running or ends, and the strategy
/// does not settle its windows itself.
pub open spec fn is_booked(b: BotState, p: PendingDryFill, force: bool) -> bool {
    (force || b.trading_start == Some(p.start_ts)) && b.engine is Pairing
}

/// The state after a fill of a dry run.
pub open spec fn booked(b: BotState, p: PendingDryFill, force: bool) -> BotState {
    if is_booked(b, p, force) {
        let px = fill_price(b, p) as int;
        BotState {
            accounts: match p.kind {
                FillKind::Flatten => sale_booked(b.accounts, p.side, px, b.shares as int),
                _ => buy_booked(b.accounts, p.side, px, b.shares as int),
            },
            ..b
        }
    } else {
        b
    }
}

/// The state after the first `n` fills of a dry run.
pub open spec fn booked_through(b: BotState, fills: Seq<PendingDryFill>, force: bool, n: int) -> BotState
    decreases n,
{
    if n <= 0 {
        b
    } else {
        booked(booked_through(b, fills, force, n - 1), fills[n - 1], force)
    }
}

/// The state after the fills that are due.
pub open spec fn filled(b: BotState, due: Due, force: bool) -> BotState {
    let fills = due_fills(due, b.pending);
    booked_through(
        BotState { pending: waiting_fills(due, b.pending), ..b },
        fills,
        force,
        fills.len() as int,
    )
}

/// Whether the current window can take so many legs.
pub open spec fn can_book(a: Accounts, legs: int) -> bool {
    a.window matches Some(w) && w.ledger.legs + legs <= u32::MAX
}

/// Whether the current window can take the fills that are due, if any of them
/// is booked.
pub open spec fn can_fill(b: BotState, due: Due, force: bool) -> bool {
    let fills = due_fills(due, b.pending);
    (exists|i: int| 0 <= i < fills.len() && is_booked(b, #[trigger] fills[i], force)) ==> can_book(
        b.accounts,
        fills.len() as int,
    )
}

/// What is due at a time.
pub open spec fn due_at(b: BotState, now: i64) -> Due {
    Due::At { now, delay_ms: fill_delay(strategy_of_engine(b.engine)) }
}

/// Fills with the prices that they come at.
pub open spec fn with_prices(b: BotState, fills: Seq<PendingDryFill>) -> Seq<(PendingDryFill, i64)> {
    fills.map_values(|p: PendingDryFill| (p, fill_price(b, p)))
}

/// Booking fills changes nothing but the accounts.
pub proof fn booking_moves_only_accounts(
    b: BotState,
    fills: Seq<PendingDryFill>,
    force: bool,
    n: int,
)
    requires
        0 <= n,
    ensures
        booked_through(b, fills, force, n) == (BotState {
            accounts: booked_through(b, fills, force, n).accounts,
            ..b
        }),
    decreases n,
{
    if n > 0 {
        booking_moves_only_accounts(b, fills, force, n - 1);
    }
}

/// The opening price that pairing starts a window with: the official one, else
/// the last price of Binance, else that of Coinbase.
pub open spec fn starting_strike(b: BotState, start_ts: i64) -> Option<i64> {
    if b.directory.strikes.contains_key(start_ts) {
        Some(b.directory.strikes[start_ts])
    } else if b.last_bn is Some {
        b.last_bn
    } else {
        b.last_cb
    }
}

/// What trades after the first `n` quotes of a window.
pub open spec fn seeded(e: EngineState, asks: Seq<(i64, i64, i64)>, n: int) -> EngineState
    decreases n,
{
    if n <= 0 {
        e
    } else {
        let q = asks[n - 1];
        engine_fed(
            seeded(e, asks, n - 1),
            MarketQuotes { t: q.0, up_ask: q.1, down_ask: q.2 },
        )
    }
}

/// What trades after all that is known of a window's quotes.
pub open spec fn seeded_from(e: EngineState, books: Books, start_ts: i64) -> EngineState {
    let asks = asks_of(books, start_ts);
    let after = seeded(e, asks, asks.len() as int);
    match latest_of(books, start_ts) {
        Some(q) => engine_fed(after, q),
        None => after,
    }
}

/// What trades at the start of a window.
pub open spec fn engine_started(b: BotState, m: Market, start_ts: i64) -> EngineState {
    let open_ms = (m.start_ts * 1_000) as i64;
    let end_ms = ((m.start_ts + 300) * 1_000) as i64;
    let delay_ms = reckoned_delay(strategy_of_engine(b.engine), b.live);
    match b.engine {
        EngineState::Pairing { trend, .. } => EngineState::Pairing {
            trend: next_trend(trend, open_ms, end_ms, starting_strike(b, m.start_ts)),
            pairing: Pairing { state: State::Idle, history: Seq::empty() },
        },
        EngineState::Gap(g) => seeded_from(
            EngineState::Gap(
                GapState { shares: b.shares, delay_ms, ..next_gap(g, open_ms, end_ms, None) },
            ),
            b.books,
            start_ts,
        ),
        EngineState::Venue(v) => seeded_from(
            EngineState::Venue(
                VenueState { shares: b.shares, delay_ms, ..next_venue(v, open_ms, end_ms, None) },
            ),
            b.books,
            start_ts,
        ),
    }
}

/// The state at the start of a window whose market is known.
pub open spec fn window_started(b: BotState, start_ts: i64) -> BotState {
    let m = b.directory.markets[start_ts];
    BotState {
        engine: engine_started(b, m, start_ts),
        accounts: Accounts {
            window: Some(Statement { slug: m.slug, ledger: fresh_ledger() }),
            ..b.accounts
        },
        market: Some(m),
        trading_start: Some(start_ts),
        ..b
    }
}

/// The state at the start of a window, and the orders that come up.  An average
/// of the oracle feed that is already of the window is its opening price.
pub open spec fn started(b: BotState, start_ts: i64, now: i64) -> (BotState, Seq<Order>) {
    let after = window_started(b, start_ts);
    match b.last_cl {
        Some((t, px)) if t >= after.market->0.start_ts * 1_000 && px > 0 => locked(
            after,
            start_ts,
            px,
            now,
        ),
        _ => (after, Seq::empty()),
    }
}

/// What trades after the last tick of a window, and the orders that come up.
pub open spec fn engine_closing(e: EngineState, q: MarketQuotes, now: i64, end_ms: int) -> (
    EngineState,
    Seq<BotAction>,
) {
    let (after, actions) = engine_ticked(e, q, now, end_ms);
    match after {
        EngineState::Pairing { trend, pairing } if actions.len() == 0 => {
            let (last, action) = last_ticked(pairing, end_ms);
            (
                EngineState::Pairing { trend, pairing: last },
                match action {
                    Some(a) => seq![a],
                    None => Seq::empty(),
                },
            )
        },
        _ => (after, actions),
    }
}

/// The state after the last tick of a window.
pub open spec fn closing_ticked(b: BotState, start_ts: i64, now: i64) -> (BotState, Seq<Order>) {
    match (b.market, latest_of(b.books, start_ts)) {
        (Some(_), Some(q)) => {
            let (engine, actions) = engine_closing(b.engine, q, now, (start_ts + 300) * 1_000);
            executed_all(BotState { engine, ..b }, actions, now as int)
        },
        _ => (b, Seq::empty()),
    }
}

/// Who wins a window: the oracle's last average is held against the opening
/// price, never a price of a venue.
pub open spec fn window_winner(b: BotState, start_ts: i64) -> Option<PositionSide> {
    let (up, down) = match latest_of(b.books, start_ts) {
        Some(q) => (q.up_ask, q.down_ask),
        None => (EVEN_ASK, EVEN_ASK),
    };
    winner_of(
        up as int,
        down as int,
        match b.last_cl {
            Some(q) => Some(q.1),
            None => None,
        },
        strike_of(b.engine),
    )
}

/// The name of a window.
pub open spec fn window_slug(b: BotState, start_ts: i64) -> Seq<char> {
    if b.directory.markets.contains_key(start_ts) {
        b.directory.markets[start_ts].slug
    } else {
        slug_of(start_ts as int)
    }
}

/// The books without a window.
pub open spec fn books_without(b: Books, start_ts: i64) -> Books {
    Books { windows: b.windows.remove(start_ts), latest: b.latest.remove(start_ts) }
}

/// The state after a window has ended and its fills are in: it is settled, and
/// its quotes are forgotten.  A swing window is booked as what its strategy settles
/// it at: what is played from its fills to the close.
pub open spec fn window_closed(b: BotState, start_ts: i64) -> BotState {
    let f = filled(b, Due::Window { start_ts }, true);
    let winner = window_winner(b, start_ts);
    let books = books_without(b.books, start_ts);
    match b.engine {
        EngineState::Pairing { .. } => BotState {
            accounts: window_booked(f.accounts, winner),
            books,
            ..f
        },
        EngineState::Gap(g) => {
            let out = gap_outcome(
                crate::strategy::gap_swing::live_terms(g, g.end_ms),
                g.ptb,
                g.btc,
                g.asks,
                winner,
                g.intents.commits,
            );
            BotState {
                engine: EngineState::Gap(
                    GapState { last_pnl: out.total_pnl, last_pairs: out.pairs, ..g },
                ),
                accounts: net_booked(f.accounts, out.total_pnl),
                books,
                ..f
            }
        },
        EngineState::Venue(v) => {
            let out = venue_outcome(
                crate::strategy::venue_engine::live_terms(v, v.end_ms),
                v.binance,
                v.coinbase,
                v.asks,
                winner,
                v.intents.commits,
            );
            BotState {
                engine: EngineState::Venue(
                    VenueState { last_pnl: out.total_pnl, last_pairs: out.pairs, ..v },
                ),
                accounts: net_booked(f.accounts, out.total_pnl),
                books,
                ..f
            }
        },
    }
}

/// How a window went.
#[derive(Debug)]
pub enum WindowReport {
    /// The strategy settled it.
    Settled { slug: String, net: i128, pairs: u64, trades: usize },
    /// Its ledger was closed.
    Closed(WindowClose),
    /// Nothing was traded in it.
    Idle { slug: String },
}

/// Whether a report is that of a window.
pub open spec fn is_report(r: WindowReport, b: BotState, start_ts: i64) -> bool {
    let f = filled(b, Due::Window { start_ts }, true);
    let winner = window_winner(b, start_ts);
    match (b.engine, r) {
        (EngineState::Pairing { .. }, WindowReport::Closed(c)) => {
            &&& f.accounts.window matches Some(w)
            &&& w.ledger.legs > 0
            &&& c.slug@ == w.slug
            &&& c.gross == crate::pnl::ledger_gross(w.ledger, winner)
            &&& c.net == c.gross - w.ledger.fees
            &&& c.fees == w.ledger.fees
            &&& c.legs == w.ledger.legs
        },
        (EngineState::Pairing { .. }, WindowReport::Idle { slug }) => {
            &&& slug@ == window_slug(b, start_ts)
            &&& f.accounts.window matches Some(w) ==> w.ledger.legs == 0
        },
        (EngineState::Gap(g), WindowReport::Settled { slug, net, pairs, trades }) => {
            let out = gap_outcome(
                crate::strategy::gap_swing::live_terms(g, g.end_ms),
                g.ptb,
                g.btc,
                g.asks,
                winner,
                g.intents.commits,
            );
            &&& slug@ == window_slug(b, start_ts)
            &&& net == out.total_pnl
            &&& pairs == out.pairs
            &&& trades == out.trades.len()
        },
        (EngineState::Venue(v), WindowReport::Settled { slug, net, pairs, trades }) => {
            let out = venue_outcome(
                crate::strategy::venue_engine::live_terms(v, v.end_ms),
                v.binance,
                v.coinbase,
                v.asks,
                winner,
                v.intents.commits,
            );
            &&& slug@ == window_slug(b, start_ts)
            &&& net == out.total_pnl
            &&& pairs == out.pairs
            &&& trades == out.trades.len()
        },
        _ => false,
    }
}

/// Whether the totals of a session can take another window.
pub open spec fn totals_have_room(a: Accounts) -> bool {
    &&& magnitude(a.totals.net as int) <= MAX_TOTAL
    &&& magnitude(a.totals.gross as int) <= MAX_TOTAL
    &&& magnitude(a.totals.fees as int) <= MAX_TOTAL
}

/// Booking fills leaves the totals of the session alone.
pub proof fn booking_leaves_totals(b: BotState, fills: Seq<PendingDryFill>, force: bool, n: int)
    ensures
        booked_through(b, fills, force, n).accounts.totals == b.accounts.totals,
        !(b.engine is Pairing) ==> booked_through(b, fills, force, n) == b,
        n >= 0 ==> booked_through(b, fills, force, n).engine == b.engine,
    decreases n,
{
    if n > 0 {
        booking_leaves_totals(b, fills, force, n - 1);
    }
}

/// A note on the tape: the distance from the opening price, and how the window
/// goes.
#[derive(Clone, Copy, Debug, PartialEq, Eq, Structural)]
pub struct TapeNote {
    pub delta: Option<i64>,
    pub fills: usize,
    pub unpaired: i128,
    pub pairs: u64,
}

/// Whether a note on the tape is due.
pub open spec fn note_due(b: BotState, now: int) -> bool {
    !(b.engine is Pairing) && now - b.last_tape_ms >= TAPE_NOTE_MS
}

/// Whether a note is that of the tape.
pub open spec fn is_note(n: TapeNote, b: BotState) -> bool {
    let (commits, pairs) = match b.engine {
        EngineState::Pairing { .. } => (Seq::empty(), 0int),
        EngineState::Gap(g) => (g.intents.commits, g.last_pairs),
        EngineState::Venue(v) => (v.intents.commits, v.last_pairs),
    };
    &&& match (n.delta, b.last_bn, strike_of(b.engine)) {
        (Some(d), Some(bn), Some(ptb)) => d == bn - ptb,
        (None, Some(_), Some(_)) => false,
        (d, _, _) => d is None,
    }
    &&& n.fills == commits.len()
    &&& n.unpaired == open_in(commits)
    &&& n.pairs == pairs
}

/// Seeding asks for no orders.
pub proof fn seeding_commits_nothing(e: EngineState, asks: Seq<(i64, i64, i64)>, n: int)
    requires
        has_room(e),
    ensures
        has_room(seeded(e, asks, n)),
    decreases n,
{
    if n > 0 {
        seeding_commits_nothing(e, asks, n - 1);
    }
}

} // verus!
