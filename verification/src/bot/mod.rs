//! The trading loop: what is done with quotes, opening prices, orders and the
//! turn of windows.
pub mod laws;
pub mod state;
pub mod trading_laws;
pub mod window_laws;

use vstd::prelude::*;
use crate::config::{Config, StrategyKind};
use crate::dry_fills::{
    due_fills, fill_ok, fills_ok, take_due, waiting_fills, Due, FillKind, PendingDryFill,
};
use crate::feeds::polymarket::PolyQuote;
use crate::gamma::{btc5m_slug, MarketInfo};
use crate::pnl::{buy_booked, resolve_winner, sale_booked, PnlTracker, Totals};
use crate::poly_book::{
    asks_of, trading_window_start, wanted, window_of, Books, MarketQuotes, PolyBook,
    TAKER_DELAY_MS,
};
use crate::strategy::detector::{next_trend, CaptureSignal, TrendDetector, MAX_SAMPLES};
use crate::strategy::gap_swing::{next_gap, struck, GapState, GapSwingEngine, MAX_LIVE_FILLS};
use crate::strategy::gates::{gives, is_distribution};
use crate::strategy::pairing::{Pairing, PairingEngine, State};
use crate::strategy::sides::PositionSide;
use crate::strategy::swings::delta_ok;
use crate::strategy::tape::{ask_tape_ok, known_ask_is_valid};
use crate::strategy::trades::{action_ok, actions_ok, BotAction, Reason};
use crate::strategy::venue_engine::{next_venue, VenueState, VenueSwingEngine};
use crate::strategy::venue_swing::VENUE_TAKER_DELAY_MS;
use crate::strategy::window::WindowResult;
use crate::subscriptions::{prefetch_due, prefetch_windows, Directory, SubscribePlan, Subscriptions};
use crate::units::{ask_ok, price_ok, shares_ok, time_ok, CENT, MAX_MS};
use state::{
    asks_fed, asks_ingested, averaged, bn_ingested, booked, booked_through, booking_leaves_totals,
    booking_moves_only_accounts, books_without, bot_ok, can_book, can_fill, cb_ingested,
    closing_ticked, driven_bn, driven_cb, due_at, engine_fed, engine_ok, engine_ticked, executed,
    executed_all, executed_through, fill_delay, fill_price, filled, fresh_bot, fresh_engine,
    has_room, is_booked, is_note, is_report, locked, market_ok, may_trade, note_due, quote_taken,
    reckoned_delay, seeded, seeded_from, seeding_commits_nothing, signal_taken, site_struck,
    started, starting_strike, strategy_of_engine, strike_of, totals_have_room, turn_ended,
    window_closed, window_started, window_winner, with_prices, BotState, EngineState,
    Order, TapeNote, WindowReport, EVEN_ASK, OFFICIAL_ATTEMPTS, OFFICIAL_RETRY_MS, TAPE_NOTE_MS,
};
use trading_laws::{a_window_starts_on_time, trades_on_time};

verus! {

/// What trades.
pub enum ActiveEngine {
    Pairing { detector: TrendDetector, engine: PairingEngine },
    GapSwing(GapSwingEngine),
    VenueSwing(VenueSwingEngine),
}

impl View for ActiveEngine {
    type V = EngineState;

    open spec fn view(&self) -> EngineState {
        match self {
            ActiveEngine::Pairing { detector, engine } => EngineState::Pairing {
                trend: detector@,
                pairing: engine@,
            },
            ActiveEngine::GapSwing(engine) => EngineState::Gap(engine@),
            ActiveEngine::VenueSwing(engine) => EngineState::Venue(engine@),
        }
    }
}

/// The trading loop.
pub struct Bot {
    live: bool,
    shares: i64,
    last_bn: Option<i64>,
    last_cb: Option<i64>,
    last_cl: Option<(i64, i64)>,
    directory: Subscriptions,
    trading_start: Option<i64>,
    market: Option<MarketInfo>,
    active: ActiveEngine,
    books: PolyBook,
    pnl: PnlTracker,
    pending: Vec<PendingDryFill>,
    last_tape_ms: i64,
}

impl View for Bot {
    type V = BotState;

    closed spec fn view(&self) -> BotState {
        BotState {
            live: self.live,
            shares: self.shares,
            last_bn: self.last_bn,
            last_cb: self.last_cb,
            last_cl: self.last_cl,
            directory: self.directory@,
            trading_start: self.trading_start,
            market: match self.market {
                Some(m) => Some(m@),
                None => None,
            },
            engine: self.active@,
            books: self.books@,
            accounts: self.pnl@,
            pending: self.pending@,
            last_tape_ms: self.last_tape_ms,
        }
    }
}

impl ActiveEngine {
    /// What trades a window in which nothing has happened.
    fn fresh(strategy: StrategyKind, live: bool, shares: i64, start_ts: i64) -> (r: ActiveEngine)
        requires
            shares_ok(shares as int),
            time_ok(start_ts * 1_000),
            time_ok((start_ts + 300) * 1_000),
        ensures
            r@ == fresh_engine(strategy, live, shares, start_ts as int),
            engine_ok(r@),
    {
        let open_ms: i64 = start_ts * 1_000;
        let end_ms: i64 = (start_ts + 300) * 1_000;
        match strategy {
            StrategyKind::Pairing => ActiveEngine::Pairing {
                detector: TrendDetector::new(open_ms, end_ms, None),
                engine: PairingEngine::new(),
            },
            StrategyKind::GapSwing => {
                let mut engine: GapSwingEngine = GapSwingEngine::new(open_ms, end_ms, None);
                engine.set_taker_delay_ms(
                    if live {
                        0
                    } else {
                        TAKER_DELAY_MS
                    },
                );
                engine.set_shares(shares);
                ActiveEngine::GapSwing(engine)
            },
            StrategyKind::VenueSwing => {
                let mut engine: VenueSwingEngine = VenueSwingEngine::new(open_ms, end_ms, None);
                engine.set_taker_delay_ms(
                    if live {
                        0
                    } else {
                        VENUE_TAKER_DELAY_MS
                    },
                );
                engine.set_shares(shares);
                ActiveEngine::VenueSwing(engine)
            },
        }
    }

    /// The strategy of what trades.
    fn strategy(&self) -> (r: StrategyKind)
        ensures
            r == strategy_of_engine(self@),
    {
        match self {
            ActiveEngine::Pairing { .. } => StrategyKind::Pairing,
            ActiveEngine::GapSwing(_) => StrategyKind::GapSwing,
            ActiveEngine::VenueSwing(_) => StrategyKind::VenueSwing,
        }
    }

    /// Whether what trades can take another price.
    fn room(&self) -> (r: bool)
        ensures
            r == has_room(self@),
    {
        match self {
            ActiveEngine::Pairing { detector, .. } => detector.sample_count() < MAX_SAMPLES,
            ActiveEngine::GapSwing(engine) => engine.fill_count() <= MAX_LIVE_FILLS,
            ActiveEngine::VenueSwing(engine) => engine.fill_count() <= MAX_LIVE_FILLS,
        }
    }

    /// The opening price that is known.
    fn strike(&self) -> (r: Option<i64>)
        ensures
            r == strike_of(self@),
    {
        match self {
            ActiveEngine::Pairing { detector, .. } => detector.strike(),
            ActiveEngine::GapSwing(engine) => engine.strike(),
            ActiveEngine::VenueSwing(engine) => engine.strike(),
        }
    }
}

impl Bot {
    /// Whether the state is valid and its accounts are in order.
    pub closed spec fn wf(&self) -> bool {
        bot_ok(self@) && self.pnl.wf()
    }

    /// A valid state is in range.
    pub proof fn wf_means_in_range(&self)
        requires
            self.wf(),
        ensures
            bot_ok(self@),
    {
    }

    /// The trading loop before its first turn.
    pub fn new(cfg: &Config, now: i64) -> (r: Bot)
        requires
            shares_ok(cfg.order_shares as int),
            0 <= now <= MAX_MS - 300_000,
        ensures
            r@ == fresh_bot(cfg.strategy, cfg.live_trading, cfg.order_shares, now as int),
            r.wf(),
            trades_on_time(r@.engine, cfg.live_trading, cfg.order_shares),
    {
        let start: i64 = trading_window_start(now);
        let r: Bot = Bot {
            live: cfg.live_trading,
            shares: cfg.order_shares,
            last_bn: None,
            last_cb: None,
            last_cl: None,
            directory: Subscriptions::new(),
            trading_start: None,
            market: None,
            active: ActiveEngine::fresh(cfg.strategy, cfg.live_trading, cfg.order_shares, start),
            books: PolyBook::new(),
            pnl: PnlTracker::new(),
            pending: Vec::new(),
            last_tape_ms: 0,
        };
        proof {
            assert(r@.pending =~= Seq::<PendingDryFill>::empty());
        }
        r
    }

    /// The strategy that trades.
    pub fn strategy(&self) -> (r: StrategyKind)
        ensures
            r == strategy_of_engine(self@.engine),
    {
        self.active.strategy()
    }

    /// Whether another price can be taken.
    pub fn has_room_for_a_price(&self) -> (r: bool)
        ensures
            r == has_room(self@.engine),
    {
        self.active.room()
    }

    /// Whether orders are placed.
    pub fn can_trade(&self, now: i64) -> (r: bool)
        requires
            self.wf(),
        ensures
            r == may_trade(self@, now as int),
    {
        match &self.market {
            None => false,
            Some(m) => {
                assert(market_ok(m@));
                if now < m.start_ts * 1_000 {
                    return false;
                }
                match &self.active {
                    ActiveEngine::GapSwing(engine) => engine.strike().is_some(),
                    _ => true,
                }
            },
        }
    }

    /// Decides what becomes of an order.
    pub fn execute_action(&mut self, action: &BotAction, now: i64) -> (r: Order)
        requires
            old(self).wf(),
            action_ok(*action),
        ensures
            (final(self)@, r) == executed(old(self)@, *action, now as int),
            final(self).wf(),
            final(self)@.engine == old(self)@.engine,
    {
        if !self.can_trade(now) {
            return Order::Dropped;
        }
        let start_ts: i64 = match &self.market {
            Some(m) => m.start_ts,
            None => return Order::Dropped,
        };
        let (kind, side, send_t, worst_ask, reason): (FillKind, PositionSide, i64, i64, Reason) =
            match *action {
            BotAction::BuyEntry { side, signal_t, worst_ask, reason } => (
                FillKind::Entry,
                side,
                signal_t,
                worst_ask,
                reason,
            ),
            BotAction::BuyPair { side, signal_t, worst_ask, reason } => (
                FillKind::Pair,
                side,
                signal_t,
                worst_ask,
                reason,
            ),
            BotAction::SellFlatten { side, signal_t, worst_ask, reason } => (
                FillKind::Flatten,
                side,
                signal_t,
                worst_ask,
                reason,
            ),
        };
        if self.live {
            return match kind {
                FillKind::Entry => Order::Buy { side, worst_ask, reason, pair: false },
                FillKind::Pair => Order::Buy { side, worst_ask, reason, pair: true },
                FillKind::Flatten => Order::Sell { side, worst_ask, reason },
            };
        }
        let fill_at: i64 = match kind {
            FillKind::Flatten => if worst_ask - CENT < CENT {
                CENT
            } else {
                worst_ask - CENT
            },
            _ => worst_ask,
        };
        let fill: PendingDryFill = PendingDryFill {
            send_t,
            start_ts,
            side,
            kind,
            worst_ask: fill_at,
            reason,
        };
        let ghost before = self@;
        self.pending.push(fill);
        proof {
            assert(fill_ok(fill));
            assert(self@.pending =~= before.pending.push(fill));
        }
        Order::Queued
    }

    /// Decides what becomes of orders.
    fn execute_all(&mut self, actions: &Vec<BotAction>, now: i64) -> (r: Vec<Order>)
        requires
            old(self).wf(),
            actions_ok(actions@),
        ensures
            (final(self)@, r@) == executed_all(old(self)@, actions@, now as int),
            final(self).wf(),
            final(self)@.engine == old(self)@.engine,
    {
        let mut orders: Vec<Order> = Vec::new();
        let mut i: usize = 0;
        proof {
            assert(orders@ =~= Seq::<Order>::empty());
        }
        while i < actions.len()
            invariant
                i <= actions.len(),
                self.wf(),
                actions_ok(actions@),
                (self@, orders@) == executed_through(old(self)@, actions@, now as int, i as int),
                self@.engine == old(self)@.engine,
            decreases actions.len() - i,
        {
            assert(action_ok(actions@[i as int]));
            let order: Order = self.execute_action(&actions[i], now);
            orders.push(order);
            i = i + 1;
        }
        orders
    }

    /// Takes up an opening price unless one is known.
    fn lock(&mut self, start_ts: i64, ptb: i64, now: i64) -> (r: Vec<Order>)
        requires
            old(self).wf(),
            has_room(old(self)@.engine),
            price_ok(ptb as int),
            time_ok(now as int),
        ensures
            (final(self)@, r@) == locked(old(self)@, start_ts, ptb, now),
            final(self).wf(),
    {
        let none: Vec<Order> = Vec::new();
        proof {
            assert(none@ =~= Seq::<Order>::empty());
        }
        if ptb <= 0 {
            return none;
        }
        let (up, down): (i64, i64) = match self.books.latest(start_ts) {
            Some(q) => (q.up_ask, q.down_ask),
            None => (0, 0),
        };
        let ghost before = self@;
        let actions: Vec<BotAction> = match &mut self.active {
            ActiveEngine::Pairing { .. } => return none,
            ActiveEngine::GapSwing(engine) => {
                if !engine.set_strike(ptb) {
                    return none;
                }
                engine.tick(now, up, down)
            },
            ActiveEngine::VenueSwing(engine) => {
                if !engine.set_strike(ptb) {
                    return none;
                }
                Vec::new()
            },
        };
        self.directory.struck(start_ts, ptb);
        proof {
            if before.engine is Venue {
                assert(actions@ =~= Seq::<BotAction>::empty());
            }
        }
        self.execute_all(&actions, now)
    }

    /// Takes an average of the oracle feed.
    pub fn on_rtds(&mut self, t: i64, price: i64, now: i64) -> (r: Vec<Order>)
        requires
            old(self).wf(),
            has_room(old(self)@.engine),
            time_ok(t as int),
            price_ok(price as int),
            time_ok(now as int),
        ensures
            (final(self)@, r@) == averaged(old(self)@, t, price, now),
            final(self).wf(),
    {
        self.last_cl = Some((t, price));
        match self.trading_start {
            Some(start) => if t >= start * 1_000 && price > 0 {
                return self.lock(start, price, now);
            },
            None => {},
        }
        let none: Vec<Order> = Vec::new();
        proof {
            assert(none@ =~= Seq::<Order>::empty());
        }
        none
    }

    /// Takes an opening price of the site.
    pub fn on_rest_strike(&mut self, start_ts: i64, px: i64, now: i64) -> (r: Vec<Order>)
        requires
            old(self).wf(),
            has_room(old(self)@.engine),
            price_ok(px as int),
            time_ok(now as int),
        ensures
            (final(self)@, r@) == site_struck(old(self)@, start_ts, px, now),
            final(self).wf(),
    {
        let running: bool = match self.trading_start {
            Some(start) => start == start_ts,
            None => false,
        };
        if running {
            return self.lock(start_ts, px, now);
        }
        let none: Vec<Order> = Vec::new();
        proof {
            assert(none@ =~= Seq::<Order>::empty());
        }
        none
    }

    /// Whether an opening price is known and no other will be taken up.
    pub fn ptb_locked(&self) -> (r: bool)
        ensures
            r == (strike_of(self@.engine) is Some && !(self@.engine is Pairing)),
    {
        match &self.active {
            ActiveEngine::Pairing { .. } => false,
            ActiveEngine::GapSwing(engine) => engine.strike().is_some(),
            ActiveEngine::VenueSwing(engine) => engine.strike().is_some(),
        }
    }

    /// Takes a quote of a market that is subscribed to.
    pub fn on_poly(&mut self, q: &PolyQuote)
        requires
            old(self).wf(),
            time_ok(q.t as int),
            ask_ok(q.up_ask as int),
            ask_ok(q.down_ask as int),
        ensures
            final(self)@ == quote_taken(old(self)@, *q),
            final(self).wf(),
    {
        if self.directory.is_subscribed(q.start_ts) {
            self.books.push(q.start_ts, q.t, q.up_ask, q.down_ask);
        }
    }

    /// Hands the last quote of the traded market to what trades, at the start
    /// of a turn.
    pub fn feed_asks(&mut self)
        requires
            old(self).wf(),
        ensures
            final(self)@ == asks_fed(old(self)@),
            final(self).wf(),
    {
        let start: i64 = match &self.market {
            Some(m) => m.start_ts,
            None => return,
        };
        match self.books.latest(start) {
            Some(q) => self.feed(q),
            None => {},
        }
    }

    /// Hands a quote to what trades.
    fn feed(&mut self, q: MarketQuotes)
        requires
            old(self).wf(),
            time_ok(q.t as int),
            ask_ok(q.up_ask as int),
            ask_ok(q.down_ask as int),
        ensures
            final(self)@ == (BotState { engine: engine_fed(old(self)@.engine, q), ..old(self)@ }),
            final(self).wf(),
    {
        match &mut self.active {
            ActiveEngine::Pairing { detector, .. } => detector.push_poly(
                q.t,
                q.up_ask,
                q.down_ask,
            ),
            ActiveEngine::GapSwing(engine) => engine.on_asks(q.t, q.up_ask, q.down_ask),
            ActiveEngine::VenueSwing(engine) => engine.on_asks(q.t, q.up_ask, q.down_ask),
        }
    }

    /// Takes up an impulse if nothing is held.
    fn take_signal(&mut self, sig: &CaptureSignal, now: i64)
        requires
            old(self).wf(),
            time_ok(sig.t as int),
            delta_ok(sig.gap_usd as int),
        ensures
            final(self)@ == signal_taken(old(self)@, Some(*sig), now as int),
            final(self).wf(),
    {
        if !self.can_trade(now) {
            return;
        }
        match &mut self.active {
            ActiveEngine::Pairing { engine, .. } => {
                if engine.is_flat() {
                    engine.on_signal(sig, now);
                }
            },
            _ => {},
        }
    }

    /// Takes a price of Binance in a turn in which orders are placed.
    pub fn drive_bn<F: Fn(i64) -> i64>(&mut self, t: i64, price: i64, now: i64, cdf: &F) -> (r: Vec<
        Order,
    >)
        requires
            old(self).wf(),
            has_room(old(self)@.engine),
            time_ok(t as int),
            price_ok(price as int),
            is_distribution(*cdf),
        ensures
            forall|m: spec_fn(i64) -> i64| #[trigger]
                gives(*cdf, m) ==> (final(self)@, r@) == driven_bn(
                    old(self)@,
                    t,
                    price,
                    now as int,
                    m,
                ),
            !(old(self)@.engine is Pairing) ==> forall|m: spec_fn(i64) -> i64|
                (final(self)@, r@) == #[trigger] driven_bn(
                    old(self)@,
                    t,
                    price,
                    now as int,
                    m,
                ),
            old(self)@.engine is Pairing ==> r.len() == 0,
            final(self).wf(),
    {
        self.last_bn = Some(price);
        let mut sig: Option<CaptureSignal> = None;
        let actions: Vec<BotAction> = match &mut self.active {
            ActiveEngine::Pairing { detector, .. } => {
                sig = detector.on_bn(t, price, cdf);
                Vec::new()
            },
            ActiveEngine::GapSwing(engine) => engine.on_binance(t, price),
            ActiveEngine::VenueSwing(engine) => engine.on_binance(t, price),
        };
        proof {
            assert(self@.directory == old(self)@.directory);
        }
        match sig {
            Some(sig) => self.take_signal(&sig, now),
            None => {},
        }
        proof {
            if actions@.len() == 0 {
                assert(actions@ =~= Seq::<BotAction>::empty());
            }
        }
        self.execute_all(&actions, now)
    }

    /// Takes a price of Coinbase in a turn in which orders are placed.  Gap
    /// swing uses it only if the turn has no price of Binance.
    pub fn drive_cb<F: Fn(i64) -> i64>(
        &mut self,
        t: i64,
        price: i64,
        got_bn: bool,
        now: i64,
        cdf: &F,
    ) -> (r: Vec<Order>)
        requires
            old(self).wf(),
            has_room(old(self)@.engine),
            time_ok(t as int),
            price_ok(price as int),
            is_distribution(*cdf),
        ensures
            forall|m: spec_fn(i64) -> i64| #[trigger]
                gives(*cdf, m) ==> (final(self)@, r@) == driven_cb(
                    old(self)@,
                    t,
                    price,
                    got_bn,
                    now as int,
                    m,
                ),
            !(old(self)@.engine is Pairing) ==> forall|m: spec_fn(i64) -> i64|
                (final(self)@, r@) == #[trigger] driven_cb(
                    old(self)@,
                    t,
                    price,
                    got_bn,
                    now as int,
                    m,
                ),
            old(self)@.engine is Pairing ==> r.len() == 0,
            final(self).wf(),
    {
        self.last_cb = Some(price);
        let mut sig: Option<CaptureSignal> = None;
        let actions: Vec<BotAction> = match &mut self.active {
            ActiveEngine::Pairing { detector, .. } => {
                sig = detector.on_cb(t, price, cdf);
                Vec::new()
            },
            ActiveEngine::GapSwing(engine) => {
                if got_bn {
                    Vec::new()
                } else {
                    engine.on_binance(t, price)
                }
            },
            ActiveEngine::VenueSwing(engine) => engine.on_coinbase(t, price),
        };
        proof {
            assert(self@.directory == old(self)@.directory);
        }
        match sig {
            Some(sig) => self.take_signal(&sig, now),
            None => {},
        }
        proof {
            if actions@.len() == 0 {
                assert(actions@ =~= Seq::<BotAction>::empty());
            }
        }
        self.execute_all(&actions, now)
    }

    /// Ticks what trades, at the end of a turn in which orders are placed.
    pub fn drive_tick(&mut self, now: i64) -> (r: Vec<Order>)
        requires
            old(self).wf(),
            has_room(old(self)@.engine),
            time_ok(now as int),
        ensures
            (final(self)@, r@) == turn_ended(old(self)@, now),
            final(self).wf(),
    {
        let none: Vec<Order> = Vec::new();
        proof {
            assert(none@ =~= Seq::<Order>::empty());
        }
        let (start, end_ts): (i64, i64) = match &self.market {
            Some(m) => (m.start_ts, m.end_ts),
            None => return none,
        };
        let q: MarketQuotes = match self.books.latest(start) {
            Some(q) => q,
            None => return none,
        };
        let actions: Vec<BotAction> = self.tick_engine(&q, now, end_ts * 1_000);
        self.execute_all(&actions, now)
    }

    /// Ticks what trades at a quote.
    fn tick_engine(&mut self, q: &MarketQuotes, now: i64, end_ms: i64) -> (r: Vec<BotAction>)
        requires
            old(self).wf(),
            has_room(old(self)@.engine),
            time_ok(now as int),
            time_ok(end_ms as int),
            ask_ok(q.up_ask as int),
            ask_ok(q.down_ask as int),
        ensures
            ({
                let (engine, actions) = engine_ticked(old(self)@.engine, *q, now, end_ms as int);
                final(self)@ == (BotState { engine, ..old(self)@ }) && r@ == actions
            }),
            final(self).wf(),
            actions_ok(r@),
    {
        match &mut self.active {
            ActiveEngine::Pairing { engine, .. } => {
                let mut actions: Vec<BotAction> = Vec::new();
                match engine.tick(now, q.up_ask, q.down_ask, end_ms) {
                    Some(a) => {
                        actions.push(a);
                        proof {
                            assert(actions@ =~= seq![a]);
                        }
                    },
                    None => {
                        proof {
                            assert(actions@ =~= Seq::<BotAction>::empty());
                        }
                    },
                }
                actions
            },
            ActiveEngine::GapSwing(engine) => engine.tick(now, q.up_ask, q.down_ask),
            ActiveEngine::VenueSwing(engine) => engine.tick(now, q.up_ask, q.down_ask),
        }
    }

    /// Hands the last quote of the running window to what trades, in a turn in
    /// which no orders are placed.
    pub fn ingest_asks(&mut self)
        requires
            old(self).wf(),
        ensures
            final(self)@ == asks_ingested(old(self)@),
            final(self).wf(),
    {
        let start: i64 = match self.trading_start {
            Some(start) => start,
            None => return,
        };
        let swings: bool = match &self.active {
            ActiveEngine::Pairing { .. } => false,
            _ => true,
        };
        if swings && self.directory.is_subscribed(start) {
            match self.books.latest(start) {
                Some(q) => self.feed(q),
                None => {},
            }
        }
    }

    /// Takes a price of Binance in a turn in which no orders are placed.  What
    /// comes up is not asked for.
    pub fn ingest_bn(&mut self, t: i64, price: i64)
        requires
            old(self).wf(),
            has_room(old(self)@.engine),
            !(old(self)@.engine is Pairing),
            time_ok(t as int),
            price_ok(price as int),
        ensures
            final(self)@ == bn_ingested(old(self)@, t, price),
            final(self).wf(),
    {
        self.last_bn = Some(price);
        match &mut self.active {
            ActiveEngine::Pairing { .. } => {},
            ActiveEngine::GapSwing(engine) => {
                engine.on_binance(t, price);
            },
            ActiveEngine::VenueSwing(engine) => {
                engine.on_binance(t, price);
            },
        }
    }

    /// Takes a price of Coinbase in a turn in which no orders are placed.  Gap
    /// swing uses it only if Binance has been silent.
    pub fn ingest_cb(&mut self, t: i64, price: i64)
        requires
            old(self).wf(),
            has_room(old(self)@.engine),
            !(old(self)@.engine is Pairing),
            time_ok(t as int),
            price_ok(price as int),
        ensures
            final(self)@ == cb_ingested(old(self)@, t, price),
            final(self).wf(),
    {
        let silent: bool = self.last_bn.is_none();
        self.last_cb = Some(price);
        match &mut self.active {
            ActiveEngine::Pairing { .. } => {},
            ActiveEngine::GapSwing(engine) => {
                if silent {
                    engine.on_binance(t, price);
                }
            },
            ActiveEngine::VenueSwing(engine) => {
                engine.on_coinbase(t, price);
            },
        }
    }

    /// Delay from order to fill in a dry run.
    fn dry_delay(&self) -> (r: i64)
        ensures
            r == fill_delay(strategy_of_engine(self@.engine)),
            0 <= r <= 1_000,
    {
        match &self.active {
            ActiveEngine::VenueSwing(_) => VENUE_TAKER_DELAY_MS,
            _ => TAKER_DELAY_MS,
        }
    }

    /// Fills an order of a dry run and gives the price that it comes at.
    fn apply_dry_fill(&mut self, fill: &PendingDryFill, force: bool) -> (r: i64)
        requires
            old(self).wf(),
            fill_ok(*fill),
            is_booked(old(self)@, *fill, force) ==> can_book(old(self)@.accounts, 1),
        ensures
            r == fill_price(old(self)@, *fill),
            final(self)@ == booked(old(self)@, *fill, force),
            final(self).wf(),
    {
        let fill_t: i64 = fill.send_t + self.dry_delay();
        proof {
            known_ask_is_valid(asks_of(self@.books, fill.start_ts), fill_t - 1, fill.side);
        }
        let px: i64 = match fill.kind {
            FillKind::Flatten => fill.worst_ask,
            _ => match self.books.ask_before(fill.start_ts, fill_t, fill.side) {
                Some(ask) => ask,
                None => fill.worst_ask,
            },
        };
        let running: bool = match self.trading_start {
            Some(start) => start == fill.start_ts,
            None => false,
        };
        let pairs: bool = match &self.active {
            ActiveEngine::Pairing { .. } => true,
            _ => false,
        };
        if (force || running) && pairs {
            match fill.kind {
                FillKind::Flatten => self.pnl.record_sell(fill.side, px, self.shares),
                FillKind::Entry => self.pnl.record_buy(fill.side, px, self.shares, false),
                FillKind::Pair => self.pnl.record_buy(fill.side, px, self.shares, true),
            }
        }
        px
    }

    /// Fills orders of a dry run.
    fn apply_dry_fills(&mut self, fills: &Vec<PendingDryFill>, force: bool) -> (r: Vec<
        (PendingDryFill, i64),
    >)
        requires
            old(self).wf(),
            fills_ok(fills@),
            (exists|i: int| 0 <= i < fills.len() && is_booked(old(self)@, #[trigger] fills@[i], force))
                ==> can_book(old(self)@.accounts, fills.len() as int),
        ensures
            r@ == with_prices(old(self)@, fills@),
            final(self)@ == booked_through(old(self)@, fills@, force, fills.len() as int),
            final(self).wf(),
    {
        let mut r: Vec<(PendingDryFill, i64)> = Vec::new();
        let mut i: usize = 0;
        let ghost b = self@;
        while i < fills.len()
            invariant
                i <= fills.len(),
                self.wf(),
                b == old(self)@,
                fills_ok(fills@),
                (exists|k: int| 0 <= k < fills.len() && is_booked(b, #[trigger] fills@[k], force))
                    ==> can_book(self@.accounts, fills.len() - i),
                self@ == booked_through(b, fills@, force, i as int),
                r@ == with_prices(b, fills@.take(i as int)),
            decreases fills.len() - i,
        {
            let fill: PendingDryFill = fills[i];
            let ghost before = self@;
            proof {
                booking_moves_only_accounts(b, fills@, force, i as int);
                assert(fill_ok(fills@[i as int]));
                assert(is_booked(before, fill, force) == is_booked(b, fills@[i as int], force));
                assert(fill_price(before, fill) == fill_price(b, fill));
            }
            let px: i64 = self.apply_dry_fill(&fill, force);
            r.push((fill, px));
            proof {
                assert(r@ =~= with_prices(b, fills@.take(i + 1)));
            }
            i = i + 1;
        }
        proof {
            assert(fills@.take(i as int) =~= fills@);
        }
        r
    }

    /// Fills the orders of a dry run whose delay is over, and gives the prices
    /// that they come at.
    pub fn process_pending_dry(&mut self, now: i64) -> (r: Vec<(PendingDryFill, i64)>)
        requires
            old(self).wf(),
            can_fill(old(self)@, due_at(old(self)@, now), false),
        ensures
            r@ == with_prices(
                old(self)@,
                due_fills(due_at(old(self)@, now), old(self)@.pending),
            ),
            final(self)@ == filled(old(self)@, due_at(old(self)@, now), false),
            final(self).wf(),
    {
        let due: Due = Due::At { now, delay_ms: self.dry_delay() };
        self.fill_due(due, false)
    }

    /// Fills the orders of a dry run that are left of a window, and gives the
    /// prices that they come at.
    pub fn flush_dry_fills_for_window(&mut self, start_ts: i64) -> (r: Vec<(PendingDryFill, i64)>)
        requires
            old(self).wf(),
            can_fill(old(self)@, Due::Window { start_ts }, true),
        ensures
            r@ == with_prices(
                old(self)@,
                due_fills(Due::Window { start_ts }, old(self)@.pending),
            ),
            final(self)@ == filled(old(self)@, Due::Window { start_ts }, true),
            final(self).wf(),
    {
        self.fill_due(Due::Window { start_ts }, true)
    }

    /// Fills the orders of a dry run that are due.
    fn fill_due(&mut self, due: Due, force: bool) -> (r: Vec<(PendingDryFill, i64)>)
        requires
            old(self).wf(),
            due matches Due::At { delay_ms, .. } ==> 0 <= delay_ms <= MAX_MS,
            can_fill(old(self)@, due, force),
        ensures
            r@ == with_prices(old(self)@, due_fills(due, old(self)@.pending)),
            final(self)@ == filled(old(self)@, due, force),
            final(self).wf(),
    {
        let ghost b = self@;
        let fills: Vec<PendingDryFill> = take_due(due, &mut self.pending);
        proof {
            let after = self@;
            assert(after == (BotState { pending: waiting_fills(due, b.pending), ..b }));
            assert forall|p: PendingDryFill| #[trigger]
                is_booked(after, p, force) == is_booked(b, p, force) by {}
            if exists|i: int| 0 <= i < fills@.len() && is_booked(after, #[trigger] fills@[i], force) {
                let i = choose|i: int|
                    0 <= i < fills@.len() && is_booked(after, #[trigger] fills@[i], force);
                assert(is_booked(b, fills@[i], force));
            }
            assert(with_prices(after, fills@) =~= with_prices(b, fills@)) by {
                assert forall|i: int| 0 <= i < fills@.len() implies fill_price(
                    after,
                    #[trigger] fills@[i],
                ) == fill_price(b, fills@[i]) by {}
            }
        }
        self.apply_dry_fills(&fills, force)
    }

    /// Books the fill of a live buy.
    pub fn buy_filled(&mut self, side: PositionSide, fill_px: i64, pair: bool)
        requires
            old(self).wf(),
            ask_ok(fill_px as int),
            can_book(old(self)@.accounts, 1),
        ensures
            final(self)@ == (BotState {
                accounts: buy_booked(
                    old(self)@.accounts,
                    side,
                    fill_px as int,
                    old(self)@.shares as int,
                ),
                ..old(self)@
            }),
            final(self).wf(),
    {
        self.pnl.record_buy(side, fill_px, self.shares, pair);
    }

    /// Books the fill of a live sale.
    pub fn sale_filled(&mut self, side: PositionSide, fill_px: i64)
        requires
            old(self).wf(),
            ask_ok(fill_px as int),
            can_book(old(self)@.accounts, 1),
        ensures
            final(self)@ == (BotState {
                accounts: sale_booked(
                    old(self)@.accounts,
                    side,
                    fill_px as int,
                    old(self)@.shares as int,
                ),
                ..old(self)@
            }),
            final(self).wf(),
    {
        self.pnl.record_sell(side, fill_px, self.shares);
    }

    /// Whether the current window can take so many legs.
    pub fn can_take_legs(&self, legs: u32) -> (r: bool)
        requires
            self.wf(),
        ensures
            r == can_book(self@.accounts, legs as int),
    {
        match &self.pnl.window {
            Some(w) => w.legs <= u32::MAX - legs,
            None => false,
        }
    }

    /// Hands all that is known of a window's quotes to what trades.
    fn seed(&mut self, start_ts: i64)
        requires
            old(self).wf(),
        ensures
            final(self)@ == (BotState {
                engine: seeded_from(old(self)@.engine, old(self)@.books, start_ts),
                ..old(self)@
            }),
            final(self).wf(),
    {
        let asks: Vec<(i64, i64, i64)> = self.books.history(start_ts);
        let ghost b = self@;
        let mut i: usize = 0;
        while i < asks.len()
            invariant
                i <= asks.len(),
                self.wf(),
                ask_tape_ok(asks@),
                self@ == (BotState { engine: seeded(b.engine, asks@, i as int), ..b }),
            decreases asks.len() - i,
        {
            let (t, up, down): (i64, i64, i64) = asks[i];
            assert(asks@[i as int] == (t, up, down));
            self.feed(MarketQuotes { t, up_ask: up, down_ask: down });
            i = i + 1;
        }
        match self.books.latest(start_ts) {
            Some(q) => self.feed(q),
            None => {},
        }
    }

    /// Resets what trades for a window.
    fn reset_engine(&mut self, m: &MarketInfo)
        requires
            old(self).wf(),
            market_ok(m@),
        ensures
            final(self)@ == (BotState {
                engine: (match old(self)@.engine {
                    EngineState::Pairing { trend, .. } => EngineState::Pairing {
                        trend: next_trend(
                            trend,
                            (m.start_ts * 1_000) as i64,
                            ((m.start_ts + 300) * 1_000) as i64,
                            starting_strike(old(self)@, m.start_ts),
                        ),
                        pairing: Pairing { state: State::Idle, history: Seq::empty() },
                    },
                    EngineState::Gap(g) => EngineState::Gap(
                        GapState {
                            shares: old(self)@.shares,
                            delay_ms: reckoned_delay(StrategyKind::GapSwing, old(self)@.live),
                            ..next_gap(
                                g,
                                (m.start_ts * 1_000) as i64,
                                ((m.start_ts + 300) * 1_000) as i64,
                                None,
                            )
                        },
                    ),
                    EngineState::Venue(v) => EngineState::Venue(
                        VenueState {
                            shares: old(self)@.shares,
                            delay_ms: reckoned_delay(StrategyKind::VenueSwing, old(self)@.live),
                            ..next_venue(
                                v,
                                (m.start_ts * 1_000) as i64,
                                ((m.start_ts + 300) * 1_000) as i64,
                                None,
                            )
                        },
                    ),
                }),
                ..old(self)@
            }),
            final(self).wf(),
    {
        let open_ms: i64 = m.start_ts * 1_000;
        let end_ms: i64 = (m.start_ts + 300) * 1_000;
        let strike: Option<i64> = match self.directory.strike(m.start_ts) {
            Some(px) => Some(px),
            None => match self.last_bn {
                Some(px) => Some(px),
                None => self.last_cb,
            },
        };
        let live: bool = self.live;
        let shares: i64 = self.shares;
        match &mut self.active {
            ActiveEngine::Pairing { detector, engine } => {
                detector.reset_window(open_ms, end_ms, strike);
                engine.reset_window();
            },
            ActiveEngine::GapSwing(engine) => {
                engine.reset_window(open_ms, end_ms, None);
                engine.set_shares(shares);
                engine.set_taker_delay_ms(
                    if live {
                        0
                    } else {
                        TAKER_DELAY_MS
                    },
                );
            },
            ActiveEngine::VenueSwing(engine) => {
                engine.reset_window(open_ms, end_ms, None);
                engine.set_shares(shares);
                engine.set_taker_delay_ms(
                    if live {
                        0
                    } else {
                        VENUE_TAKER_DELAY_MS
                    },
                );
            },
        }
    }

    /// Starts a window whose market is known.
    pub fn start_trading_window(&mut self, start_ts: i64, now: i64) -> (r: Vec<Order>)
        requires
            old(self).wf(),
            old(self)@.directory.markets.contains_key(start_ts),
            time_ok(start_ts * 1_000),
            time_ok((start_ts + 300) * 1_000),
            time_ok(now as int),
        ensures
            (final(self)@, r@) == started(old(self)@, start_ts, now),
            final(self).wf(),
            trades_on_time(final(self)@.engine, old(self)@.live, old(self)@.shares),
    {
        proof {
            a_window_starts_on_time(self@, start_ts, now);
        }
        let none: Vec<Order> = Vec::new();
        proof {
            assert(none@ =~= Seq::<Order>::empty());
        }
        let m: MarketInfo = match self.directory.market(start_ts) {
            Some(m) => m,
            None => return none,
        };
        let ghost b = self@;
        assert(market_ok(b.directory.markets[start_ts]));
        self.reset_engine(&m);
        let swings: bool = match &self.active {
            ActiveEngine::Pairing { .. } => false,
            _ => true,
        };
        if swings {
            let ghost reset = self@;
            self.seed(start_ts);
            proof {
                seeding_commits_nothing(
                    reset.engine,
                    asks_of(b.books, start_ts),
                    asks_of(b.books, start_ts).len() as int,
                );
            }
        }
        self.pnl.open_window(m.slug.clone(), self.shares);
        let open_ms: i64 = m.start_ts * 1_000;
        self.market = Some(m);
        self.trading_start = Some(start_ts);
        proof {
            assert(self@ == window_started(b, start_ts));
        }
        match self.last_cl {
            Some((t, px)) => if t >= open_ms && px > 0 && swings {
                return self.lock(start_ts, px, now);
            },
            None => {},
        }
        none
    }

    /// Ticks what trades for the last time in a window.
    pub fn close_tick(&mut self, start_ts: i64, now: i64) -> (r: Vec<Order>)
        requires
            old(self).wf(),
            has_room(old(self)@.engine),
            time_ok(now as int),
            time_ok((start_ts + 300) * 1_000),
        ensures
            (final(self)@, r@) == closing_ticked(old(self)@, start_ts, now),
            final(self).wf(),
    {
        let none: Vec<Order> = Vec::new();
        proof {
            assert(none@ =~= Seq::<Order>::empty());
        }
        if self.market.is_none() {
            return none;
        }
        let q: MarketQuotes = match self.books.latest(start_ts) {
            Some(q) => q,
            None => return none,
        };
        let end_ms: i64 = (start_ts + 300) * 1_000;
        let mut actions: Vec<BotAction> = self.tick_engine(&q, now, end_ms);
        let ghost ticked = self@;
        let ghost directory = self@.directory;
        if actions.len() == 0 {
            proof {
                assert(actions@ =~= Seq::<BotAction>::empty());
            }
            match &mut self.active {
                ActiveEngine::Pairing { engine, .. } => match engine.try_last_tick_flatten(end_ms) {
                    Some(a) => {
                        actions.push(a);
                        proof {
                            assert(actions@ =~= seq![a]);
                        }
                    },
                    None => {},
                },
                _ => {},
            }
        }
        proof {
            assert(self@.directory == directory);
        }
        self.execute_all(&actions, now)
    }

    /// Closes a window that has ended: fills what is left of its orders,
    /// settles it and forgets its quotes.
    pub fn close_window(&mut self, start_ts: i64) -> (r: WindowReport)
        requires
            old(self).wf(),
            can_fill(old(self)@, Due::Window { start_ts }, true),
            totals_have_room(old(self)@.accounts),
        ensures
            final(self)@ == window_closed(old(self)@, start_ts),
            is_report(r, old(self)@, start_ts),
            final(self).wf(),
            ({
                let before = old(self)@.accounts.totals;
                let after = final(self)@.accounts.totals;
                match r {
                    WindowReport::Settled { net, .. } => {
                        &&& after.net == before.net + net
                        &&& after.gross == before.gross + net
                        &&& after.fees == before.fees
                    },
                    WindowReport::Closed(c) => {
                        &&& after.net == before.net + c.net
                        &&& after.gross == before.gross + c.gross
                        &&& after.fees == before.fees + c.fees
                    },
                    WindowReport::Idle { .. } => after == before,
                }
            }),
    {
        let ghost b = self@;
        let ghost due = Due::Window { start_ts };
        let ghost waiting = BotState { pending: waiting_fills(due, b.pending), ..b };
        self.flush_dry_fills_for_window(start_ts);
        proof {
            booking_moves_only_accounts(
                waiting,
                due_fills(due, b.pending),
                true,
                due_fills(due, b.pending).len() as int,
            );
            booking_leaves_totals(
                waiting,
                due_fills(due, b.pending),
                true,
                due_fills(due, b.pending).len() as int,
            );
        }
        let ghost f = self@;
        let (up, down): (i64, i64) = match self.books.latest(start_ts) {
            Some(q) => (q.up_ask, q.down_ask),
            None => (EVEN_ASK, EVEN_ASK),
        };
        let last: Option<i64> = match self.last_cl {
            Some(q) => Some(q.1),
            None => None,
        };
        let winner: Option<PositionSide> = resolve_winner(up, down, last, self.active.strike());
        let slug: String = match self.directory.market(start_ts) {
            Some(m) => m.slug.clone(),
            None => btc5m_slug(start_ts),
        };
        self.books.clear_window(start_ts);
        proof {
            assert(winner == window_winner(b, start_ts));
            assert(self@.books == books_without(b.books, start_ts));
            assert(self@.directory == b.directory);
        }
        let settled: Option<WindowResult> = match &mut self.active {
            ActiveEngine::Pairing { .. } => None,
            ActiveEngine::GapSwing(engine) => Some(engine.finalize(winner)),
            ActiveEngine::VenueSwing(engine) => Some(engine.finalize(winner)),
        };
        proof {
            assert(self@.directory == b.directory);
        }
        match settled {
            Some(res) => {
                self.pnl.add_window_net(res.total_pnl);
                WindowReport::Settled {
                    slug,
                    net: res.total_pnl,
                    pairs: res.pairs,
                    trades: res.trades.len(),
                }
            },
            None => match self.pnl.close_window(winner) {
                Some(close) => WindowReport::Closed(close),
                None => WindowReport::Idle { slug },
            },
        }
    }

    /// The totals of the session.
    pub fn totals(&self) -> (r: Totals)
        ensures
            r == self@.accounts.totals,
    {
        let t: &Totals = self.pnl.totals();
        Totals { net: t.net, gross: t.gross, fees: t.fees }
    }

    /// The window that ends and the one that starts, where the clock has moved
    /// on to another window.
    pub fn window_turn(&self, now: i64) -> (r: Option<(Option<i64>, i64)>)
        ensures
            r == (if self@.trading_start == Some(window_of(now as int) as i64) {
                None
            } else {
                Some((self@.trading_start, window_of(now as int) as i64))
            }),
    {
        let start: i64 = trading_window_start(now);
        match self.trading_start {
            Some(old_start) => if old_start == start {
                return None;
            },
            None => {},
        }
        Some((self.trading_start, start))
    }

    /// A note on the tape, if one is due.
    pub fn tape_note(&mut self, now: i64) -> (r: Option<TapeNote>)
        requires
            old(self).wf(),
        ensures
            r is Some <==> note_due(old(self)@, now as int),
            r matches Some(n) ==> is_note(n, old(self)@),
            final(self)@ == (BotState {
                last_tape_ms: if r is Some {
                    now
                } else {
                    old(self)@.last_tape_ms
                },
                ..old(self)@
            }),
            final(self).wf(),
    {
        if (now as i128) - (self.last_tape_ms as i128) < TAPE_NOTE_MS as i128 {
            return None;
        }
        let (fills, unpaired, pairs): (usize, i128, u64) = match &self.active {
            ActiveEngine::Pairing { .. } => return None,
            ActiveEngine::GapSwing(engine) => (
                engine.fill_count(),
                engine.unpaired_shares(),
                engine.last_pairs(),
            ),
            ActiveEngine::VenueSwing(engine) => (
                engine.fill_count(),
                engine.unpaired_shares(),
                engine.last_pairs(),
            ),
        };
        self.last_tape_ms = now;
        let delta: Option<i64> = match (self.last_bn, self.active.strike()) {
            (Some(bn), Some(ptb)) => Some(bn - ptb),
            _ => None,
        };
        Some(TapeNote { delta, fills, unpaired, pairs })
    }

    /// How many fills of a dry run wait.
    pub fn pending_fills(&self) -> (r: usize)
        ensures
            r == self@.pending.len(),
    {
        self.pending.len()
    }

    /// The market that is traded.
    pub fn market(&self) -> (r: Option<MarketInfo>)
        ensures
            match (r, self@.market) {
                (Some(m), Some(v)) => m@ == v,
                (None, None) => true,
                _ => false,
            },
    {
        match &self.market {
            Some(m) => Some(m.clone()),
            None => None,
        }
    }

    /// The market of a window, if it is known.
    pub fn market_of_window(&self, start_ts: i64) -> (r: Option<MarketInfo>)
        ensures
            match r {
                Some(m) => self@.directory.markets.contains_key(start_ts) && m@
                    == self@.directory.markets[start_ts],
                None => !self@.directory.markets.contains_key(start_ts),
            },
    {
        self.directory.market(start_ts)
    }

    /// The windows whose opening prices are fetched ahead now; only pairing
    /// fetches them.
    pub fn prefetch(&mut self, now: i64) -> (r: Vec<i64>)
        requires
            old(self).wf(),
            time_ok(now as int),
        ensures
            r@ == (if old(self)@.engine is Pairing {
                prefetch_windows(old(self)@.directory, now as int)
            } else {
                Seq::empty()
            }),
            final(self)@ == (BotState {
                directory: Directory {
                    last_prefetch_ms: if old(self)@.engine is Pairing && prefetch_due(
                        old(self)@.directory,
                        now as int,
                    ) {
                        now
                    } else {
                        old(self)@.directory.last_prefetch_ms
                    },
                    ..old(self)@.directory
                },
                ..old(self)@
            }),
            final(self).wf(),
    {
        match &self.active {
            ActiveEngine::Pairing { .. } => self.directory.prefetch(now),
            _ => {
                let none: Vec<i64> = Vec::new();
                proof {
                    assert(none@ =~= Seq::<i64>::empty());
                }
                none
            },
        }
    }

    /// Notes an opening price that was fetched ahead.
    pub fn prefetched(&mut self, start_ts: i64, ptb: i64)
        requires
            old(self).wf(),
            price_ok(ptb as int),
        ensures
            final(self)@ == (BotState {
                directory: Directory {
                    strikes: old(self)@.directory.strikes.insert(start_ts, ptb),
                    confirmed: old(self)@.directory.confirmed.insert(start_ts),
                    ..old(self)@.directory
                },
                ..old(self)@
            }),
            final(self).wf(),
    {
        self.directory.prefetched(start_ts, ptb);
    }

    /// Notes that the site has limited requests.
    pub fn rate_limited(&mut self, now: i64)
        requires
            old(self).wf(),
        ensures
            final(self)@ == (BotState {
                directory: Directory { last_limited_ms: now, ..old(self)@.directory },
                ..old(self)@
            }),
            final(self).wf(),
    {
        self.directory.rate_limited(now);
    }

    /// Whether the official opening price of a window is still to be fetched
    /// when it starts; only pairing waits for it.
    pub fn needs_official(&self, start_ts: i64) -> (r: bool)
        ensures
            r == (self@.engine is Pairing && !self@.directory.strikes.contains_key(start_ts)),
    {
        match &self.active {
            ActiveEngine::Pairing { .. } => self.directory.strike(start_ts).is_none(),
            _ => false,
        }
    }

    /// How long to wait before the next attempt at the official opening price of
    /// a window that starts, after `tried` attempts; nothing where it is known or
    /// has been tried often enough.
    pub fn official_wait(&self, start_ts: i64, tried: u32) -> (r: Option<u64>)
        ensures
            r == (if self@.engine is Pairing && !self@.directory.strikes.contains_key(start_ts)
                && tried < OFFICIAL_ATTEMPTS {
                Some(
                    if tried == 0 {
                        0
                    } else {
                        OFFICIAL_RETRY_MS
                    },
                )
            } else {
                None
            }),
    {
        if tried >= OFFICIAL_ATTEMPTS || !self.needs_official(start_ts) {
            None
        } else if tried == 0 {
            Some(0)
        } else {
            Some(OFFICIAL_RETRY_MS)
        }
    }

    /// Notes the official opening price of a window.
    pub fn official_found(&mut self, start_ts: i64, ptb: i64)
        requires
            old(self).wf(),
            price_ok(ptb as int),
        ensures
            final(self)@ == (BotState {
                directory: Directory {
                    strikes: old(self)@.directory.strikes.insert(start_ts, ptb),
                    ..old(self)@.directory
                },
                ..old(self)@
            }),
            final(self).wf(),
    {
        self.directory.struck(start_ts, ptb);
    }

    /// The windows whose markets have to be looked up before subscriptions can
    /// change.
    pub fn unresolved(&self, now: i64) -> (r: Vec<i64>)
        ensures
            r@ == (if wanted(now as int) == self@.directory.subscribed {
                Seq::empty()
            } else {
                wanted(now as int).filter(|s: i64| !self@.directory.markets.contains_key(s))
            }),
    {
        self.directory.unresolved(now)
    }

    /// Notes the market of a window.
    pub fn resolved(&mut self, start_ts: i64, market: MarketInfo)
        requires
            old(self).wf(),
            market_ok(market@),
        ensures
            final(self)@ == (BotState {
                directory: Directory {
                    markets: old(self)@.directory.markets.insert(start_ts, market@),
                    ..old(self)@.directory
                },
                ..old(self)@
            }),
            final(self).wf(),
    {
        self.directory.resolved(start_ts, market);
    }

    /// Brings the subscriptions up to date.
    pub fn sync_subscriptions(&mut self, now: i64) -> (r: SubscribePlan)
        requires
            old(self).wf(),
        ensures
            crate::subscriptions::is_sync(
                old(self)@.directory,
                now as int,
                final(self)@.directory,
                r,
            ),
            final(self)@ == (BotState { directory: final(self)@.directory, ..old(self)@ }),
            final(self).wf(),
    {
        let plan: SubscribePlan = self.directory.sync(now);
        proof {
            assert(self@.directory.markets == old(self)@.directory.markets);
            assert(self@.directory.strikes == old(self)@.directory.strikes);
        }
        plan
    }
}

} // verus!
