//! Replay of a window with the pairing strategy.
use vstd::prelude::*;
use crate::pnl::{
    fee_of, fresh_ledger, ledger_gross, leg_bought, resolve_winner, winner_of, Ledger, PnlTracker,
};
use crate::units::{ask_ok, price_ok, shares_ok, time_ok};
use super::detector::{after_bn, after_cb, no_trend, trend_ok, CaptureSignal, Trend, TrendDetector};
use super::gates::{gives, is_distribution};
use super::pairing::{
    kept_quote, last_ticked, pairing_ok, signalled, ticked, Pairing, PairingEngine, State,
    TAKER_DELAY_MS,
};
use super::sides::PositionSide;
use super::sim::MAX_WINDOW_MS;
use super::sim_laws::fee_fits;
use super::swings::delta_ok;
use super::tape::{ask_before, ask_known, ask_tape_ok, known_ask_is_valid, price_tape_ok};
use super::trades::{action_ok, BotAction};

verus! {

/// Most ticks of a window that can be replayed.
pub const MAX_TICKS: usize = 300_000;

/// What a replayed window comes to.
#[derive(Clone, Copy, Debug, PartialEq, Eq, Structural)]
pub struct PairingWindowResult {
    pub total_pnl: i128,
    pub gross: i128,
    pub fees: i128,
    pub legs: u32,
}

/// A tick of one of the feeds.
#[derive(Clone, Copy, Debug, PartialEq, Eq, Structural)]
pub enum Event {
    Bn(i64, i64),
    Cb(i64, i64),
    Ask(i64, i64, i64),
}

/// The time of a tick.
pub open spec fn time_of(e: Event) -> i64 {
    match e {
        Event::Bn(t, _) => t,
        Event::Cb(t, _) => t,
        Event::Ask(t, _, _) => t,
    }
}

/// Where a tick of the time `t` goes among the first `n`.
pub open spec fn event_slot(events: Seq<Event>, t: int, n: int) -> int
    decreases n,
{
    if n > 0 && time_of(events[n - 1]) > t {
        event_slot(events, t, n - 1)
    } else {
        n
    }
}

/// The ticks after another one, in the order of their times.
pub open spec fn event_added(events: Seq<Event>, e: Event) -> Seq<Event> {
    events.insert(event_slot(events, time_of(e) as int, events.len() as int), e)
}

/// The ticks after the first `n` Binance prices.
pub open spec fn with_bn(events: Seq<Event>, tape: Seq<(i64, i64)>, n: int) -> Seq<Event>
    decreases n,
{
    if n <= 0 {
        events
    } else {
        event_added(with_bn(events, tape, n - 1), Event::Bn(tape[n - 1].0, tape[n - 1].1))
    }
}

/// The ticks after the first `n` Coinbase prices.
pub open spec fn with_cb(events: Seq<Event>, tape: Seq<(i64, i64)>, n: int) -> Seq<Event>
    decreases n,
{
    if n <= 0 {
        events
    } else {
        event_added(with_cb(events, tape, n - 1), Event::Cb(tape[n - 1].0, tape[n - 1].1))
    }
}

/// The ticks after the first `n` quotes; a quote needs both asks.
pub open spec fn with_asks(events: Seq<Event>, tape: Seq<(i64, i64, i64)>, n: int) -> Seq<Event>
    decreases n,
{
    if n <= 0 {
        events
    } else {
        let rest = with_asks(events, tape, n - 1);
        let q = tape[n - 1];
        if q.1 > 0 && q.2 > 0 {
            event_added(rest, Event::Ask(q.0, q.1, q.2))
        } else {
            rest
        }
    }
}

/// All ticks in the order of their times; at the same time Binance goes before
/// Coinbase and both before a quote.
pub open spec fn events_of(
    bn: Seq<(i64, i64)>,
    cb: Seq<(i64, i64)>,
    asks: Seq<(i64, i64, i64)>,
) -> Seq<Event> {
    with_asks(
        with_cb(with_bn(Seq::empty(), bn, bn.len() as int), cb, cb.len() as int),
        asks,
        asks.len() as int,
    )
}

/// State of a replay.
pub struct Replay {
    pub trend: Trend,
    pub pairing: Pairing,
    pub ledger: Ledger,
}

/// The ledger after an order has been filled: at the ask before the delay is
/// over, else at the worst it may be paid.
pub open spec fn filled(
    l: Ledger,
    order: Option<BotAction>,
    asks: Seq<(i64, i64, i64)>,
    shares: int,
) -> Ledger {
    match order {
        Some(BotAction::BuyEntry { side, signal_t, worst_ask, .. }) => leg_filled(
            l,
            side,
            signal_t,
            worst_ask,
            asks,
            shares,
        ),
        Some(BotAction::BuyPair { side, signal_t, worst_ask, .. }) => leg_filled(
            l,
            side,
            signal_t,
            worst_ask,
            asks,
            shares,
        ),
        _ => l,
    }
}

/// The ledger after a leg has been filled.
pub open spec fn leg_filled(
    l: Ledger,
    side: PositionSide,
    signal_t: i64,
    worst_ask: i64,
    asks: Seq<(i64, i64, i64)>,
    shares: int,
) -> Ledger {
    let fill = match ask_known(asks, signal_t + TAKER_DELAY_MS - 1, side) {
        Some(ask) => ask,
        None => worst_ask,
    };
    leg_bought(l, side, fill as int, shares)
}

/// Where pairing stands after a signal, which counts while it is flat.
pub open spec fn told(p: Pairing, sig: Option<CaptureSignal>) -> Pairing {
    match sig {
        Some(c) => if p.state is Idle || p.state is Cooldown {
            signalled(p, c)
        } else {
            p
        },
        None => p,
    }
}

/// The replay after a tick, with `m` the normal distribution function.
pub open spec fn replayed(
    r: Replay,
    e: Event,
    asks: Seq<(i64, i64, i64)>,
    shares: int,
    end_ms: int,
    m: spec_fn(i64) -> i64,
) -> Replay {
    match e {
        Event::Bn(t, p) => {
            let (trend, sig) = after_bn(r.trend, t as int, p, m);
            Replay { trend, pairing: told(r.pairing, sig), ledger: r.ledger }
        },
        Event::Cb(t, p) => {
            let (trend, sig) = after_cb(r.trend, t as int, p, m);
            Replay { trend, pairing: told(r.pairing, sig), ledger: r.ledger }
        },
        Event::Ask(t, up, down) => {
            let (pairing, order) = ticked(
                kept_quote(r.pairing, t, up, down),
                t,
                up,
                down,
                end_ms,
            );
            Replay {
                trend: if up > 0 {
                    Trend { poly: r.trend.poly.push((t, up, down)), ..r.trend }
                } else {
                    r.trend
                },
                pairing,
                ledger: filled(r.ledger, order, asks, shares),
            }
        },
    }
}

/// The replay after the first `n` ticks.
pub open spec fn replayed_through(
    r: Replay,
    events: Seq<Event>,
    n: int,
    asks: Seq<(i64, i64, i64)>,
    shares: int,
    end_ms: int,
    m: spec_fn(i64) -> i64,
) -> Replay
    decreases n,
{
    if n <= 0 {
        r
    } else {
        replayed(
            replayed_through(r, events, n - 1, asks, shares, end_ms, m),
            events[n - 1],
            asks,
            shares,
            end_ms,
            m,
        )
    }
}

/// The ledger after the close: the last quote is a tick again, and what it
/// leaves is paired if it is under water.
pub open spec fn closed(
    r: Replay,
    last: (i64, i64, i64),
    asks: Seq<(i64, i64, i64)>,
    shares: int,
    end_ms: int,
) -> Ledger {
    let (pairing, order) = ticked(r.pairing, (end_ms - 1) as i64, last.1, last.2, end_ms);
    match order {
        Some(_) => filled(r.ledger, order, asks, shares),
        None => filled(r.ledger, last_ticked(pairing, end_ms).1, asks, shares),
    }
}

/// The ledger of a replayed window, with `m` the normal distribution function.
pub open spec fn ledger_of(
    open_ms: i64,
    end_ms: i64,
    ptb: Option<i64>,
    bn: Seq<(i64, i64)>,
    cb: Seq<(i64, i64)>,
    asks: Seq<(i64, i64, i64)>,
    shares: int,
    m: spec_fn(i64) -> i64,
) -> Ledger {
    let events = events_of(bn, cb, asks);
    let start = Replay {
        trend: no_trend(open_ms, end_ms, ptb),
        pairing: Pairing { state: State::Idle, history: Seq::empty() },
        ledger: fresh_ledger(),
    };
    closed(
        replayed_through(
            start,
            events,
            events.len() as int,
            asks,
            shares,
            end_ms as int,
            m,
        ),
        asks[asks.len() - 1],
        asks,
        shares,
        end_ms as int,
    )
}

/// What a window comes to.
pub open spec fn result_of(l: Ledger, winner: Option<PositionSide>) -> PairingWindowResult {
    if l.legs <= 0 {
        PairingWindowResult { total_pnl: 0, gross: 0, fees: 0, legs: 0 }
    } else {
        PairingWindowResult {
            total_pnl: (ledger_gross(l, winner) - l.fees) as i128,
            gross: ledger_gross(l, winner) as i128,
            fees: l.fees as i128,
            legs: l.legs as u32,
        }
    }
}

/// What a replayed window comes to, with `m` the normal distribution function.
/// Nothing happens without quotes.
pub open spec fn pairing_outcome(
    open_ms: i64,
    end_ms: i64,
    ptb: Option<i64>,
    bn: Seq<(i64, i64)>,
    cb: Seq<(i64, i64)>,
    asks: Seq<(i64, i64, i64)>,
    shares: int,
    m: spec_fn(i64) -> i64,
) -> PairingWindowResult {
    if asks.len() == 0 {
        PairingWindowResult { total_pnl: 0, gross: 0, fees: 0, legs: 0 }
    } else {
        let last = asks[asks.len() - 1];
        let last_bn = if bn.len() == 0 {
            None
        } else {
            Some(bn[bn.len() - 1].1)
        };
        result_of(
            ledger_of(open_ms, end_ms, ptb, bn, cb, asks, shares, m),
            winner_of(last.1 as int, last.2 as int, last_bn, ptb),
        )
    }
}

/// Whether a tick is in range.
pub open spec fn event_ok(e: Event) -> bool {
    match e {
        Event::Bn(t, p) => time_ok(t as int) && price_ok(p as int),
        Event::Cb(t, p) => time_ok(t as int) && price_ok(p as int),
        Event::Ask(t, up, down) => time_ok(t as int) && ask_ok(up as int) && ask_ok(down as int),
    }
}

/// Whether ticks are in range.
pub open spec fn events_ok(events: Seq<Event>) -> bool {
    forall|i: int| 0 <= i < events.len() ==> event_ok(#[trigger] events[i])
}

/// The time of a tick.
fn event_time(e: &Event) -> (r: i64)
    ensures
        r == time_of(*e),
{
    match e {
        Event::Bn(t, _) => *t,
        Event::Cb(t, _) => *t,
        Event::Ask(t, _, _) => *t,
    }
}

/// Adds a tick where its time belongs.
fn add_event(events: &mut Vec<Event>, e: Event)
    requires
        events_ok(old(events)@),
        event_ok(e),
    ensures
        final(events)@ == event_added(old(events)@, e),
        events_ok(final(events)@),
        final(events).len() == old(events).len() + 1,
{
    let ghost before = events@;
    let t: i64 = event_time(&e);
    let mut at: usize = events.len();
    while at > 0 && event_time(&events[at - 1]) > t
        invariant
            at <= events.len(),
            events@ == before,
            event_slot(before, t as int, at as int) == event_slot(
                before,
                t as int,
                before.len() as int,
            ),
        decreases at,
    {
        at = at - 1;
    }
    events.insert(at, e);
    proof {
        assert forall|i: int| 0 <= i < events@.len() implies event_ok(#[trigger] events@[i]) by {
            if i < at {
                assert(events@[i] == before[i]);
            } else if i > at {
                assert(events@[i] == before[i - 1]);
            }
        }
    }
}

/// All ticks in the order of their times.
fn all_events(bn: &[(i64, i64)], cb: &[(i64, i64)], asks: &[(i64, i64, i64)]) -> (r: Vec<Event>)
    requires
        price_tape_ok(bn@),
        price_tape_ok(cb@),
        ask_tape_ok(asks@),
        bn.len() <= MAX_TICKS,
        cb.len() <= MAX_TICKS,
        asks.len() <= MAX_TICKS,
    ensures
        r@ == events_of(bn@, cb@, asks@),
        events_ok(r@),
        r.len() <= bn.len() + cb.len() + asks.len(),
{
    let mut r: Vec<Event> = Vec::new();
    let mut n: usize = 0;
    proof {
        assert(r@ =~= Seq::<Event>::empty());
    }
    while n < bn.len()
        invariant
            n <= bn.len() <= MAX_TICKS,
            price_tape_ok(bn@),
            events_ok(r@),
            r.len() == n,
            r@ == with_bn(Seq::empty(), bn@, n as int),
        decreases bn.len() - n,
    {
        proof {
            assert(price_ok(bn@[n as int].1 as int));
        }
        add_event(&mut r, Event::Bn(bn[n].0, bn[n].1));
        n = n + 1;
    }
    let ghost first = r@;
    n = 0;
    while n < cb.len()
        invariant
            n <= cb.len() <= MAX_TICKS,
            first.len() <= MAX_TICKS,
            price_tape_ok(cb@),
            events_ok(r@),
            r.len() == first.len() + n,
            r@ == with_cb(first, cb@, n as int),
        decreases cb.len() - n,
    {
        proof {
            assert(price_ok(cb@[n as int].1 as int));
        }
        add_event(&mut r, Event::Cb(cb[n].0, cb[n].1));
        n = n + 1;
    }
    let ghost second = r@;
    n = 0;
    while n < asks.len()
        invariant
            n <= asks.len() <= MAX_TICKS,
            second.len() <= 2 * MAX_TICKS,
            ask_tape_ok(asks@),
            events_ok(r@),
            r.len() <= second.len() + n,
            r@ == with_asks(second, asks@, n as int),
        decreases asks.len() - n,
    {
        proof {
            assert(ask_ok(asks@[n as int].1 as int));
        }
        if asks[n].1 > 0 && asks[n].2 > 0 {
            add_event(&mut r, Event::Ask(asks[n].0, asks[n].1, asks[n].2));
        }
        n = n + 1;
    }
    r
}

/// The fee of a leg is not negative.
proof fn fees_are_not_negative(shares: int)
    requires
        shares_ok(shares),
    ensures
        shares >= 0 ==> forall|px: int| #[trigger] fee_of(shares, px) >= 0,
{
    if shares >= 0 {
        assert forall|px: int| #[trigger] fee_of(shares, px) >= 0 by {
            fee_fits(shares, px);
        }
    }
}

/// Books an order.
fn apply_order(
    order: &Option<BotAction>,
    asks: &[(i64, i64, i64)],
    pnl: &mut PnlTracker,
    shares: i64,
)
    requires
        old(pnl).wf(),
        old(pnl).window is Some,
        old(pnl).window->0.legs < u32::MAX,
        shares_ok(shares as int),
        *order matches Some(a) ==> action_ok(a),
    ensures
        final(pnl).wf(),
        final(pnl).window is Some,
        final(pnl).totals == old(pnl).totals,
        final(pnl).window->0@ == filled(old(pnl).window->0@, *order, asks@, shares as int),
        final(pnl).window->0.legs <= old(pnl).window->0.legs + 1,
        shares >= 0 ==> final(pnl).window->0.fees >= old(pnl).window->0.fees,
{
    proof {
        fees_are_not_negative(shares as int);
    }
    match order {
        Some(BotAction::BuyEntry { side, signal_t, worst_ask, .. }) => {
            proof {
                known_ask_is_valid(asks@, signal_t + TAKER_DELAY_MS - 1, *side);
            }
            let fill: i64 = match ask_before(asks, *signal_t + TAKER_DELAY_MS, *side) {
                Some(ask) => ask,
                None => *worst_ask,
            };
            pnl.record_buy(*side, fill, shares, false);
        },
        Some(BotAction::BuyPair { side, signal_t, worst_ask, .. }) => {
            proof {
                known_ask_is_valid(asks@, signal_t + TAKER_DELAY_MS - 1, *side);
            }
            let fill: i64 = match ask_before(asks, *signal_t + TAKER_DELAY_MS, *side) {
                Some(ask) => ask,
                None => *worst_ask,
            };
            pnl.record_buy(*side, fill, shares, true);
        },
        _ => {},
    }
}

/// Tells pairing of a signal.
fn tell(engine: &mut PairingEngine, sig: &Option<CaptureSignal>, now_ms: i64)
    requires
        pairing_ok(old(engine)@),
        *sig matches Some(c) ==> time_ok(c.t as int) && delta_ok(c.gap_usd as int),
    ensures
        final(engine)@ == told(old(engine)@, *sig),
        pairing_ok(final(engine)@),
{
    if let Some(c) = sig {
        if engine.is_flat() {
            let _order: Option<BotAction> = engine.on_signal(c, now_ms);
        }
    }
}

/// Replays a window with the pairing strategy.
pub fn run_pairing_window<F: Fn(i64) -> i64>(
    open_ms: i64,
    end_ms: i64,
    ptb: Option<i64>,
    bn: &[(i64, i64)],
    cb: &[(i64, i64)],
    asks: &[(i64, i64, i64)],
    shares: i64,
    cdf: &F,
) -> (r: PairingWindowResult)
    requires
        time_ok(open_ms as int),
        time_ok(end_ms - 1),
        time_ok(end_ms as int),
        end_ms - open_ms <= MAX_WINDOW_MS,
        ptb matches Some(strike) ==> price_ok(strike as int),
        price_tape_ok(bn@),
        price_tape_ok(cb@),
        ask_tape_ok(asks@),
        bn.len() <= MAX_TICKS,
        cb.len() <= MAX_TICKS,
        asks.len() <= MAX_TICKS,
        shares_ok(shares as int),
        is_distribution(*cdf),
    ensures
        forall|m: spec_fn(i64) -> i64| #[trigger]
            gives(*cdf, m) ==> r == pairing_outcome(
                open_ms,
                end_ms,
                ptb,
                bn@,
                cb@,
                asks@,
                shares as int,
                m,
            ),
        r.total_pnl == r.gross - r.fees,
        shares >= 0 ==> r.fees >= 0,
{
    if asks.len() == 0 {
        return PairingWindowResult { total_pnl: 0, gross: 0, fees: 0, legs: 0 };
    }
    let events: Vec<Event> = all_events(bn, cb, asks);
    let mut detector: TrendDetector = TrendDetector::new(open_ms, end_ms, ptb);
    let mut engine: PairingEngine = PairingEngine::new();
    let mut pnl: PnlTracker = PnlTracker::new();
    pnl.open_window("replay".to_string(), shares);
    let ghost start = Replay {
        trend: detector@,
        pairing: engine@,
        ledger: pnl.window->0@,
    };
    let mut n: usize = 0;
    while n < events.len()
        invariant
            n <= events.len() <= 3 * MAX_TICKS,
            events_ok(events@),
            trend_ok(detector@),
            detector@.samples.len() <= n,
            pairing_ok(engine@),
            pnl.wf(),
            pnl.window is Some,
            pnl.window->0.legs <= n,
            shares >= 0 ==> pnl.window->0.fees >= 0,
            pnl.totals.net == 0 && pnl.totals.gross == 0 && pnl.totals.fees == 0,
            shares_ok(shares as int),
            time_ok(end_ms as int),
            is_distribution(*cdf),
            forall|m: spec_fn(i64) -> i64| #[trigger]
                gives(*cdf, m) ==> (Replay {
                    trend: detector@,
                    pairing: engine@,
                    ledger: pnl.window->0@,
                }) == replayed_through(
                    start,
                    events@,
                    n as int,
                    asks@,
                    shares as int,
                    end_ms as int,
                    m,
                ),
        decreases events.len() - n,
    {
        proof {
            assert(event_ok(events@[n as int]));
        }
        match events[n] {
            Event::Bn(t, p) => {
                let sig: Option<CaptureSignal> = detector.on_bn(t, p, cdf);
                tell(&mut engine, &sig, t);
            },
            Event::Cb(t, p) => {
                let sig: Option<CaptureSignal> = detector.on_cb(t, p, cdf);
                tell(&mut engine, &sig, t);
            },
            Event::Ask(t, up, down) => {
                detector.push_poly(t, up, down);
                engine.record_poly(t, up, down);
                let order: Option<BotAction> = engine.tick(t, up, down, end_ms);
                apply_order(&order, asks, &mut pnl, shares);
            },
        }
        n = n + 1;
    }
    let last: (i64, i64, i64) = asks[asks.len() - 1];
    proof {
        assert(ask_ok(asks@[asks@.len() - 1].1 as int));
    }
    let order: Option<BotAction> = engine.tick(end_ms - 1, last.1, last.2, end_ms);
    if order.is_some() {
        apply_order(&order, asks, &mut pnl, shares);
    } else {
        let flatten: Option<BotAction> = engine.try_last_tick_flatten(end_ms);
        apply_order(&flatten, asks, &mut pnl, shares);
    }
    let last_bn: Option<i64> = if bn.len() == 0 {
        None
    } else {
        Some(bn[bn.len() - 1].1)
    };
    let winner: Option<PositionSide> = resolve_winner(last.1, last.2, last_bn, ptb);
    match pnl.close_window(winner) {
        Some(close) => PairingWindowResult {
            total_pnl: close.net,
            gross: close.gross,
            fees: close.fees,
            legs: close.legs,
        },
        None => PairingWindowResult { total_pnl: 0, gross: 0, fees: 0, legs: 0 },
    }
}

} // verus!
