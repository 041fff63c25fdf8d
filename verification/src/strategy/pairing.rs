//! Pairing: a signal is entered on a pullback and paired when it dies.
use vstd::prelude::*;
use crate::units::{ask_ok, magnitude, time_ok, MAX_MS};
use super::detector::CaptureSignal;
use super::gates::{
    complement, other_side_ask, should_skip_gap_time, should_skip_token_trend, sigma_left,
    sigma_remaining, skips_gap_time, skips_token_trend, CaptureGateInput,
};
use super::intents::{cent_price, clamp_price, CHASE};
use super::sides::{token_of, PositionSide};
use super::swings::delta_ok;
use super::tape::{
    ask_before, ask_known, ask_tape_ok, known_ask_is_valid, quote_side, side_ask,
};
use super::trades::{action_ok, BotAction, Reason};

verus! {

/// Delay from order to fill.
pub const TAKER_DELAY_MS: i64 = 250;

/// Fall of the ask that an entry waits for.
pub const PULLBACK: i64 = 40_000_000;

/// How long an entry waits for it.
pub const PULL_WAIT_MS: i64 = 4_000;

/// Wait after an exit.
pub const COOLDOWN_AFTER_EXIT_MS: i64 = 1_500;

/// Gain from which a holding is kept.
pub const HOLD_MFE: i64 = 20_000_000;

/// How far a token must lag behind its fair price.
pub const MIN_BOOK_LAG: i64 = 15_000_000;

/// Highest ask of an entry.
pub const MAX_TOKEN_ASK: i64 = 750_000_000;

/// Ask at which a holding is dead.
pub const DEAD_ASK: i64 = 200_000_000;

/// Time before the close from which a holding can be dead.
pub const DEAD_LEFT_MS: i64 = 90_000;

/// How long quotes are kept.
pub const HISTORY_MS: i64 = 10_000;

/// Time after the fill before a holding is watched.
pub const SETTLE_MS: i64 = 400;

/// Where an entry stands.
#[derive(Clone, Copy, Debug, PartialEq, Eq, Structural)]
pub enum State {
    Idle,
    PendingEntry { signal_t: i64, side: PositionSide, ref_ask: Option<i64>, deadline: i64 },
    Holding {
        side: PositionSide,
        entry_t: i64,
        entry_ask: i64,
        peak_ask: i64,
        last_obs_t: i64,
        last_obs_ask: i64,
    },
    Cooldown { until: i64 },
}

/// Where an entry stands, and the quotes that are kept.
pub struct Pairing {
    pub state: State,
    pub history: Seq<(i64, i64, i64)>,
}

/// How many leading quotes are older than `cutoff`, from `i` on.
pub open spec fn stale_quotes(quotes: Seq<(i64, i64, i64)>, cutoff: int, i: int) -> int
    decreases quotes.len() - i,
{
    if 0 <= i < quotes.len() && quotes[i].0 < cutoff {
        stale_quotes(quotes, cutoff, i + 1)
    } else {
        i
    }
}

/// Quotes after another one: those that are older than `keep` are dropped.
pub open spec fn quote_kept(
    quotes: Seq<(i64, i64, i64)>,
    t: i64,
    up: i64,
    down: i64,
    keep: int,
) -> Seq<(i64, i64, i64)> {
    let all = quotes.push((t, up, down));
    all.skip(stale_quotes(all, t - keep, 0))
}

/// What is known of a token's ask before `t`, else what is quoted now.
pub open spec fn observed(
    history: Seq<(i64, i64, i64)>,
    t: int,
    side: PositionSide,
    up: i64,
    down: i64,
) -> int {
    match ask_known(history, t - 1, side) {
        Some(ask) => ask as int,
        None => quote_side((0, up, down), side) as int,
    }
}

/// What a signal is judged by.
pub open spec fn input_of(sig: CaptureSignal) -> CaptureGateInput {
    CaptureGateInput {
        direction: sig.direction,
        gap_usd: sig.gap_usd,
        seconds_left: sig.seconds_left,
        sigma_rem: sigma_left(sig.seconds_left as int) as i64,
        token_ask: sig.token_ask,
        impulse_usd: 0,
        expected_dp: sig.expected_dp,
        book_lag: sig.book_lag,
    }
}

/// Whether a signal is entered.
pub open spec fn enters(p: Pairing, sig: CaptureSignal) -> bool {
    &&& sig.tradable
    &&& sig.token_ask <= MAX_TOKEN_ASK
    &&& sig.book_lag >= MIN_BOOK_LAG
    &&& !skips_gap_time(input_of(sig))
    &&& !skips_token_trend(sig.direction, p.history, sig.t as int)
    &&& p.state is Idle
}

/// Where things stand after a signal.
pub open spec fn signalled(p: Pairing, sig: CaptureSignal) -> Pairing {
    if enters(p, sig) {
        Pairing {
            state: State::PendingEntry {
                signal_t: sig.t,
                side: token_of(sig.direction),
                ref_ask: None,
                deadline: (sig.t + TAKER_DELAY_MS + PULL_WAIT_MS) as i64,
            },
            ..p
        }
    } else {
        p
    }
}

/// A holding bought now at what is observed.
pub open spec fn bought_now(side: PositionSide, now: int, obs: int) -> State {
    State::Holding {
        side,
        entry_t: (now + TAKER_DELAY_MS) as i64,
        entry_ask: obs as i64,
        peak_ask: obs as i64,
        last_obs_t: now as i64,
        last_obs_ask: obs as i64,
    }
}

/// The order of an entry.
pub open spec fn entry_order(
    side: PositionSide,
    now: int,
    up: i64,
    down: i64,
    reason: Reason,
) -> BotAction {
    BotAction::BuyEntry {
        side,
        signal_t: now as i64,
        worst_ask: cent_price(quote_side((0, up, down), side) + CHASE) as i64,
        reason,
    }
}

/// A pending entry at a quote: nothing before the delay is over; it is bought
/// on a pullback from the ask at that time, or once it has waited too long.
pub open spec fn pending_ticked(
    p: Pairing,
    signal_t: i64,
    side: PositionSide,
    ref_ask: Option<i64>,
    deadline: i64,
    now: int,
    up: i64,
    down: i64,
) -> (Pairing, Option<BotAction>) {
    let t0 = signal_t + TAKER_DELAY_MS;
    if now < t0 {
        (p, None)
    } else {
        let from = match ref_ask {
            Some(ask) => ask as int,
            None => observed(p.history, t0, side, up, down),
        };
        let obs = observed(p.history, now, side, up, down);
        if obs <= from - PULLBACK {
            (
                Pairing { state: bought_now(side, now, obs), ..p },
                Some(entry_order(side, now, up, down, Reason::PullbackFill)),
            )
        } else if now > deadline {
            (
                Pairing { state: bought_now(side, now, obs), ..p },
                Some(entry_order(side, now, up, down, Reason::ChaseFill)),
            )
        } else {
            (
                Pairing {
                    state: State::PendingEntry {
                        signal_t,
                        side,
                        ref_ask: Some(from as i64),
                        deadline,
                    },
                    ..p
                },
                None,
            )
        }
    }
}

/// The order that pairs a holding whose ask is `obs`.
pub open spec fn pair_order(side: PositionSide, t: int, obs: int, reason: Reason) -> BotAction {
    BotAction::BuyPair {
        side: side.opposite_spec(),
        signal_t: t as i64,
        worst_ask: cent_price(complement(obs) + CHASE) as i64,
        reason,
    }
}

/// A holding at a quote: it is watched once it has settled, and paired when it
/// is dead near the close without ever having gained.
pub open spec fn holding_ticked(
    p: Pairing,
    side: PositionSide,
    entry_t: i64,
    entry_ask: i64,
    peak_ask: i64,
    now: int,
    up: i64,
    down: i64,
    end_ms: int,
) -> (Pairing, Option<BotAction>) {
    if now < entry_t + SETTLE_MS {
        (p, None)
    } else {
        let obs = observed(p.history, now, side, up, down);
        let peak = if obs > peak_ask {
            obs
        } else {
            peak_ask as int
        };
        if peak - entry_ask < HOLD_MFE && end_ms - now <= DEAD_LEFT_MS && obs <= DEAD_ASK {
            (
                Pairing {
                    state: State::Cooldown { until: (now + COOLDOWN_AFTER_EXIT_MS) as i64 },
                    ..p
                },
                Some(pair_order(side, now, obs, Reason::DeadFlatten)),
            )
        } else {
            (
                Pairing {
                    state: State::Holding {
                        side,
                        entry_t,
                        entry_ask,
                        peak_ask: peak as i64,
                        last_obs_t: now as i64,
                        last_obs_ask: obs as i64,
                    },
                    ..p
                },
                None,
            )
        }
    }
}

/// Where things stand after a quote has been kept.
pub open spec fn kept_quote(p: Pairing, t: i64, up: i64, down: i64) -> Pairing {
    Pairing { history: quote_kept(p.history, t, up, down, HISTORY_MS as int), ..p }
}

/// Where things stand after a quote, and the order that it leads to.
pub open spec fn ticked(p: Pairing, now: i64, up: i64, down: i64, end_ms: int) -> (
    Pairing,
    Option<BotAction>,
) {
    let kept = kept_quote(p, now, up, down);
    match kept.state {
        State::Cooldown { until } => if now >= until {
            (Pairing { state: State::Idle, ..kept }, None)
        } else {
            (kept, None)
        },
        State::PendingEntry { signal_t, side, ref_ask, deadline } => pending_ticked(
            kept,
            signal_t,
            side,
            ref_ask,
            deadline,
            now as int,
            up,
            down,
        ),
        State::Holding { side, entry_t, entry_ask, peak_ask, .. } => holding_ticked(
            kept,
            side,
            entry_t,
            entry_ask,
            peak_ask,
            now as int,
            up,
            down,
            end_ms,
        ),
        State::Idle => (kept, None),
    }
}

/// Where things stand after the last tick: a holding that never gained and is
/// not above its entry is paired.
pub open spec fn last_ticked(p: Pairing, end_ms: int) -> (Pairing, Option<BotAction>) {
    match p.state {
        State::Holding { side, entry_t, entry_ask, peak_ask, last_obs_t, last_obs_ask } => if entry_t
            + SETTLE_MS > end_ms || peak_ask - entry_ask >= HOLD_MFE || last_obs_ask > entry_ask
            || last_obs_t >= end_ms {
            (p, None)
        } else {
            (
                Pairing {
                    state: State::Cooldown { until: (end_ms + COOLDOWN_AFTER_EXIT_MS) as i64 },
                    ..p
                },
                Some(pair_order(side, end_ms, last_obs_ask as int, Reason::LastTickFlatten)),
            )
        },
        _ => (p, None),
    }
}

/// Whether a state is valid.
pub open spec fn state_ok(s: State) -> bool {
    match s {
        State::Idle => true,
        State::PendingEntry { signal_t, ref_ask, deadline, .. } => {
            &&& magnitude(signal_t as int) <= 2 * MAX_MS
            &&& ref_ask matches Some(ask) ==> ask_ok(ask as int)
        },
        State::Holding { entry_t, entry_ask, peak_ask, last_obs_ask, .. } => {
            &&& magnitude(entry_t as int) <= 2 * MAX_MS
            &&& ask_ok(entry_ask as int)
            &&& ask_ok(peak_ask as int)
            &&& ask_ok(last_obs_ask as int)
        },
        State::Cooldown { .. } => true,
    }
}

/// Whether everything is valid.
pub open spec fn pairing_ok(p: Pairing) -> bool {
    state_ok(p.state) && ask_tape_ok(p.history)
}

/// Adds a quote and drops the leading ones that are older than `keep_ms`.
pub fn keep_quote(
    quotes: &mut Vec<(i64, i64, i64)>,
    t: i64,
    up: i64,
    down: i64,
    keep_ms: i64,
)
    requires
        ask_tape_ok(old(quotes)@),
        time_ok(t as int),
        ask_ok(up as int),
        ask_ok(down as int),
        time_ok(keep_ms as int),
    ensures
        final(quotes)@ == quote_kept(old(quotes)@, t, up, down, keep_ms as int),
        ask_tape_ok(final(quotes)@),
{
    quotes.push((t, up, down));
    let ghost all = quotes@;
    let cutoff: i64 = t - keep_ms;
    let mut n: usize = 0;
    while n < quotes.len() && quotes[n].0 < cutoff
        invariant
            n <= quotes.len(),
            quotes@ == all,
            stale_quotes(all, cutoff as int, 0) == stale_quotes(all, cutoff as int, n as int),
        decreases quotes.len() - n,
    {
        n = n + 1;
    }
    let mut rest: Vec<(i64, i64, i64)> = Vec::new();
    let mut i: usize = n;
    while i < quotes.len()
        invariant
            n <= i <= quotes.len(),
            quotes@ == all,
            ask_tape_ok(all),
            ask_tape_ok(rest@),
            rest@ == all.subrange(n as int, i as int),
        decreases quotes.len() - i,
    {
        proof {
            assert(ask_ok(all[i as int].1 as int));
            assert(all.subrange(n as int, i + 1) =~= all.subrange(n as int, i as int).push(
                all[i as int],
            ));
        }
        rest.push(quotes[i]);
        i = i + 1;
    }
    proof {
        assert(rest@ =~= all.skip(n as int));
    }
    *quotes = rest;
}

/// A pairing engine.
pub struct PairingEngine {
    state: State,
    poly_history: Vec<(i64, i64, i64)>,
}

impl View for PairingEngine {
    type V = Pairing;

    closed spec fn view(&self) -> Pairing {
        Pairing { state: self.state, history: self.poly_history@ }
    }
}

impl PairingEngine {
    /// An engine that has seen nothing.
    pub fn new() -> (r: PairingEngine)
        ensures
            r@ == (Pairing { state: State::Idle, history: Seq::empty() }),
            pairing_ok(r@),
    {
        let r: PairingEngine = PairingEngine { state: State::Idle, poly_history: Vec::new() };
        proof {
            assert(r@.history =~= Seq::<(i64, i64, i64)>::empty());
        }
        r
    }

    /// Goes on to another window.
    pub fn reset_window(&mut self)
        ensures
            final(self)@ == (Pairing { state: State::Idle, history: Seq::empty() }),
            pairing_ok(final(self)@),
    {
        self.state = State::Idle;
        self.poly_history = Vec::new();
        proof {
            assert(self@.history =~= Seq::<(i64, i64, i64)>::empty());
        }
    }

    /// Keeps a quote.
    pub fn record_poly(&mut self, t: i64, up: i64, down: i64)
        requires
            pairing_ok(old(self)@),
            time_ok(t as int),
            ask_ok(up as int),
            ask_ok(down as int),
        ensures
            final(self)@ == kept_quote(old(self)@, t, up, down),
            pairing_ok(final(self)@),
    {
        keep_quote(&mut self.poly_history, t, up, down, HISTORY_MS);
    }

    /// Takes a signal.  It is never bought at once.
    pub fn on_signal(&mut self, sig: &CaptureSignal, _now_ms: i64) -> (r: Option<BotAction>)
        requires
            pairing_ok(old(self)@),
            time_ok(sig.t as int),
            delta_ok(sig.gap_usd as int),
        ensures
            r is None,
            final(self)@ == signalled(old(self)@, *sig),
            pairing_ok(final(self)@),
    {
        if !sig.tradable || sig.token_ask > MAX_TOKEN_ASK || sig.book_lag < MIN_BOOK_LAG {
            return None;
        }
        let input: CaptureGateInput = CaptureGateInput {
            direction: sig.direction,
            gap_usd: sig.gap_usd,
            seconds_left: sig.seconds_left,
            sigma_rem: sigma_remaining(sig.seconds_left),
            token_ask: sig.token_ask,
            impulse_usd: 0,
            expected_dp: sig.expected_dp,
            book_lag: sig.book_lag,
        };
        if should_skip_gap_time(&input) {
            return None;
        }
        if should_skip_token_trend(sig.direction, &self.poly_history, sig.t) {
            return None;
        }
        match self.state {
            State::Idle => {
                self.state = State::PendingEntry {
                    signal_t: sig.t,
                    side: PositionSide::from(sig.direction),
                    ref_ask: None,
                    deadline: sig.t + TAKER_DELAY_MS + PULL_WAIT_MS,
                };
            },
            _ => {},
        }
        None
    }

    /// What is known of a token's ask before `t`, else what is quoted now.
    fn observe(&self, t: i64, side: PositionSide, up: i64, down: i64) -> (r: i64)
        requires
            pairing_ok(self@),
            ask_ok(up as int),
            ask_ok(down as int),
            t > i64::MIN,
        ensures
            r == observed(self@.history, t as int, side, up, down),
            ask_ok(r as int),
    {
        proof {
            known_ask_is_valid(self@.history, t - 1, side);
        }
        match ask_before(&self.poly_history, t, side) {
            Some(ask) => ask,
            None => side_ask(side, up, down),
        }
    }

    /// Takes a quote.
    pub fn tick(&mut self, now_ms: i64, up_ask: i64, down_ask: i64, end_ms: i64) -> (r: Option<
        BotAction,
    >)
        requires
            pairing_ok(old(self)@),
            time_ok(now_ms as int),
            ask_ok(up_ask as int),
            ask_ok(down_ask as int),
            time_ok(end_ms as int),
        ensures
            (final(self)@, r) == ticked(old(self)@, now_ms, up_ask, down_ask, end_ms as int),
            pairing_ok(final(self)@),
            r matches Some(a) ==> action_ok(a),
    {
        self.record_poly(now_ms, up_ask, down_ask);
        match self.state {
            State::Idle => None,
            State::Cooldown { until } => {
                if now_ms >= until {
                    self.state = State::Idle;
                }
                None
            },
            State::PendingEntry { signal_t, side, ref_ask, deadline } => {
                let t0: i64 = signal_t + TAKER_DELAY_MS;
                if now_ms < t0 {
                    return None;
                }
                let from: i64 = match ref_ask {
                    Some(ask) => ask,
                    None => self.observe(t0, side, up_ask, down_ask),
                };
                let obs: i64 = self.observe(now_ms, side, up_ask, down_ask);
                let pulled_back: bool = obs <= from - PULLBACK;
                if pulled_back || now_ms > deadline {
                    self.state = State::Holding {
                        side,
                        entry_t: now_ms + TAKER_DELAY_MS,
                        entry_ask: obs,
                        peak_ask: obs,
                        last_obs_t: now_ms,
                        last_obs_ask: obs,
                    };
                    let ask: i64 = side_ask(side, up_ask, down_ask);
                    let reason: Reason = if pulled_back {
                        Reason::PullbackFill
                    } else {
                        Reason::ChaseFill
                    };
                    Some(
                        BotAction::BuyEntry {
                            side,
                            signal_t: now_ms,
                            worst_ask: clamp_price(ask + CHASE),
                            reason,
                        },
                    )
                } else {
                    self.state = State::PendingEntry {
                        signal_t,
                        side,
                        ref_ask: Some(from),
                        deadline,
                    };
                    None
                }
            },
            State::Holding { side, entry_t, entry_ask, peak_ask, .. } => {
                if now_ms < entry_t + SETTLE_MS {
                    return None;
                }
                let obs: i64 = self.observe(now_ms, side, up_ask, down_ask);
                let peak: i64 = if obs > peak_ask {
                    obs
                } else {
                    peak_ask
                };
                if peak - entry_ask < HOLD_MFE && end_ms - now_ms <= DEAD_LEFT_MS && obs
                    <= DEAD_ASK {
                    self.state = State::Cooldown { until: now_ms + COOLDOWN_AFTER_EXIT_MS };
                    let pair_ask: i64 = other_side_ask(side.direction(), obs);
                    Some(
                        BotAction::BuyPair {
                            side: side.opposite(),
                            signal_t: now_ms,
                            worst_ask: clamp_price(pair_ask + CHASE),
                            reason: Reason::DeadFlatten,
                        },
                    )
                } else {
                    self.state = State::Holding {
                        side,
                        entry_t,
                        entry_ask,
                        peak_ask: peak,
                        last_obs_t: now_ms,
                        last_obs_ask: obs,
                    };
                    None
                }
            },
        }
    }

    /// Pairs a holding that is under water at the last tick.
    pub fn try_last_tick_flatten(&mut self, end_ms: i64) -> (r: Option<BotAction>)
        requires
            pairing_ok(old(self)@),
            time_ok(end_ms as int),
        ensures
            (final(self)@, r) == last_ticked(old(self)@, end_ms as int),
            pairing_ok(final(self)@),
            r matches Some(a) ==> action_ok(a),
    {
        match self.state {
            State::Holding { side, entry_t, entry_ask, peak_ask, last_obs_t, last_obs_ask } => {
                if entry_t + SETTLE_MS > end_ms || peak_ask - entry_ask >= HOLD_MFE || last_obs_ask
                    > entry_ask || last_obs_t >= end_ms {
                    return None;
                }
                self.state = State::Cooldown { until: end_ms + COOLDOWN_AFTER_EXIT_MS };
                let pair_ask: i64 = other_side_ask(side.direction(), last_obs_ask);
                Some(
                    BotAction::BuyPair {
                        side: side.opposite(),
                        signal_t: end_ms,
                        worst_ask: clamp_price(pair_ask + CHASE),
                        reason: Reason::LastTickFlatten,
                    },
                )
            },
            _ => None,
        }
    }

    /// Whether nothing is held or waited for.
    pub fn is_flat(&self) -> (r: bool)
        ensures
            r == (self@.state is Idle || self@.state is Cooldown),
    {
        match self.state {
            State::Idle => true,
            State::Cooldown { .. } => true,
            _ => false,
        }
    }
}

/// Entries and exits take turns: an entry is only ordered out of a pending
/// signal and leads to a holding, a pair is only ordered out of a holding, for
/// the other token, and leads to a cooldown.
pub proof fn entries_and_exits_take_turns(
    p: Pairing,
    now: i64,
    up: i64,
    down: i64,
    end_ms: int,
)
    ensures
        ({
            let (after, order) = ticked(p, now, up, down, end_ms);
            match order {
                Some(BotAction::BuyEntry { side, .. }) => {
                    &&& p.state matches State::PendingEntry { side: s, signal_t, .. } && s == side
                        && now >= signal_t + TAKER_DELAY_MS
                    &&& after.state matches State::Holding { side: s, .. } && s == side
                },
                Some(BotAction::BuyPair { side, .. }) => {
                    &&& p.state matches State::Holding { side: s, entry_t, .. } && s
                        == side.opposite_spec() && now >= entry_t + SETTLE_MS
                    &&& after.state is Cooldown
                },
                Some(BotAction::SellFlatten { .. }) => false,
                None => true,
            }
        }),
        ({
            let (after, order) = last_ticked(p, end_ms);
            match order {
                Some(BotAction::BuyPair { side, .. }) => {
                    &&& p.state matches State::Holding { side: s, .. } && s == side.opposite_spec()
                    &&& after.state is Cooldown
                },
                Some(_) => false,
                None => after == p,
            }
        }),
{
}

/// What can happen to a pairing engine.
pub enum PairingCall {
    Signal { sig: CaptureSignal },
    Quote { t: i64, up: i64, down: i64 },
    Tick { now: i64, up: i64, down: i64, end_ms: i64 },
    LastTick { end_ms: i64 },
}

/// Where things stand after something has happened, and the order it leads to.
pub open spec fn pairing_called(p: Pairing, c: PairingCall) -> (Pairing, Option<BotAction>) {
    match c {
        PairingCall::Signal { sig } => (signalled(p, sig), None),
        PairingCall::Quote { t, up, down } => (kept_quote(p, t, up, down), None),
        PairingCall::Tick { now, up, down, end_ms } => ticked(p, now, up, down, end_ms as int),
        PairingCall::LastTick { end_ms } => last_ticked(p, end_ms as int),
    }
}

/// Where things stand after all of `calls`, and the orders they led to.
pub open spec fn pairing_run(p: Pairing, calls: Seq<PairingCall>) -> (Pairing, Seq<BotAction>)
    decreases calls.len(),
{
    if calls.len() == 0 {
        (p, Seq::empty())
    } else {
        let (before, orders) = pairing_run(p, calls.drop_last());
        let (after, order) = pairing_called(before, calls.last());
        (
            after,
            match order {
                Some(a) => orders.push(a),
                None => orders,
            },
        )
    }
}

/// The side of an entry.
pub open spec fn entry_side(a: BotAction) -> Option<PositionSide> {
    match a {
        BotAction::BuyEntry { side, .. } => Some(side),
        _ => None,
    }
}

/// Whether the order at `k` has its turn: an entry at the even positions, and at
/// the odd ones a pair for the other token than the entry before it.
pub open spec fn has_its_turn(orders: Seq<BotAction>, k: int) -> bool {
    if k % 2 == 0 {
        orders[k] is BuyEntry
    } else {
        orders[k] matches BotAction::BuyPair { side, .. } && entry_side(orders[k - 1]) == Some(
            side.opposite_spec(),
        )
    }
}

/// Whether orders are entries and pairs in turn.
pub open spec fn in_turns(orders: Seq<BotAction>) -> bool {
    forall|k: int| 0 <= k < orders.len() ==> #[trigger] has_its_turn(orders, k)
}

/// Whether a holding is what the orders have left: nothing after as many pairs
/// as entries, else the last entry.
pub open spec fn holds_what_is_left(p: Pairing, orders: Seq<BotAction>) -> bool {
    if orders.len() % 2 == 0 {
        !(p.state is Holding)
    } else {
        p.state matches State::Holding { side, .. } && entry_side(orders.last()) == Some(side)
    }
}

/// An entry is ordered with nothing held and leads to a holding, a pair ends a
/// holding of the other token, and a holding stays one in between.
proof fn a_call_takes_a_turn(p: Pairing, c: PairingCall)
    ensures
        ({
            let (after, order) = pairing_called(p, c);
            match order {
                Some(BotAction::BuyEntry { side, .. }) => {
                    &&& !(p.state is Holding)
                    &&& after.state matches State::Holding { side: s, .. } && s == side
                },
                Some(BotAction::BuyPair { side, .. }) => {
                    &&& p.state matches State::Holding { side: s, .. } && s == side.opposite_spec()
                    &&& !(after.state is Holding)
                },
                Some(BotAction::SellFlatten { .. }) => false,
                None => match p.state {
                    State::Holding { side, .. } => after.state matches State::Holding {
                        side: s,
                        ..
                    } && s == side,
                    _ => !(after.state is Holding),
                },
            }
        }),
{
}

/// Over all that happens, entries and exits alternate: the first order is an
/// entry, each entry is followed by the pair that ends it, and nothing is
/// entered before.
pub proof fn a_run_enters_and_exits_in_turns(p: Pairing, calls: Seq<PairingCall>)
    requires
        !(p.state is Holding),
    ensures
        ({
            let (after, orders) = pairing_run(p, calls);
            in_turns(orders) && holds_what_is_left(after, orders)
        }),
    decreases calls.len(),
{
    if calls.len() > 0 {
        a_run_enters_and_exits_in_turns(p, calls.drop_last());
        let (before, orders) = pairing_run(p, calls.drop_last());
        a_call_takes_a_turn(before, calls.last());
        let (after, order) = pairing_called(before, calls.last());
        a_turn_follows(before, orders, after, order);
    }
}

proof fn a_turn_follows(
    before: Pairing,
    orders: Seq<BotAction>,
    after: Pairing,
    order: Option<BotAction>,
)
    requires
        in_turns(orders),
        holds_what_is_left(before, orders),
        match order {
            Some(BotAction::BuyEntry { side, .. }) => {
                &&& !(before.state is Holding)
                &&& after.state matches State::Holding { side: s, .. } && s == side
            },
            Some(BotAction::BuyPair { side, .. }) => {
                &&& before.state matches State::Holding { side: s, .. } && s
                    == side.opposite_spec()
                &&& !(after.state is Holding)
            },
            Some(BotAction::SellFlatten { .. }) => false,
            None => match before.state {
                State::Holding { side, .. } => after.state matches State::Holding { side: s, .. }
                    && s == side,
                _ => !(after.state is Holding),
            },
        },
    ensures
        ({
            let all = match order {
                Some(a) => orders.push(a),
                None => orders,
            };
            in_turns(all) && holds_what_is_left(after, all)
        }),
{
    if let Some(a) = order {
        let n = orders.len() as int;
        let all = orders.push(a);
        assert forall|k: int| 0 <= k < all.len() implies #[trigger] has_its_turn(all, k) by {
            if k < n {
                assert(has_its_turn(orders, k));
                assert(all[k] == orders[k]);
                if k > 0 {
                    assert(all[k - 1] == orders[k - 1]);
                }
            } else if n > 0 {
                assert(all[n - 1] == orders[n - 1]);
                assert(orders.last() == orders[n - 1]);
            }
        }
        assert(all.last() == a);
        assert(all.len() == n + 1);
    }
}

} // verus!
