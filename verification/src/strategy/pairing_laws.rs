//! What a pairing engine does with signals and quotes.
use vstd::prelude::*;
use crate::units::{ask_ok, magnitude, time_ok};
use super::detector::CaptureSignal;
use super::gates::{skips_gap_time, skips_token_trend};
use super::intents::cent_price;
use super::pairing::{
    input_of, kept_quote, last_ticked, observed, pair_order, pairing_ok, quote_kept, signalled,
    stale_quotes, ticked, Pairing, State,
};
use super::sides::{PositionSide, Side};
use super::tape::{ask_head, ask_head_is_the_longest_timely_prefix, ask_known, last_valid};
use super::trades::{BotAction, Reason};

verus! {

/// A cooldown lasts until its time and no longer: a quote before it changes
/// nothing of it, the first one at or after it ends it, and neither leads to an
/// order.
pub proof fn a_cooldown_ends_at_its_time(
    p: Pairing,
    until: i64,
    now: i64,
    up: i64,
    down: i64,
    end_ms: int,
)
    requires
        p.state == (State::Cooldown { until }),
    ensures
        ticked(p, now, up, down, end_ms).1 is None,
        now >= until ==> ticked(p, now, up, down, end_ms).0.state is Idle,
        now < until ==> ticked(p, now, up, down, end_ms).0.state == p.state,
{
}

/// With nothing pending, a quote leads to nothing.
pub proof fn an_idle_engine_orders_nothing(p: Pairing, now: i64, up: i64, down: i64, end_ms: int)
    requires
        p.state is Idle,
    ensures
        ticked(p, now, up, down, end_ms).0.state is Idle,
        ticked(p, now, up, down, end_ms).1 is None,
{
}

/// After an exit nothing is entered for a second and a half, and after that the
/// engine takes the next signal.
pub proof fn an_exit_is_followed_by_a_second_and_a_half(
    p: Pairing,
    now: i64,
    up: i64,
    down: i64,
    end_ms: int,
    later: i64,
    later_up: i64,
    later_down: i64,
)
    requires
        time_ok(now as int),
        ticked(p, now, up, down, end_ms).1 is Some,
        ticked(p, now, up, down, end_ms).1->0 is BuyPair,
    ensures
        ({
            let after = ticked(p, now, up, down, end_ms).0;
            let next = ticked(after, later, later_up, later_down, end_ms).0;
            &&& next.state is Idle <==> later >= now + 1_500
            &&& later < now + 1_500 ==> next.state == after.state && next.state is Cooldown
            &&& forall|sig: CaptureSignal| #[trigger] signalled(after, sig) == after
        }),
{
}

/// A signal is taken up if and only if nothing is pending, held or cooling down,
/// it can be traded, its ask is 75 cents at most, it lags by 1.5 cents at least,
/// and neither the gap nor the token speaks against it.  It is then pending for
/// the token of its direction, for four and a quarter seconds.
pub proof fn a_good_signal_is_pending(p: Pairing, sig: CaptureSignal)
    requires
        time_ok(sig.t as int),
    ensures
        ({
            let good = p.state is Idle && sig.tradable && sig.token_ask <= 750_000_000
                && sig.book_lag >= 15_000_000 && !skips_gap_time(input_of(sig))
                && !skips_token_trend(sig.direction, p.history, sig.t as int);
            let after = signalled(p, sig);
            &&& after.history == p.history
            &&& !good ==> after == p
            &&& good ==> match after.state {
                State::PendingEntry { signal_t, side, ref_ask, deadline } => {
                    &&& signal_t == sig.t
                    &&& side == PositionSide::Up <==> sig.direction == Side::Up
                    &&& ref_ask is None
                    &&& deadline == sig.t + 4_250
                },
                _ => false,
            }
        }),
{
}

/// What a signal is judged by is what it says: its direction, gap, time left,
/// ask, expected gain and lag.
pub proof fn a_signal_is_judged_by_what_it_says(sig: CaptureSignal)
    ensures
        input_of(sig).direction == sig.direction,
        input_of(sig).gap_usd == sig.gap_usd,
        input_of(sig).seconds_left == sig.seconds_left,
        input_of(sig).token_ask == sig.token_ask,
        input_of(sig).expected_dp == sig.expected_dp,
        input_of(sig).book_lag == sig.book_lag,
{
}

/// A pending entry waits a quarter of a second for its delay, and then is bought
/// at the first quote at which the ask known before it has fallen by 4 cents from
/// where it was when the delay was over, or which comes after the deadline.
pub proof fn a_pending_entry_is_bought_on_a_pullback_or_late(
    p: Pairing,
    now: i64,
    up: i64,
    down: i64,
    end_ms: int,
    signal_t: i64,
    side: PositionSide,
    ref_ask: Option<i64>,
    deadline: i64,
)
    requires
        pairing_ok(p),
        time_ok(now as int),
        ask_ok(up as int),
        ask_ok(down as int),
        p.state == (State::PendingEntry { signal_t, side, ref_ask, deadline }),
    ensures
        ({
            let (after, order) = ticked(p, now, up, down, end_ms);
            let history = kept_quote(p, now, up, down).history;
            let from = match ref_ask {
                Some(ask) => ask as int,
                None => observed(history, signal_t + 250, side, up, down),
            };
            let obs = observed(history, now as int, side, up, down);
            let fallen = obs <= from - 40_000_000;
            let ask = if side == PositionSide::Up {
                up
            } else {
                down
            };
            &&& now < signal_t + 250 ==> order is None && after.state == p.state
            &&& now >= signal_t + 250 ==> (order is Some <==> fallen || now > deadline)
            &&& now >= signal_t + 250 && order is None ==> after.state == (State::PendingEntry {
                signal_t,
                side,
                ref_ask: Some(from as i64),
                deadline,
            })
            &&& order is Some ==> {
                &&& after.state == (State::Holding {
                    side,
                    entry_t: (now + 250) as i64,
                    entry_ask: obs as i64,
                    peak_ask: obs as i64,
                    last_obs_t: now,
                    last_obs_ask: obs as i64,
                })
                &&& order->0 == (BotAction::BuyEntry {
                    side,
                    signal_t: now,
                    worst_ask: cent_price(ask + 20_000_000) as i64,
                    reason: if fallen {
                        Reason::PullbackFill
                    } else {
                        Reason::ChaseFill
                    },
                })
            }
        }),
{
    an_observation_is_an_ask(kept_quote(p, now, up, down).history, now as int, side, up, down);
    an_observation_is_an_ask(
        kept_quote(p, now, up, down).history,
        signal_t + 250,
        side,
        up,
        down,
    );
}

proof fn an_observation_is_an_ask(
    history: Seq<(i64, i64, i64)>,
    t: int,
    side: PositionSide,
    up: i64,
    down: i64,
)
    requires
        ask_ok(up as int),
        ask_ok(down as int),
    ensures
        ask_ok(observed(history, t, side, up, down)),
{
    super::tape::known_ask_is_valid(history, t - 1, side);
}

/// A holding is left alone until 0.4 seconds after its fill.  Then it is paired
/// by the other token at the first quote at which it is dead: 90 seconds or less
/// before the close, at an ask known before the quote of 20 cents or less, if it
/// never gained 2 cents.  Until then its highest ask is remembered.
pub proof fn a_holding_is_paired_when_it_is_dead(
    p: Pairing,
    now: i64,
    up: i64,
    down: i64,
    end_ms: int,
    side: PositionSide,
    entry_t: i64,
    entry_ask: i64,
    peak_ask: i64,
    last_obs_t: i64,
    last_obs_ask: i64,
)
    requires
        pairing_ok(p),
        time_ok(now as int),
        ask_ok(up as int),
        ask_ok(down as int),
        p.state == (State::Holding {
            side,
            entry_t,
            entry_ask,
            peak_ask,
            last_obs_t,
            last_obs_ask,
        }),
    ensures
        ({
            let (after, order) = ticked(p, now, up, down, end_ms);
            let history = kept_quote(p, now, up, down).history;
            let obs = observed(history, now as int, side, up, down);
            let dead = obs < entry_ask + 20_000_000 && peak_ask < entry_ask + 20_000_000 && now
                >= end_ms - 90_000 && obs <= 200_000_000;
            &&& now < entry_t + 400 ==> order is None && after.state == p.state
            &&& now >= entry_t + 400 ==> (order is Some <==> dead)
            &&& order is Some ==> {
                &&& after.state == (State::Cooldown { until: (now + 1_500) as i64 })
                &&& order->0 matches BotAction::BuyPair { side: other, signal_t, reason, .. }
                    && other != side && signal_t == now && reason == Reason::DeadFlatten
            }
            &&& now >= entry_t + 400 && order is None ==> match after.state {
                State::Holding {
                    side: s,
                    entry_t: e,
                    entry_ask: a,
                    peak_ask: top,
                    last_obs_t: lt,
                    last_obs_ask: la,
                } => s == side && e == entry_t && a == entry_ask && top >= obs && top >= peak_ask
                    && (top == obs || top == peak_ask) && lt == now && la == obs,
                _ => false,
            }
        }),
{
    an_observation_is_an_ask(kept_quote(p, now, up, down).history, now as int, side, up, down);
}

/// At the last tick of a window a holding is paired by the other token if and
/// only if it settled in time, never gained 2 cents, was last seen before the
/// close and not above its entry.
pub proof fn an_underwater_holding_is_paired_at_the_end(
    p: Pairing,
    end_ms: int,
    side: PositionSide,
    entry_t: i64,
    entry_ask: i64,
    peak_ask: i64,
    last_obs_t: i64,
    last_obs_ask: i64,
)
    requires
        time_ok(end_ms),
        p.state == (State::Holding {
            side,
            entry_t,
            entry_ask,
            peak_ask,
            last_obs_t,
            last_obs_ask,
        }),
    ensures
        ({
            let (after, order) = last_ticked(p, end_ms);
            &&& order is Some <==> entry_t + 400 <= end_ms && peak_ask < entry_ask + 20_000_000
                && last_obs_ask <= entry_ask && last_obs_t < end_ms
            &&& order is None ==> after == p
            &&& order is Some ==> {
                &&& after.state == (State::Cooldown { until: (end_ms + 1_500) as i64 })
                &&& order->0 matches BotAction::BuyPair { side: other, signal_t, reason, .. }
                    && other != side && signal_t == end_ms && reason == Reason::LastTickFlatten
            }
        }),
{
}

/// With nothing held, the last tick leads to nothing.
pub proof fn the_end_concerns_holdings_only(p: Pairing, end_ms: int)
    requires
        !(p.state is Holding),
    ensures
        last_ticked(p, end_ms) == (p, None::<BotAction>),
{
}

/// The order that pairs a holding pays 3 cents more at most than what is left of
/// a dollar after the holding's ask, in whole cents between 1 and 99.
pub proof fn a_pair_is_paid_what_is_left_of_a_dollar(
    side: PositionSide,
    t: int,
    obs: int,
    reason: Reason,
)
    requires
        i64::MIN <= t <= i64::MAX,
    ensures
        pair_order(side, t, obs, reason) matches BotAction::BuyPair {
            side: other,
            signal_t,
            worst_ask,
            reason: r,
        } && {
            &&& other != side
            &&& signal_t == t
            &&& r == reason
            &&& worst_ask % 10_000_000 == 0
            &&& 40_000_000 <= obs <= 990_000_000 ==> magnitude(
                2 * (worst_ask - (1_030_000_000 - obs)),
            ) <= 10_000_000
            &&& obs >= 1_000_000_000 ==> worst_ask == 30_000_000
            &&& obs <= 40_000_000 ==> worst_ask == 990_000_000
        },
{
    a_limit_is_in_whole_cents(1_030_000_000 - obs);
}

/// A limit is a whole number of cents between 1 and 99, and the nearest one to
/// what is asked for.
pub proof fn a_limit_is_in_whole_cents(n: int)
    ensures
        10_000_000 <= cent_price(n) <= 990_000_000,
        cent_price(n) % 10_000_000 == 0,
        10_000_000 <= n <= 990_000_000 ==> magnitude(2 * (cent_price(n) - n)) <= 10_000_000,
        n <= 10_000_000 ==> cent_price(n) == 10_000_000,
        n >= 990_000_000 ==> cent_price(n) == 990_000_000,
{
}

/// What is known of a token before a quote is the last valid ask before its time;
/// only where there is none is the quote itself looked at.
pub proof fn the_last_ask_before_counts(
    history: Seq<(i64, i64, i64)>,
    t: int,
    side: PositionSide,
    up: i64,
    down: i64,
    k: int,
    n: int,
)
    requires
        0 <= k < n <= history.len(),
        forall|i: int| 0 <= i < n ==> (#[trigger] history[i]).0 < t,
        n < history.len() ==> history[n].0 >= t,
        side == PositionSide::Up ==> 0 < history[k].1 <= 1_500_000_000 && forall|i: int|
            k < i < n ==> !(0 < (#[trigger] history[i]).1 <= 1_500_000_000),
        side == PositionSide::Down ==> 0 < history[k].2 <= 1_500_000_000 && forall|i: int|
            k < i < n ==> !(0 < (#[trigger] history[i]).2 <= 1_500_000_000),
    ensures
        observed(history, t, side, up, down) == (if side == PositionSide::Up {
            history[k].1
        } else {
            history[k].2
        }),
{
    ask_head_is_the_longest_timely_prefix(history, t - 1, 0);
    let h = ask_head(history, t - 1, 0);
    if h < n {
        assert(history[h].0 < t);
    }
    if h > n {
        assert(history[n].0 <= t - 1);
    }
    last_valid_looks_back(history, side, k, n);
    assert(ask_known(history, t - 1, side) == last_valid(history, side, n));
}

/// The last valid ask is the one after which no other is valid.
pub proof fn last_valid_looks_back(
    history: Seq<(i64, i64, i64)>,
    side: PositionSide,
    k: int,
    n: int,
)
    requires
        0 <= k < n <= history.len(),
        side == PositionSide::Up ==> 0 < history[k].1 <= 1_500_000_000 && forall|i: int|
            k < i < n ==> !(0 < (#[trigger] history[i]).1 <= 1_500_000_000),
        side == PositionSide::Down ==> 0 < history[k].2 <= 1_500_000_000 && forall|i: int|
            k < i < n ==> !(0 < (#[trigger] history[i]).2 <= 1_500_000_000),
    ensures
        last_valid(history, side, n) == Some(
            if side == PositionSide::Up {
                history[k].1
            } else {
                history[k].2
            },
        ),
    decreases n,
{
    if k < n - 1 {
        assert(!(side == PositionSide::Up && 0 < history[n - 1].1 <= 1_500_000_000));
        assert(!(side == PositionSide::Down && 0 < history[n - 1].2 <= 1_500_000_000));
        last_valid_looks_back(history, side, k, n - 1);
    }
}

/// Quotes are kept for ten seconds: the newest one is the last, only leading
/// quotes that are older are dropped, and the first that is kept is not older.
pub proof fn quotes_are_kept_for_ten_seconds(p: Pairing, t: i64, up: i64, down: i64)
    requires
        time_ok(t as int),
    ensures
        ({
            let kept = kept_quote(p, t, up, down).history;
            let all = p.history.push((t, up, down));
            let gone = all.len() - kept.len();
            &&& 0 <= gone < all.len()
            &&& kept == all.skip(gone)
            &&& kept.last() == (t, up, down)
            &&& kept[0].0 >= t - 10_000
            &&& forall|i: int| 0 <= i < gone ==> (#[trigger] all[i]).0 < t - 10_000
        }),
        kept_quote(p, t, up, down).state == p.state,
{
    let all = p.history.push((t, up, down));
    stale_quotes_are_old(all, t - 10_000, 0);
    let n = stale_quotes(all, t - 10_000, 0);
    assert(all[all.len() - 1] == (t, up, down));
    assert(n < all.len());
    assert(kept_quote(p, t, up, down).history == quote_kept(p.history, t, up, down, 10_000));
}

/// Stale quotes are leading ones that are older than the cutoff, and the next is not.
pub proof fn stale_quotes_are_old(quotes: Seq<(i64, i64, i64)>, cutoff: int, i: int)
    requires
        0 <= i <= quotes.len(),
    ensures
        i <= stale_quotes(quotes, cutoff, i) <= quotes.len(),
        forall|k: int| i <= k < stale_quotes(quotes, cutoff, i) ==> (#[trigger] quotes[k]).0 < cutoff,
        stale_quotes(quotes, cutoff, i) < quotes.len() ==> quotes[stale_quotes(
            quotes,
            cutoff,
            i,
        )].0 >= cutoff,
    decreases quotes.len() - i,
{
    if i < quotes.len() && quotes[i].0 < cutoff {
        stale_quotes_are_old(quotes, cutoff, i + 1);
    }
}

} // verus!
