//! Detector of bitcoin impulses that start a trend.
//!
//! It follows Binance, Coinbase and their weighted mean, and signals when the
//! last second's move is large, in line at every scale, on both venues, and
//! the token leaves room for it.
use vstd::prelude::*;
use crate::units::{
    abs, ask_ok, integer_sqrt, magnitude, price_ok, time_ok, trunc_div, truncated_quotient,
    MAX_PRICE, NANO,
};
use super::gates::{
    capture_gate_ok, entry_has_room, fair_p, fair_price, gate_judged, gives, is_distribution,
    sigma_left, sigma_remaining, CaptureGateInput,
};
use super::sim::MAX_WINDOW_MS;
use super::sides::{token_of, PositionSide, Side};
use super::swings::delta_ok;
use super::tape::{
    ask_tape_ok, known_price_is_ok, price_known, price_tape_ok, px_at, quote_side, side_ask,
};

verus! {

/// Weight of Binance in the mean, in tenths.
pub const BN_W: i64 = 6;

/// Weight of Coinbase in the mean, in tenths.
pub const CB_W: i64 = 4;

/// Smallest move of the last second.
pub const MIN_R1: i64 = 2_400_000_000;

/// Time between two signals.
pub const COOLDOWN_MS: i64 = 12_000;

/// Signals of a window.
pub const MAX_CAPTURES: u32 = 3;

/// How long prices are kept.
pub const KEEP_MS: i64 = 60_050;

/// Over how long the deviation is measured.
pub const SIGMA_MS: i64 = 30_000;

/// Samples that the deviation needs.
pub const MIN_SAMPLES: usize = 8;

/// Most samples of a window.
pub const MAX_SAMPLES: usize = 1_000_000;

/// Time of a signal that has not been given.
pub const NEVER: i64 = -4_611_686_018_427_387_904;

/// A signal that a trend has started.
#[derive(Clone, Copy, Debug, PartialEq, Eq, Structural)]
pub struct CaptureSignal {
    pub t: i64,
    pub direction: Side,
    pub token_ask: i64,
    pub gap_usd: i64,
    pub seconds_left: i64,
    pub book_lag: i64,
    pub expected_dp: i64,
    pub tradable: bool,
}

/// State of the detector.
pub struct Trend {
    pub bn: Seq<(i64, i64)>,
    pub cb: Seq<(i64, i64)>,
    pub norm: Seq<(i64, i64)>,
    pub poly: Seq<(i64, i64, i64)>,
    pub strike: Option<i64>,
    pub open_ms: i64,
    pub end_ms: i64,
    pub trend: Option<Side>,
    pub last_fire_ms: i64,
    pub start_count: u32,
    pub last_quality_ms: i64,
    pub prev_vel: Option<(i64, i64)>,
    pub samples: Seq<(i64, i64)>,
}

/// How many leading points are older than `cutoff`, from `i` on.
pub open spec fn stale(points: Seq<(i64, i64)>, cutoff: int, i: int) -> int
    decreases points.len() - i,
{
    if 0 <= i < points.len() && points[i].0 < cutoff {
        stale(points, cutoff, i + 1)
    } else {
        i
    }
}

/// The prices after another one: what is older than a minute is dropped.
pub open spec fn followed(points: Seq<(i64, i64)>, t: int, price: i64) -> Seq<(i64, i64)> {
    let all = points.push((t as i64, price));
    all.skip(stale(all, t - KEEP_MS, 0))
}

/// The last price.
pub open spec fn last_price(points: Seq<(i64, i64)>) -> Option<i64> {
    if points.len() == 0 {
        None
    } else {
        Some(points.last().1)
    }
}

/// The move over the last `h` milliseconds.
pub open spec fn move_over(points: Seq<(i64, i64)>, now: int, h: int) -> int {
    match (last_price(points), price_known(points, now - h)) {
        (Some(c), Some(p)) => c - p,
        _ => 0,
    }
}

/// The sign of a move that exceeds `eps`.
pub open spec fn sign(x: int, eps: int) -> int {
    if x > eps {
        1
    } else if x < -eps {
        -1
    } else {
        0
    }
}

/// The mean of the venues' last prices: six parts Binance, four parts
/// Coinbase, or the one that there is.
pub open spec fn mean_price(bn: Seq<(i64, i64)>, cb: Seq<(i64, i64)>) -> Option<int> {
    match (last_price(bn), last_price(cb)) {
        (Some(b), Some(c)) => Some(truncated_quotient(BN_W * b + CB_W * c, 10)),
        (Some(b), None) => Some(b as int),
        (None, Some(c)) => Some(c as int),
        (None, None) => None,
    }
}

/// The state after the mean has followed the venues; the first mean after the
/// open is the strike if there is none.
pub open spec fn mean_followed(s: Trend, t: int) -> Trend {
    match mean_price(s.bn, s.cb) {
        None => s,
        Some(px) => Trend {
            norm: followed(s.norm, t, px as i64),
            strike: if s.strike is None && t >= s.open_ms {
                Some(px as i64)
            } else {
                s.strike
            },
            ..s
        },
    }
}

/// The samples among the first `n` that are recent, in millionths of a dollar.
pub open spec fn recent(samples: Seq<(i64, i64)>, now: int, n: int) -> Seq<int>
    decreases n,
{
    if n <= 0 {
        Seq::empty()
    } else {
        let rest = recent(samples, now, n - 1);
        if now - samples[n - 1].0 <= SIGMA_MS {
            rest.push(truncated_quotient(samples[n - 1].1 as int, 1_000))
        } else {
            rest
        }
    }
}

/// The sum of numbers.
pub open spec fn sum_of(xs: Seq<int>) -> int
    decreases xs.len(),
{
    if xs.len() == 0 {
        0
    } else {
        sum_of(xs.drop_last()) + xs.last()
    }
}

/// The sum of the squared distances of numbers from `mu`.
pub open spec fn spread_of(xs: Seq<int>, mu: int) -> int
    decreases xs.len(),
{
    if xs.len() == 0 {
        0
    } else {
        spread_of(xs.drop_last(), mu) + (xs.last() - mu) * (xs.last() - mu)
    }
}

/// Whether `root` is the whole part of a square root.
pub open spec fn is_root(root: int, x: int) -> bool {
    root >= 0 && root * root <= x < (root + 1) * (root + 1)
}

/// The whole part of a square root.
pub open spec fn root_of(x: int) -> int {
    choose|root: int| is_root(root, x)
}

/// The deviation of the one-second moves of the last thirty seconds, to a
/// millionth of a dollar: eight dollars until there are enough of them, three
/// at least.
pub open spec fn deviation(samples: Seq<(i64, i64)>, now: int) -> int {
    let xs = recent(samples, now, samples.len() as int);
    if xs.len() < MIN_SAMPLES {
        8_000_000_000
    } else {
        let n = xs.len() as int;
        let mu = truncated_quotient(sum_of(xs), n);
        let sigma = root_of(spread_of(xs, mu) / n) * 1_000;
        if sigma >= 3_000_000_000 {
            sigma
        } else {
            3_000_000_000
        }
    }
}

/// Whether the move has not slowed too much: its change since the last tick,
/// in its own direction, is not below minus one and a half dollars a second.
pub open spec fn keeps_pace(prev: Option<(i64, i64)>, t: int, vel: int, s: int) -> bool {
    match prev {
        Some((pt, pv)) => if t - pt > 40 {
            s * (vel - pv) * 1_000 + 1_500_000_000 * (t - pt) >= 0
        } else {
            true
        },
        None => true,
    }
}

/// Whether the last second's move is an impulse of the sign `s`: in line over
/// a quarter and half a second, at least half of it recent, on both venues, no
/// bounce, large enough and keeping pace.
pub open spec fn is_impulse(s: Trend, t: int, sgn: int, sigma: int) -> bool {
    let r250 = move_over(s.norm, t, 250);
    let r500 = move_over(s.norm, t, 500);
    let r1 = move_over(s.norm, t, 1_000);
    let r2 = move_over(s.norm, t, 2_000);
    &&& sgn != 0
    &&& sign(r250, 150_000_000) == sgn
    &&& sign(r500, 200_000_000) == sgn
    &&& 2 * magnitude(r250) >= magnitude(r1)
    &&& sign(move_over(s.bn, t, 1_000), 500_000_000) == sgn
    &&& sign(move_over(s.cb, t, 1_000), 500_000_000) == sgn
    &&& !(sign(r2, 400_000_000) != 0 && sign(r2, 400_000_000) != sgn && 100 * magnitude(r2) > 85
        * magnitude(r1))
    &&& magnitude(r1) >= MIN_R1
    &&& 2 * magnitude(r1) >= 3 * sigma
    &&& keeps_pace(s.prev_vel, t, r1, sgn)
}

/// The time that is left, a second at least.
pub open spec fn left_of(end_ms: int, t: int) -> int {
    if (end_ms - t) * 1_000_000 >= NANO {
        (end_ms - t) * 1_000_000
    } else {
        NANO as int
    }
}

/// How many leading quotes are not later than `t`, from `i` on.
pub open spec fn quotes_until(poly: Seq<(i64, i64, i64)>, t: int, i: int) -> int
    decreases poly.len() - i,
{
    if 0 <= i < poly.len() && poly[i].0 <= t {
        quotes_until(poly, t, i + 1)
    } else {
        i
    }
}

/// The ask that a direction's token is quoted at, nothing while it is not.
pub open spec fn quoted_ask(poly: Seq<(i64, i64, i64)>, t: int, direction: Side) -> int {
    let n = quotes_until(poly, t, 0);
    if n <= 0 {
        0
    } else {
        quote_side(poly[n - 1], token_of(direction)) as int
    }
}

/// The signal that an impulse gives if it is worth taking, with `m` the
/// normal distribution function.
pub open spec fn signal_of(
    s: Trend,
    t: int,
    direction: Side,
    r1: int,
    m: spec_fn(i64) -> i64,
) -> Option<CaptureSignal> {
    let n = last_price(s.norm)->0;
    let seconds_left = left_of(s.end_ms as int, t);
    let gap = match s.strike {
        Some(strike) => n - strike,
        None => 0,
    };
    let sigma = sigma_left(seconds_left);
    let ask = quoted_ask(s.poly, t, direction);
    let lag = fair_price(direction, gap, sigma, m) - ask;
    if ask > 0 && gate_judged(direction, gap, r1, seconds_left, sigma, ask, m).ok {
        Some(
            CaptureSignal {
                t: t as i64,
                direction,
                token_ask: ask as i64,
                gap_usd: gap as i64,
                seconds_left: seconds_left as i64,
                book_lag: lag as i64,
                expected_dp: (lag + magnitude(r1) / 100) as i64,
                tradable: true,
            },
        )
    } else {
        None
    }
}

/// Whether a direction may be signalled: it is not the running trend, the last
/// signal is long enough ago, and there are signals left.
pub open spec fn may_signal(s: Trend, t: int, direction: Side) -> bool {
    s.trend != Some(direction) && t - s.last_fire_ms >= COOLDOWN_MS && s.start_count < MAX_CAPTURES
}

/// Whether prices have moved by more than `by` in a direction over the last `h`
/// milliseconds: the last of them against the one known that long before.
pub open spec fn has_moved(
    points: Seq<(i64, i64)>,
    now: int,
    h: int,
    by: int,
    direction: Side,
) -> bool {
    &&& points.len() > 0
    &&& price_known(points, now - h) is Some
    &&& match direction {
        Side::Up => points.last().1 - price_known(points, now - h)->0 > by,
        Side::Down => price_known(points, now - h)->0 - points.last().1 > by,
    }
}

/// Whether an impulse shows: over the last second on both venues by more than
/// half a dollar and in their mean by 2.40 dollars, and over the last half and
/// quarter of a second in their mean by more than 20 and 15 cents.
pub open spec fn impulse_shows(s: Trend, now: int, direction: Side) -> bool {
    &&& has_moved(s.bn, now, 1_000, 500_000_000, direction)
    &&& has_moved(s.cb, now, 1_000, 500_000_000, direction)
    &&& has_moved(s.norm, now, 1_000, 2_399_999_999, direction)
    &&& has_moved(s.norm, now, 500, 200_000_000, direction)
    &&& has_moved(s.norm, now, 250, 150_000_000, direction)
}

/// Whether a price moves what is remembered of the signals as it may: a signal
/// comes while the window runs and may be given, can be traded, turns the trend
/// and is counted; nothing but a signal changes any of this.
pub open spec fn turns(s: Trend, t: int, after: Trend, sig: Option<CaptureSignal>) -> bool {
    &&& after.open_ms == s.open_ms
    &&& after.end_ms == s.end_ms
    &&& match sig {
        Some(c) => {
            &&& c.t == t
            &&& s.open_ms <= t < s.end_ms
            &&& c.tradable
            &&& entry_has_room(c.seconds_left as int, c.token_ask as int)
            &&& may_signal(s, t, c.direction)
            &&& after.trend == Some(c.direction)
            &&& after.last_fire_ms == t
            &&& after.start_count == s.start_count + 1
        },
        None => {
            &&& after.trend == s.trend
            &&& after.last_fire_ms == s.last_fire_ms
            &&& after.start_count == s.start_count
        },
    }
}

/// The state after a tick has been measured.
pub open spec fn measured(s: Trend, t: int) -> Trend {
    let r1 = move_over(s.norm, t, 1_000) as i64;
    Trend { samples: s.samples.push((t as i64, r1)), prev_vel: Some((t as i64, r1)), ..s }
}

/// The direction of an impulse at a tick, if there is one, given the deviation
/// of the moves.
pub open spec fn impulse_of(s: Trend, t: int, sigma: int) -> Option<Side> {
    let sgn = sign(move_over(s.norm, t, 1_000), 400_000_000);
    if is_impulse(s, t, sgn, sigma) {
        Some(
            if sgn > 0 {
                Side::Up
            } else {
                Side::Down
            },
        )
    } else {
        None
    }
}

/// The direction of an impulse at a tick, if there is one.
pub open spec fn impulse_at(s: Trend, t: int) -> Option<Side> {
    impulse_of(s, t, deviation(measured(s, t).samples, t))
}

/// The state and the signal after a tick, with `m` the normal distribution
/// function.
pub open spec fn stepped(s: Trend, t: int, m: spec_fn(i64) -> i64) -> (
    Trend,
    Option<CaptureSignal>,
) {
    if t < s.open_ms || t >= s.end_ms || s.norm.len() == 0 {
        (s, None)
    } else {
        let r1 = move_over(s.norm, t, 1_000);
        match impulse_at(s, t) {
            None => (measured(s, t), None),
            Some(direction) => {
                let seen = Trend { last_quality_ms: t as i64, ..measured(s, t) };
                if !may_signal(s, t, direction) {
                    (seen, None)
                } else {
                    match signal_of(s, t, direction, r1, m) {
                        None => (seen, None),
                        Some(sig) => (
                            Trend {
                                trend: Some(direction),
                                last_fire_ms: t as i64,
                                start_count: (s.start_count + 1) as u32,
                                ..seen
                            },
                            Some(sig),
                        ),
                    }
                }
            },
        }
    }
}

/// The state and the signal after a Binance price.
pub open spec fn after_bn(s: Trend, t: int, price: i64, m: spec_fn(i64) -> i64) -> (
    Trend,
    Option<CaptureSignal>,
) {
    stepped(mean_followed(Trend { bn: followed(s.bn, t, price), ..s }, t), t, m)
}

/// The state and the signal after a Coinbase price.
pub open spec fn after_cb(s: Trend, t: int, price: i64, m: spec_fn(i64) -> i64) -> (
    Trend,
    Option<CaptureSignal>,
) {
    stepped(mean_followed(Trend { cb: followed(s.cb, t, price), ..s }, t), t, m)
}

/// A window in which nothing has happened.
pub open spec fn no_trend(open_ms: i64, end_ms: i64, ptb: Option<i64>) -> Trend {
    Trend {
        bn: Seq::empty(),
        cb: Seq::empty(),
        norm: Seq::empty(),
        poly: Seq::empty(),
        strike: ptb,
        open_ms,
        end_ms,
        trend: None,
        last_fire_ms: NEVER,
        start_count: 0,
        last_quality_ms: 0,
        prev_vel: None,
        samples: Seq::empty(),
    }
}

/// The next window: the prices stay.
pub open spec fn next_trend(s: Trend, open_ms: i64, end_ms: i64, ptb: Option<i64>) -> Trend {
    Trend { bn: s.bn, cb: s.cb, norm: s.norm, ..no_trend(open_ms, end_ms, ptb) }
}

/// Whether samples are in range.
pub open spec fn samples_ok(samples: Seq<(i64, i64)>) -> bool {
    forall|i: int|
        0 <= i < samples.len() ==> delta_ok((#[trigger] samples[i]).1 as int) && time_ok(
            samples[i].0 as int,
        )
}

/// Whether the state is valid.
pub open spec fn trend_ok(s: Trend) -> bool {
    &&& price_tape_ok(s.bn)
    &&& price_tape_ok(s.cb)
    &&& price_tape_ok(s.norm)
    &&& ask_tape_ok(s.poly)
    &&& s.strike matches Some(strike) ==> price_ok(strike as int)
    &&& time_ok(s.open_ms as int)
    &&& time_ok(s.end_ms as int)
    &&& s.end_ms - s.open_ms <= MAX_WINDOW_MS
    &&& s.last_fire_ms == NEVER || time_ok(s.last_fire_ms as int)
    &&& s.start_count <= MAX_CAPTURES
    &&& s.prev_vel matches Some((pt, pv)) ==> time_ok(pt as int) && delta_ok(pv as int)
    &&& samples_ok(s.samples)
    &&& s.samples.len() <= MAX_SAMPLES
}

/// Whether numbers are at most `limit` in magnitude.
pub open spec fn within(xs: Seq<int>, limit: int) -> bool {
    forall|i: int| 0 <= i < xs.len() ==> magnitude(#[trigger] xs[i]) <= limit
}

/// Follows a price: what is older than a minute is dropped.
fn follow(points: &mut Vec<(i64, i64)>, t: i64, price: i64)
    requires
        price_tape_ok(old(points)@),
        time_ok(t as int),
        price_ok(price as int),
    ensures
        final(points)@ == followed(old(points)@, t as int, price),
        price_tape_ok(final(points)@),
{
    points.push((t, price));
    let ghost all = points@;
    let cutoff: i64 = t - KEEP_MS;
    let mut n: usize = 0;
    while n < points.len() && points[n].0 < cutoff
        invariant
            n <= points.len(),
            points@ == all,
            stale(all, cutoff as int, 0) == stale(all, cutoff as int, n as int),
        decreases points.len() - n,
    {
        n = n + 1;
    }
    let mut rest: Vec<(i64, i64)> = Vec::new();
    let mut i: usize = n;
    while i < points.len()
        invariant
            n <= i <= points.len(),
            points@ == all,
            price_tape_ok(all),
            price_tape_ok(rest@),
            rest@ == all.subrange(n as int, i as int),
        decreases points.len() - i,
    {
        proof {
            assert(price_ok(all[i as int].1 as int));
            assert(all.subrange(n as int, i + 1) =~= all.subrange(n as int, i as int).push(
                all[i as int],
            ));
        }
        rest.push(points[i]);
        i = i + 1;
    }
    proof {
        assert(rest@ =~= all.skip(n as int));
    }
    *points = rest;
}

/// The last price.
fn last_of(points: &Vec<(i64, i64)>) -> (r: Option<i64>)
    ensures
        r == last_price(points@),
{
    if points.len() == 0 {
        None
    } else {
        Some(points[points.len() - 1].1)
    }
}

/// The move over the last `h` milliseconds.
fn usd_return(points: &Vec<(i64, i64)>, now: i64, h: i64) -> (r: i64)
    requires
        price_tape_ok(points@),
        time_ok(now as int),
        0 <= h <= 10_000,
    ensures
        r == move_over(points@, now as int, h as int),
        delta_ok(r as int),
{
    proof {
        known_price_is_ok(points@, now - h);
        if points@.len() > 0 {
            assert(price_ok(points@[points@.len() - 1].1 as int));
        }
    }
    match (last_of(points), px_at(points, now - h)) {
        (Some(c), Some(p)) => c - p,
        _ => 0,
    }
}

/// The sign of a move that exceeds `eps`.
fn sign_of(x: i64, eps: i64) -> (r: i64)
    requires
        0 <= eps <= 1_000_000_000,
    ensures
        r == sign(x as int, eps as int),
{
    if x > eps {
        1
    } else if x < -eps {
        -1
    } else {
        0
    }
}

proof fn root_is_unique(a: int, b: int, x: int)
    requires
        is_root(a, x),
        is_root(b, x),
    ensures
        a == b,
{
    if a < b {
        assert((a + 1) * (a + 1) <= b * b) by (nonlinear_arith)
            requires
                0 <= a < b,
        ;
    }
    if b < a {
        assert((b + 1) * (b + 1) <= a * a) by (nonlinear_arith)
            requires
                0 <= b < a,
        ;
    }
}

/// The samples that are recent, in millionths of a dollar.
fn recent_samples(samples: &Vec<(i64, i64)>, now: i64) -> (r: Vec<i64>)
    requires
        samples_ok(samples@),
        time_ok(now as int),
    ensures
        r@.map_values(|x: i64| x as int) == recent(samples@, now as int, samples.len() as int),
        r.len() <= samples.len(),
        forall|i: int| 0 <= i < r.len() ==> magnitude(#[trigger] r[i] as int) <= 2 * (MAX_PRICE / 1_000),
{
    let mut r: Vec<i64> = Vec::new();
    let mut n: usize = 0;
    proof {
        assert(r@.map_values(|x: i64| x as int) =~= Seq::<int>::empty());
    }
    while n < samples.len()
        invariant
            n <= samples.len(),
            samples_ok(samples@),
            time_ok(now as int),
            r.len() <= n,
            r@.map_values(|x: i64| x as int) == recent(samples@, now as int, n as int),
            forall|i: int|
                0 <= i < r.len() ==> magnitude(#[trigger] r[i] as int) <= 2 * (MAX_PRICE / 1_000),
        decreases samples.len() - n,
    {
        let p: (i64, i64) = samples[n];
        proof {
            assert(delta_ok(samples@[n as int].1 as int));
        }
        if now - p.0 <= SIGMA_MS {
            let x: i64 = trunc_div(p.1 as i128, 1_000) as i64;
            proof {
                assert(r@.push(x).map_values(|x: i64| x as int) =~= r@.map_values(
                    |x: i64| x as int,
                ).push(x as int));
            }
            r.push(x);
        }
        n = n + 1;
    }
    r
}

/// The sum of the squared distances of numbers from `mu`.
fn spread(xs: &Vec<i64>, mu: i64) -> (r: i128)
    requires
        xs.len() <= MAX_SAMPLES + 1,
        magnitude(mu as int) <= 2_000_000_000_000_000,
        forall|i: int| 0 <= i < xs.len() ==> magnitude(#[trigger] xs[i] as int) <= 2_000_000_000_000_000,
    ensures
        r == spread_of(xs@.map_values(|x: i64| x as int), mu as int),
        0 <= r <= xs.len() * 16_000_000_000_000_000_000_000_000_000_000,
{
    let ghost all = xs@.map_values(|x: i64| x as int);
    let mut sum: i128 = 0;
    let mut i: usize = 0;
    while i < xs.len()
        invariant
            i <= xs.len() <= MAX_SAMPLES + 1,
            all == xs@.map_values(|x: i64| x as int),
            magnitude(mu as int) <= 2_000_000_000_000_000,
            forall|i: int|
                0 <= i < xs.len() ==> magnitude(#[trigger] xs[i] as int) <= 2_000_000_000_000_000,
            sum == spread_of(all.take(i as int), mu as int),
            0 <= sum <= i * 16_000_000_000_000_000_000_000_000_000_000,
        decreases xs.len() - i,
    {
        proof {
            assert(all.take(i + 1).drop_last() =~= all.take(i as int));
            assert(magnitude(xs[i as int] as int) <= 2_000_000_000_000_000);
        }
        let d: i128 = xs[i] as i128 - mu as i128;
        proof {
            assert(0 <= d * d <= 4_000_000_000_000_000 * 4_000_000_000_000_000) by (nonlinear_arith)
                requires
                    -4_000_000_000_000_000 <= d <= 4_000_000_000_000_000,
            ;
        }
        sum = sum + d * d;
        i = i + 1;
    }
    proof {
        assert(all.take(i as int) =~= all);
    }
    sum
}

/// The sum of numbers.
fn total(xs: &Vec<i64>) -> (r: i128)
    requires
        xs.len() <= MAX_SAMPLES + 1,
        forall|i: int| 0 <= i < xs.len() ==> magnitude(#[trigger] xs[i] as int) <= 2_000_000_000_000_000,
    ensures
        r == sum_of(xs@.map_values(|x: i64| x as int)),
        magnitude(r as int) <= xs.len() * 2_000_000_000_000_000,
{
    let ghost all = xs@.map_values(|x: i64| x as int);
    let mut sum: i128 = 0;
    let mut i: usize = 0;
    while i < xs.len()
        invariant
            i <= xs.len() <= MAX_SAMPLES + 1,
            all == xs@.map_values(|x: i64| x as int),
            forall|i: int|
                0 <= i < xs.len() ==> magnitude(#[trigger] xs[i] as int) <= 2_000_000_000_000_000,
            sum == sum_of(all.take(i as int)),
            magnitude(sum as int) <= i * 2_000_000_000_000_000,
        decreases xs.len() - i,
    {
        proof {
            assert(all.take(i + 1).drop_last() =~= all.take(i as int));
            assert(magnitude(xs[i as int] as int) <= 2_000_000_000_000_000);
        }
        sum = sum + xs[i] as i128;
        i = i + 1;
    }
    proof {
        assert(all.take(i as int) =~= all);
    }
    sum
}

/// The deviation of the one-second moves of the last thirty seconds.
fn realized_sigma(samples: &Vec<(i64, i64)>, now: i64) -> (r: i64)
    requires
        samples_ok(samples@),
        samples.len() <= MAX_SAMPLES + 1,
        time_ok(now as int),
    ensures
        r == deviation(samples@, now as int),
        3_000_000_000 <= r <= 5_000_000_000_000_000_000,
{
    let xs: Vec<i64> = recent_samples(samples, now);
    let ghost all = xs@.map_values(|x: i64| x as int);
    if xs.len() < MIN_SAMPLES {
        return 8_000_000_000;
    }
    let n: i128 = xs.len() as i128;
    let sum: i128 = total(&xs);
    proof {
        let s = magnitude(sum as int);
        let q = s / (n as int);
        assert(0 <= q <= 2_000_000_000_000_000) by (nonlinear_arith)
            requires
                0 <= s <= n * 2_000_000_000_000_000,
                n > 0,
                q == s / (n as int),
        ;
    }
    let mu: i64 = trunc_div(sum, n) as i64;
    let total: i128 = spread(&xs, mu);
    proof {
        let q = (total as int) / (n as int);
        assert(0 <= q <= 16_000_000_000_000_000_000_000_000_000_000) by (nonlinear_arith)
            requires
                0 <= total <= n * 16_000_000_000_000_000_000_000_000_000_000,
                n > 0,
                q == (total as int) / (n as int),
        ;
    }
    let var: u128 = (total / n) as u128;
    let root: u64 = integer_sqrt(var);
    proof {
        assert(root <= 4_000_000_000_000_000) by (nonlinear_arith)
            requires
                root * root <= var,
                var <= 16_000_000_000_000_000_000_000_000_000_000,
        ;
        assert(is_root(root as int, var as int));
        root_is_unique(root as int, root_of(var as int), var as int);
    }
    let sigma: i64 = (root * 1_000) as i64;
    if sigma >= 3_000_000_000 {
        sigma
    } else {
        3_000_000_000
    }
}

/// Whether the move has not slowed too much.
fn pace_kept(prev: Option<(i64, i64)>, t: i64, vel: i64, sgn: i64) -> (r: bool)
    requires
        time_ok(t as int),
        delta_ok(vel as int),
        prev matches Some((pt, pv)) ==> time_ok(pt as int) && delta_ok(pv as int),
        -1 <= sgn <= 1,
    ensures
        r == keeps_pace(prev, t as int, vel as int, sgn as int),
{
    match prev {
        Some(p) => if t - p.0 > 40 {
            let change: i128 = vel as i128 - p.1 as i128;
            proof {
                assert(magnitude(sgn * change) <= 4_000_000_000_000_000_000) by (nonlinear_arith)
                    requires
                        magnitude(change as int) <= 4_000_000_000_000_000_000,
                        -1 <= sgn <= 1,
                ;
            }
            sgn as i128 * change * 1_000 + 1_500_000_000 * (t - p.0) as i128 >= 0
        } else {
            true
        },
        None => true,
    }
}

/// The ask that a direction's token is quoted at.
fn ask_quoted(poly: &Vec<(i64, i64, i64)>, t: i64, direction: Side) -> (r: i64)
    requires
        ask_tape_ok(poly@),
    ensures
        r == quoted_ask(poly@, t as int, direction),
        ask_ok(r as int),
{
    let mut n: usize = 0;
    while n < poly.len() && poly[n].0 <= t
        invariant
            n <= poly.len(),
            quotes_until(poly@, t as int, 0) == quotes_until(poly@, t as int, n as int),
        decreases poly.len() - n,
    {
        n = n + 1;
    }
    if n == 0 {
        0
    } else {
        proof {
            assert(ask_ok(poly@[n - 1].1 as int));
        }
        side_ask(PositionSide::from(direction), poly[n - 1].1, poly[n - 1].2)
    }
}

/// Detector of bitcoin impulses that start a trend.
pub struct TrendDetector {
    bn: Vec<(i64, i64)>,
    cb: Vec<(i64, i64)>,
    norm: Vec<(i64, i64)>,
    poly: Vec<(i64, i64, i64)>,
    strike: Option<i64>,
    open_ms: i64,
    end_ms: i64,
    trend: Option<Side>,
    last_fire_ms: i64,
    start_count: u32,
    last_quality_ms: i64,
    prev_vel: Option<(i64, i64)>,
    r1_samples: Vec<(i64, i64)>,
}

impl View for TrendDetector {
    type V = Trend;

    closed spec fn view(&self) -> Trend {
        Trend {
            bn: self.bn@,
            cb: self.cb@,
            norm: self.norm@,
            poly: self.poly@,
            strike: self.strike,
            open_ms: self.open_ms,
            end_ms: self.end_ms,
            trend: self.trend,
            last_fire_ms: self.last_fire_ms,
            start_count: self.start_count,
            last_quality_ms: self.last_quality_ms,
            prev_vel: self.prev_vel,
            samples: self.r1_samples@,
        }
    }
}

impl TrendDetector {
    /// A detector that has seen nothing.
    pub fn new(open_ms: i64, end_ms: i64, ptb: Option<i64>) -> (r: TrendDetector)
        requires
            time_ok(open_ms as int),
            time_ok(end_ms as int),
            end_ms - open_ms <= MAX_WINDOW_MS,
            ptb matches Some(strike) ==> price_ok(strike as int),
        ensures
            r@ == no_trend(open_ms, end_ms, ptb),
            trend_ok(r@),
    {
        let r: TrendDetector = TrendDetector {
            bn: Vec::new(),
            cb: Vec::new(),
            norm: Vec::new(),
            poly: Vec::new(),
            strike: ptb,
            open_ms,
            end_ms,
            trend: None,
            last_fire_ms: NEVER,
            start_count: 0,
            last_quality_ms: 0,
            prev_vel: None,
            r1_samples: Vec::new(),
        };
        proof {
            assert(r@.bn =~= Seq::<(i64, i64)>::empty());
            assert(r@.cb =~= Seq::<(i64, i64)>::empty());
            assert(r@.norm =~= Seq::<(i64, i64)>::empty());
            assert(r@.poly =~= Seq::<(i64, i64, i64)>::empty());
            assert(r@.samples =~= Seq::<(i64, i64)>::empty());
        }
        r
    }

    /// Goes on to another window; the prices stay.
    pub fn reset_window(&mut self, open_ms: i64, end_ms: i64, ptb: Option<i64>)
        requires
            trend_ok(old(self)@),
            time_ok(open_ms as int),
            time_ok(end_ms as int),
            end_ms - open_ms <= MAX_WINDOW_MS,
            ptb matches Some(strike) ==> price_ok(strike as int),
        ensures
            final(self)@ == next_trend(old(self)@, open_ms, end_ms, ptb),
            trend_ok(final(self)@),
    {
        self.open_ms = open_ms;
        self.end_ms = end_ms;
        self.strike = ptb;
        self.trend = None;
        self.last_fire_ms = NEVER;
        self.start_count = 0;
        self.last_quality_ms = 0;
        self.prev_vel = None;
        self.r1_samples = Vec::new();
        self.poly = Vec::new();
        proof {
            assert(self@.poly =~= Seq::<(i64, i64, i64)>::empty());
            assert(self@.samples =~= Seq::<(i64, i64)>::empty());
        }
    }

    /// The strike.
    pub fn strike(&self) -> (r: Option<i64>)
        ensures
            r == self@.strike,
    {
        self.strike
    }

    /// Number of ticks that have been measured in the window.
    pub fn sample_count(&self) -> (r: usize)
        ensures
            r == self@.samples.len(),
    {
        self.r1_samples.len()
    }

    /// Takes a quote.
    pub fn push_poly(&mut self, t: i64, up: i64, down: i64)
        requires
            trend_ok(old(self)@),
            time_ok(t as int),
            ask_ok(up as int),
            ask_ok(down as int),
        ensures
            final(self)@ == (if up > 0 {
                Trend { poly: old(self)@.poly.push((t, up, down)), ..old(self)@ }
            } else {
                old(self)@
            }),
            trend_ok(final(self)@),
    {
        if up > 0 {
            self.poly.push((t, up, down));
        }
    }

    /// Lets the mean follow the venues.
    fn push_norm(&mut self, t: i64)
        requires
            trend_ok(old(self)@),
            time_ok(t as int),
        ensures
            final(self)@ == mean_followed(old(self)@, t as int),
            trend_ok(final(self)@),
    {
        proof {
            if self.bn@.len() > 0 {
                assert(price_ok(self.bn@[self.bn@.len() - 1].1 as int));
            }
            if self.cb@.len() > 0 {
                assert(price_ok(self.cb@[self.cb@.len() - 1].1 as int));
            }
        }
        let px: i64 = match (last_of(&self.bn), last_of(&self.cb)) {
            (Some(b), Some(c)) => trunc_div(6 * b as i128 + 4 * c as i128, 10) as i64,
            (Some(b), None) => b,
            (None, Some(c)) => c,
            (None, None) => return,
        };
        follow(&mut self.norm, t, px);
        if self.strike.is_none() && t >= self.open_ms {
            self.strike = Some(px);
        }
    }

    /// The direction of an impulse at a tick, if there is one.
    fn impulse(&self, t: i64, r1: i64, sigma: i64) -> (r: Option<Side>)
        requires
            trend_ok(self@),
            time_ok(t as int),
            r1 == move_over(self@.norm, t as int, 1_000),
            delta_ok(r1 as int),
            3_000_000_000 <= sigma <= 5_000_000_000_000_000_000,
        ensures
            r == impulse_of(self@, t as int, sigma as int),
    {
        let s: i64 = sign_of(r1, 400_000_000);
        if s == 0 {
            return None;
        }
        let r250: i64 = usd_return(&self.norm, t, 250);
        let r500: i64 = usd_return(&self.norm, t, 500);
        if sign_of(r250, 150_000_000) != s || sign_of(r500, 200_000_000) != s || 2 * (
        abs(r250) as i128) < abs(r1) as i128 {
            return None;
        }
        let bn1: i64 = usd_return(&self.bn, t, 1_000);
        let cb1: i64 = usd_return(&self.cb, t, 1_000);
        if sign_of(bn1, 500_000_000) != s || sign_of(cb1, 500_000_000) != s {
            return None;
        }
        let r2: i64 = usd_return(&self.norm, t, 2_000);
        let s2: i64 = sign_of(r2, 400_000_000);
        if s2 != 0 && s2 != s && 100 * (abs(r2) as i128) > 85 * (abs(r1) as i128) {
            return None;
        }
        if abs(r1) < MIN_R1 || 2 * (abs(r1) as i128) < 3 * (sigma as i128) {
            return None;
        }
        if !pace_kept(self.prev_vel, t, r1, s) {
            return None;
        }
        Some(
            if s > 0 {
                Side::Up
            } else {
                Side::Down
            },
        )
    }

    /// The signal that an impulse gives, if it is worth taking.
    fn signal<F: Fn(i64) -> i64>(&self, t: i64, direction: Side, r1: i64, cdf: &F) -> (r: Option<
        CaptureSignal,
    >)
        requires
            trend_ok(self@),
            time_ok(t as int),
            delta_ok(r1 as int),
            self@.open_ms <= t < self@.end_ms,
            self@.norm.len() > 0,
            is_distribution(*cdf),
        ensures
            forall|m: spec_fn(i64) -> i64| #[trigger]
                gives(*cdf, m) ==> r == signal_of(self@, t as int, direction, r1 as int, m),
            r matches Some(c) ==> c.t == t && delta_ok(c.gap_usd as int),
            r matches Some(c) ==> c.direction == direction && c.tradable,
            r matches Some(c) ==> entry_has_room(c.seconds_left as int, c.token_ask as int),
    {
        let ghost n = self.norm@.len();
        proof {
            assert(price_ok(self.norm@[n - 1].1 as int));
        }
        let left: i64 = (self.end_ms - t) * 1_000_000;
        let seconds_left: i64 = if left >= 1_000_000_000 {
            left
        } else {
            1_000_000_000
        };
        let last: i64 = self.norm[self.norm.len() - 1].1;
        let gap_usd: i64 = match self.strike {
            Some(strike) => last - strike,
            None => 0,
        };
        let sigma_rem: i64 = sigma_remaining(seconds_left);
        let token_ask: i64 = ask_quoted(&self.poly, t, direction);
        let fair: i64 = fair_p(direction, gap_usd, sigma_rem, cdf);
        let book_lag: i64 = fair - token_ask;
        let expected_dp: i64 = book_lag + abs(r1) / 100;
        if token_ask <= 0 {
            return None;
        }
        let input: CaptureGateInput = CaptureGateInput {
            direction,
            gap_usd,
            seconds_left,
            sigma_rem,
            token_ask,
            impulse_usd: r1,
            expected_dp,
            book_lag,
        };
        if !capture_gate_ok(&input, cdf) {
            return None;
        }
        Some(
            CaptureSignal {
                t,
                direction,
                token_ask,
                gap_usd,
                seconds_left,
                book_lag,
                expected_dp,
                tradable: true,
            },
        )
    }

    /// Judges a tick.
    fn step<F: Fn(i64) -> i64>(&mut self, t: i64, cdf: &F) -> (r: Option<CaptureSignal>)
        requires
            trend_ok(old(self)@),
            old(self)@.samples.len() < MAX_SAMPLES,
            time_ok(t as int),
            is_distribution(*cdf),
        ensures
            forall|m: spec_fn(i64) -> i64| #[trigger]
                gives(*cdf, m) ==> (final(self)@, r) == stepped(old(self)@, t as int, m),
            trend_ok(final(self)@),
            turns(old(self)@, t as int, final(self)@, r),
            r matches Some(c) ==> impulse_shows(final(self)@, t as int, c.direction),
            r matches Some(c) ==> delta_ok(c.gap_usd as int),
            final(self)@.samples.len() <= old(self)@.samples.len() + 1,
    {
        if t < self.open_ms || t >= self.end_ms || self.norm.len() == 0 {
            return None;
        }
        let ghost before = self@;
        let r1: i64 = usd_return(&self.norm, t, 1_000);
        self.r1_samples.push((t, r1));
        let sigma: i64 = realized_sigma(&self.r1_samples, t);
        let impulse: Option<Side> = self.impulse(t, r1, sigma);
        self.prev_vel = Some((t, r1));
        let direction: Side = match impulse {
            Some(direction) => direction,
            None => return None,
        };
        self.last_quality_ms = t;
        let running: bool = match self.trend {
            Some(trend) => trend == direction,
            None => false,
        };
        if running || t - self.last_fire_ms < COOLDOWN_MS || self.start_count >= MAX_CAPTURES {
            return None;
        }
        match self.signal(t, direction, r1, cdf) {
            None => None,
            Some(sig) => {
                self.trend = Some(direction);
                self.last_fire_ms = t;
                self.start_count = self.start_count + 1;
                Some(sig)
            },
        }
    }

    /// Takes a Binance price.
    pub fn on_bn<F: Fn(i64) -> i64>(&mut self, t: i64, price: i64, cdf: &F) -> (r: Option<
        CaptureSignal,
    >)
        requires
            trend_ok(old(self)@),
            old(self)@.samples.len() < MAX_SAMPLES,
            time_ok(t as int),
            price_ok(price as int),
            is_distribution(*cdf),
        ensures
            forall|m: spec_fn(i64) -> i64| #[trigger]
                gives(*cdf, m) ==> (final(self)@, r) == after_bn(old(self)@, t as int, price, m),
            trend_ok(final(self)@),
            turns(old(self)@, t as int, final(self)@, r),
            r matches Some(c) ==> impulse_shows(final(self)@, t as int, c.direction),
            r matches Some(c) ==> delta_ok(c.gap_usd as int),
            final(self)@.samples.len() <= old(self)@.samples.len() + 1,
    {
        follow(&mut self.bn, t, price);
        self.push_norm(t);
        self.step(t, cdf)
    }

    /// Takes a Coinbase price.
    pub fn on_cb<F: Fn(i64) -> i64>(&mut self, t: i64, price: i64, cdf: &F) -> (r: Option<
        CaptureSignal,
    >)
        requires
            trend_ok(old(self)@),
            old(self)@.samples.len() < MAX_SAMPLES,
            time_ok(t as int),
            price_ok(price as int),
            is_distribution(*cdf),
        ensures
            forall|m: spec_fn(i64) -> i64| #[trigger]
                gives(*cdf, m) ==> (final(self)@, r) == after_cb(old(self)@, t as int, price, m),
            trend_ok(final(self)@),
            turns(old(self)@, t as int, final(self)@, r),
            r matches Some(c) ==> impulse_shows(final(self)@, t as int, c.direction),
            r matches Some(c) ==> delta_ok(c.gap_usd as int),
            final(self)@.samples.len() <= old(self)@.samples.len() + 1,
    {
        follow(&mut self.cb, t, price);
        self.push_norm(t);
        self.step(t, cdf)
    }
}

/// A signal comes twelve seconds after the last one at the earliest, turns the
/// trend, and is counted; a window gives three at most.  Only a signal changes
/// any of this.
pub proof fn signals_turn_the_trend(s: Trend, t: int, m: spec_fn(i64) -> i64)
    requires
        i64::MIN <= t <= i64::MAX,
        s.end_ms - s.open_ms <= MAX_WINDOW_MS,
    ensures
        turns(s, t, stepped(s, t, m).0, stepped(s, t, m).1),
{
}

/// What can happen to a window: a price of a venue, or a quote.
pub enum TrendEvent {
    Binance { t: i64, price: i64 },
    Coinbase { t: i64, price: i64 },
    Quote { t: i64, up: i64, down: i64 },
}

/// The state and the signal after something has happened.
pub open spec fn after_event(s: Trend, e: TrendEvent, m: spec_fn(i64) -> i64) -> (
    Trend,
    Option<CaptureSignal>,
) {
    match e {
        TrendEvent::Binance { t, price } => after_bn(s, t as int, price, m),
        TrendEvent::Coinbase { t, price } => after_cb(s, t as int, price, m),
        TrendEvent::Quote { t, up, down } => (
            if up > 0 {
                Trend { poly: s.poly.push((t, up, down)), ..s }
            } else {
                s
            },
            None,
        ),
    }
}

/// The state after all of `events`, and the signals that they gave.
pub open spec fn trend_run(s: Trend, events: Seq<TrendEvent>, m: spec_fn(i64) -> i64) -> (
    Trend,
    Seq<CaptureSignal>,
)
    decreases events.len(),
{
    if events.len() == 0 {
        (s, Seq::empty())
    } else {
        let (before, signals) = trend_run(s, events.drop_last(), m);
        let (after, sig) = after_event(before, events.last(), m);
        (after, with_signal(signals, sig))
    }
}

/// The time of a price.
pub open spec fn price_time(e: TrendEvent) -> Option<i64> {
    match e {
        TrendEvent::Binance { t, .. } => Some(t),
        TrendEvent::Coinbase { t, .. } => Some(t),
        TrendEvent::Quote { .. } => None,
    }
}

/// Whether a signal of a window can be traded: it comes with a price, while the
/// window runs, with 25 seconds left at least, at an ask from 12 to 85 cents.
pub open spec fn is_sound(c: CaptureSignal, s: Trend, events: Seq<TrendEvent>) -> bool {
    &&& s.open_ms <= c.t < s.end_ms
    &&& c.tradable
    &&& entry_has_room(c.seconds_left as int, c.token_ask as int)
    &&& exists|i: int| 0 <= i < events.len() && price_time(#[trigger] events[i]) == Some(c.t)
}

/// Whether a signal follows another as it must: in the opposite direction, and
/// twelve seconds later at the earliest.
pub open spec fn takes_turns(a: CaptureSignal, b: CaptureSignal) -> bool {
    b.direction != a.direction && b.t >= a.t + COOLDOWN_MS
}

/// Whether the state says what has been signalled.
pub open spec fn remembers(s: Trend, signals: Seq<CaptureSignal>) -> bool {
    &&& s.start_count == signals.len()
    &&& s.start_count <= MAX_CAPTURES
    &&& if signals.len() == 0 {
        s.trend is None
    } else {
        s.trend == Some(signals.last().direction) && s.last_fire_ms == signals.last().t
    }
}

/// The signals of a window with one more, if there is one.
pub open spec fn with_signal(
    signals: Seq<CaptureSignal>,
    sig: Option<CaptureSignal>,
) -> Seq<CaptureSignal> {
    match sig {
        Some(c) => signals.push(c),
        None => signals,
    }
}

/// Whether something that happens moves what is remembered of the signals as it
/// may.
pub open spec fn hears(s: Trend, e: TrendEvent, after: Trend, sig: Option<CaptureSignal>) -> bool {
    match price_time(e) {
        Some(t) => turns(s, t as int, after, sig),
        None => sig is None && turns(s, 0, after, None),
    }
}

/// Whether `signals` are what a window that started as `s` may have given by
/// `events`, with `after` its state: each can be traded and follows the one
/// before it as it must.
pub open spec fn signalled(
    s: Trend,
    events: Seq<TrendEvent>,
    after: Trend,
    signals: Seq<CaptureSignal>,
) -> bool {
    &&& after.open_ms == s.open_ms
    &&& after.end_ms == s.end_ms
    &&& remembers(after, signals)
    &&& forall|k: int| 0 <= k < signals.len() ==> is_sound(#[trigger] signals[k], s, events)
    &&& forall|k: int|
        0 < k < signals.len() ==> takes_turns(signals[k - 1], #[trigger] signals[k])
}

/// A window that has just been opened has given no signal.
pub proof fn a_new_window_has_no_signal(s: Trend)
    requires
        s.trend is None,
        s.start_count == 0,
    ensures
        signalled(s, Seq::empty(), s, Seq::empty()),
{
}

/// Whatever happens next, and whatever the distribution function says of it, the
/// signals of a window stay what they may be.
pub proof fn signals_stay_in_turn(
    s: Trend,
    events: Seq<TrendEvent>,
    before: Trend,
    signals: Seq<CaptureSignal>,
    e: TrendEvent,
    after: Trend,
    sig: Option<CaptureSignal>,
)
    requires
        signalled(s, events, before, signals),
        hears(before, e, after, sig),
    ensures
        signalled(s, events.push(e), after, with_signal(signals, sig)),
        with_signal(signals, sig).len() <= 3,
{
    let all = with_signal(signals, sig);
    let more = events.push(e);
    assert forall|k: int| 0 <= k < all.len() implies is_sound(#[trigger] all[k], s, more) by {
        if k < signals.len() {
            assert(all[k] == signals[k]);
            let i = choose|i: int|
                0 <= i < events.len() && price_time(#[trigger] events[i]) == Some(signals[k].t);
            assert(more[i] == events[i]);
        } else {
            assert(more[events.len() as int] == e);
        }
    }
    assert forall|k: int| 0 < k < all.len() implies takes_turns(
        all[k - 1],
        #[trigger] all[k],
    ) by {
        assert(all[k - 1] == signals[k - 1]);
        if k < signals.len() {
            assert(all[k] == signals[k]);
        }
    }
}

proof fn an_event_is_heard(s: Trend, e: TrendEvent, m: spec_fn(i64) -> i64)
    requires
        s.end_ms - s.open_ms <= MAX_WINDOW_MS,
    ensures
        hears(s, e, after_event(s, e, m).0, after_event(s, e, m).1),
{
}

proof fn runs_keep_the_order(s: Trend, events: Seq<TrendEvent>, m: spec_fn(i64) -> i64)
    requires
        s.end_ms - s.open_ms <= MAX_WINDOW_MS,
        s.trend is None,
        s.start_count == 0,
    ensures
        signalled(s, events, trend_run(s, events, m).0, trend_run(s, events, m).1),
    decreases events.len(),
{
    if events.len() == 0 {
        a_new_window_has_no_signal(s);
        assert(events =~= Seq::empty());
    } else {
        let earlier = events.drop_last();
        runs_keep_the_order(s, earlier, m);
        let (before, signals) = trend_run(s, earlier, m);
        let e = events.last();
        an_event_is_heard(before, e, m);
        let (after, sig) = after_event(before, e, m);
        signals_stay_in_turn(s, earlier, before, signals, e, after, sig);
        assert(earlier.push(e) =~= events);
    }
}

/// Over all that happens to a window, three signals are given at most; each can
/// be traded, and follows the one before it in the opposite direction and twelve
/// seconds later at the earliest.
pub proof fn a_window_signals_three_turns_at_most(
    s: Trend,
    events: Seq<TrendEvent>,
    m: spec_fn(i64) -> i64,
)
    requires
        s.end_ms - s.open_ms <= MAX_WINDOW_MS,
        s.trend is None,
        s.start_count == 0,
    ensures
        ({
            let signals = trend_run(s, events, m).1;
            &&& signals.len() <= 3
            &&& forall|k: int|
                0 <= k < signals.len() ==> is_sound(#[trigger] signals[k], s, events)
            &&& forall|k: int|
                0 < k < signals.len() ==> takes_turns(signals[k - 1], #[trigger] signals[k])
        }),
{
    runs_keep_the_order(s, events, m);
}

} // verus!
