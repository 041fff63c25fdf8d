//! What the detector signals.
use vstd::prelude::*;
use crate::units::{magnitude, time_ok};
use super::detector::{
    after_bn, after_cb, deviation, followed, impulse_shows, mean_followed, mean_price, next_trend,
    no_trend, quoted_ask, quotes_until, recent, root_of, spread_of, stale, stepped, sum_of, turns,
    CaptureSignal, Trend,
};
use super::gates::{fair_price, gate_judged, sigma_left};
use super::sides::Side;
use super::tape::price_known;

verus! {

/// A signal is given only where an impulse shows on both venues and at every
/// scale, in the direction of the signal.
pub proof fn a_signal_needs_an_impulse_on_both_venues(s: Trend, t: int, m: spec_fn(i64) -> i64)
    ensures
        stepped(s, t, m).1 matches Some(c) ==> impulse_shows(s, t, c.direction),
{
}

/// How prices have moved over the last `h` milliseconds; not at all where it is
/// not known what they were.
pub open spec fn change_over(points: Seq<(i64, i64)>, now: int, h: int) -> int {
    if points.len() > 0 && price_known(points, now - h) is Some {
        points.last().1 - price_known(points, now - h)->0
    } else {
        0
    }
}

/// A tick signals UP if and only if it lies in the window, an impulse shows
/// upwards, half of the last second's move came in its last quarter, it is one and
/// a half deviations of such moves at least, it does not undo a larger fall, it has
/// not slowed by more than a dollar and a half a second, UP is not the running
/// trend, twelve seconds have gone by since the last signal, fewer than three were
/// given, the token is quoted and the entry passes.
pub proof fn an_impulse_is_signalled(
    s: Trend,
    t: int,
    direction: Side,
    m: spec_fn(i64) -> i64,
)
    requires
        time_ok(t),
        s.end_ms - s.open_ms <= 100_000_000,
    ensures
        ({
            let r1 = change_over(s.norm, t, 1_000);
            let r2 = change_over(s.norm, t, 2_000);
            let along = match direction {
                Side::Up => 1int,
                Side::Down => -1int,
            };
            let left = if s.end_ms - t >= 1_000 {
                (s.end_ms - t) * 1_000_000
            } else {
                1_000_000_000
            };
            let gap = match s.strike {
                Some(strike) => s.norm.last().1 - strike,
                None => 0,
            };
            let ask = quoted_ask(s.poly, t, direction);
            let sigma = deviation(s.samples.push((t as i64, r1 as i64)), t);
            let given = stepped(s, t, m).1;
            (given is Some && given->0.direction == direction) <==> {
                &&& s.open_ms <= t < s.end_ms
                &&& impulse_shows(s, t, direction)
                &&& 2 * magnitude(change_over(s.norm, t, 250)) >= magnitude(r1)
                &&& 2 * magnitude(r1) >= 3 * sigma
                &&& along * r2 < -400_000_000 ==> 100 * magnitude(r2) <= 85 * magnitude(r1)
                &&& s.prev_vel matches Some((pt, pv)) ==> t <= pt + 40 || along * (r1 - pv) * 1_000
                    >= -1_500_000_000 * (t - pt)
                &&& s.trend != Some(direction)
                &&& t >= s.last_fire_ms + 12_000
                &&& s.start_count < 3
                &&& ask > 0
                &&& gate_judged(direction, gap, r1, left, sigma_left(left), ask, m).ok
            }
        }),
{
    let r1 = change_over(s.norm, t, 1_000);
    assert(r1 == super::detector::move_over(s.norm, t, 1_000));
}

/// What a signal says: its time, the ask that its token was quoted at last, the
/// distance of the mean from the strike, the time left, by how much the token
/// lags behind its fair price, and the gain that is expected of it.
pub proof fn a_signal_says_what_was_seen(s: Trend, t: int, m: spec_fn(i64) -> i64)
    requires
        time_ok(t),
        s.end_ms - s.open_ms <= 100_000_000,
        s.strike is Some,
        magnitude(s.norm.last().1 - s.strike->0) <= 2_000_000_000_000_000_000,
        magnitude(change_over(s.norm, t, 1_000)) <= 2_000_000_000_000_000_000,
        forall|z: i64| 0 <= #[trigger] m(z) <= 1_000_000_000,
    ensures
        stepped(s, t, m).1 matches Some(c) ==> {
            let gap = s.norm.last().1 - s.strike->0;
            let left = if s.end_ms - t >= 1_000 {
                (s.end_ms - t) * 1_000_000
            } else {
                1_000_000_000
            };
            &&& c.t == t
            &&& c.tradable
            &&& c.token_ask == quoted_ask(s.poly, t, c.direction)
            &&& c.gap_usd == gap
            &&& c.seconds_left == left
            &&& c.book_lag == fair_price(c.direction, gap, sigma_left(left), m) - c.token_ask
            &&& c.expected_dp == c.book_lag + magnitude(change_over(s.norm, t, 1_000)) / 100
        },
{
    assert(change_over(s.norm, t, 1_000) == super::detector::move_over(s.norm, t, 1_000));
}

/// Between two signals twelve seconds go by at least, and the directions
/// alternate; the fourth is not given.
pub proof fn signals_are_rare(s: Trend, t: int, after: Trend, sig: Option<CaptureSignal>)
    requires
        turns(s, t, after, sig),
    ensures
        sig matches Some(c) ==> {
            &&& s.start_count <= 2
            &&& after.start_count == s.start_count + 1
            &&& t - s.last_fire_ms >= 12_000
            &&& s.trend != Some(c.direction)
            &&& 120_000_000 <= c.token_ask <= 850_000_000
            &&& c.seconds_left >= 25_000_000_000
        },
{
}

/// A window starts with no trend, no signal given, no samples and no quotes, and
/// with the strike that is given; its venues' prices stay.
pub proof fn a_window_starts_anew(s: Trend, open_ms: i64, end_ms: i64, ptb: Option<i64>)
    ensures
        ({
            let n = next_trend(s, open_ms, end_ms, ptb);
            &&& n.open_ms == open_ms
            &&& n.end_ms == end_ms
            &&& n.strike == ptb
            &&& n.trend is None
            &&& n.start_count == 0
            &&& n.last_fire_ms < -4_000_000_000_000_000_000
            &&& n.samples.len() == 0
            &&& n.poly.len() == 0
            &&& n.prev_vel is None
            &&& n.bn == s.bn
            &&& n.cb == s.cb
            &&& n.norm == s.norm
        }),
        no_trend(open_ms, end_ms, ptb).bn.len() == 0,
        no_trend(open_ms, end_ms, ptb).cb.len() == 0,
{
}

/// A price of a venue is the last of that venue, and leaves the other venue
/// alone.
pub proof fn a_price_is_its_venue_s_last(s: Trend, t: int, price: i64, m: spec_fn(i64) -> i64)
    requires
        time_ok(t),
    ensures
        after_bn(s, t, price, m).0.bn.len() > 0,
        after_bn(s, t, price, m).0.bn.last() == (t as i64, price),
        after_bn(s, t, price, m).0.cb == s.cb,
        after_cb(s, t, price, m).0.cb.len() > 0,
        after_cb(s, t, price, m).0.cb.last() == (t as i64, price),
        after_cb(s, t, price, m).0.bn == s.bn,
        after_bn(s, t, price, m).0.norm.len() > 0,
        after_cb(s, t, price, m).0.norm.len() > 0,
{
    prices_are_kept_for_a_minute(s.bn, t, price);
    prices_are_kept_for_a_minute(s.cb, t, price);
    let bn = followed(s.bn, t, price);
    let cb = followed(s.cb, t, price);
    if let Some(px) = mean_price(bn, s.cb) {
        prices_are_kept_for_a_minute(s.norm, t, px as i64);
    }
    if let Some(px) = mean_price(s.bn, cb) {
        prices_are_kept_for_a_minute(s.norm, t, px as i64);
    }
}

/// Prices are kept for a minute: the newest one is the last, only leading ones
/// that are older are dropped.
pub proof fn prices_are_kept_for_a_minute(points: Seq<(i64, i64)>, t: int, price: i64)
    requires
        time_ok(t),
    ensures
        ({
            let kept = followed(points, t, price);
            let all = points.push((t as i64, price));
            let gone = all.len() - kept.len();
            &&& 0 <= gone < all.len()
            &&& kept == all.skip(gone)
            &&& kept.len() > 0
            &&& kept.last() == (t as i64, price)
            &&& kept[0].0 >= t - 60_050
            &&& forall|i: int| 0 <= i < gone ==> (#[trigger] all[i]).0 < t - 60_050
        }),
{
    let all = points.push((t as i64, price));
    stale_points_are_old(all, t - 60_050, 0);
    assert(all[all.len() - 1] == (t as i64, price));
}

proof fn stale_points_are_old(points: Seq<(i64, i64)>, cutoff: int, i: int)
    requires
        0 <= i <= points.len(),
    ensures
        i <= stale(points, cutoff, i) <= points.len(),
        forall|k: int| i <= k < stale(points, cutoff, i) ==> (#[trigger] points[k]).0 < cutoff,
        stale(points, cutoff, i) < points.len() ==> points[stale(points, cutoff, i)].0 >= cutoff,
    decreases points.len() - i,
{
    if i < points.len() && points[i].0 < cutoff {
        stale_points_are_old(points, cutoff, i + 1);
    }
}

/// The mean of two venues' last prices is six parts Binance and four parts
/// Coinbase; of one venue it is that venue's.
pub proof fn the_mean_weighs_the_venues(bn: Seq<(i64, i64)>, cb: Seq<(i64, i64)>)
    ensures
        bn.len() > 0 && cb.len() > 0 ==> mean_price(bn, cb) is Some && magnitude(
            10 * mean_price(bn, cb)->0 - (6 * bn.last().1 + 4 * cb.last().1),
        ) < 10,
        bn.len() > 0 && cb.len() == 0 ==> mean_price(bn, cb) == Some(bn.last().1 as int),
        bn.len() == 0 && cb.len() > 0 ==> mean_price(bn, cb) == Some(cb.last().1 as int),
        bn.len() == 0 && cb.len() == 0 ==> mean_price(bn, cb) is None,
{
}

/// The first mean at or after the open is the strike of a window that has none;
/// nothing else changes a strike.
pub proof fn the_first_mean_is_the_strike(s: Trend, t: int)
    requires
        s.bn.len() > 0 || s.cb.len() > 0,
    ensures
        s.strike is Some ==> mean_followed(s, t).strike == s.strike,
        s.strike is None && t < s.open_ms ==> mean_followed(s, t).strike is None,
        s.strike is None && t >= s.open_ms ==> mean_followed(s, t).strike == Some(
            mean_price(s.bn, s.cb)->0 as i64,
        ),
{
}

/// The deviation of moves is three dollars at least, and eight while fewer than
/// eight moves of the last thirty seconds are known; else it is the square root of
/// their variance, to a millionth of a dollar.
pub proof fn the_deviation_is_of_recent_moves(samples: Seq<(i64, i64)>, now: int)
    ensures
        ({
            let xs = recent(samples, now, samples.len() as int);
            let d = deviation(samples, now);
            &&& d >= 3_000_000_000
            &&& xs.len() < 8 ==> d == 8_000_000_000
            &&& xs.len() >= 8 ==> {
                let n = xs.len() as int;
                let total = sum_of(xs);
                let mu = if total >= 0 {
                    total / n
                } else {
                    -(-total / n)
                };
                let root = root_of(spread_of(xs, mu) / n);
                d == 3_000_000_000 || (d == root * 1_000 && d > 3_000_000_000)
            }
            &&& xs.len() >= 8 && d == 3_000_000_000 ==> {
                let n = xs.len() as int;
                let total = sum_of(xs);
                let mu = if total >= 0 {
                    total / n
                } else {
                    -(-total / n)
                };
                root_of(spread_of(xs, mu) / n) <= 3_000_000
            }
        }),
{
}

/// A move counts for thirty seconds, in millionths of a dollar.
pub proof fn moves_count_for_thirty_seconds(samples: Seq<(i64, i64)>, now: int, n: int)
    requires
        0 < n <= samples.len(),
    ensures
        now - samples[n - 1].0 > 30_000 ==> recent(samples, now, n) == recent(samples, now, n - 1),
        now - samples[n - 1].0 <= 30_000 && samples[n - 1].1 >= 0 ==> recent(samples, now, n)
            == recent(samples, now, n - 1).push(samples[n - 1].1 / 1_000),
        recent(samples, now, 0).len() == 0,
{
}

/// The ask that a token is quoted at is that of the last quote by then; nothing
/// before the first.
pub proof fn the_last_quote_counts(poly: Seq<(i64, i64, i64)>, t: int, n: int)
    requires
        0 <= n <= poly.len(),
        forall|i: int| 0 <= i < n ==> (#[trigger] poly[i]).0 <= t,
        n < poly.len() ==> poly[n].0 > t,
    ensures
        n == 0 ==> quoted_ask(poly, t, Side::Up) == 0 && quoted_ask(poly, t, Side::Down) == 0,
        n > 0 ==> quoted_ask(poly, t, Side::Up) == poly[n - 1].1,
        n > 0 ==> quoted_ask(poly, t, Side::Down) == poly[n - 1].2,
{
    quotes_are_counted(poly, t, n, 0);
}

proof fn quotes_are_counted(poly: Seq<(i64, i64, i64)>, t: int, n: int, i: int)
    requires
        0 <= i <= n <= poly.len(),
        forall|k: int| 0 <= k < n ==> (#[trigger] poly[k]).0 <= t,
        n < poly.len() ==> poly[n].0 > t,
    ensures
        quotes_until(poly, t, i) == n,
    decreases n - i,
{
    if i < n {
        assert(poly[i].0 <= t);
        quotes_are_counted(poly, t, n, i + 1);
    }
}

/// Each tick of the window is a sample of the last second's move, and what the next one
/// is held against; one outside the window changes nothing.
pub proof fn every_tick_is_a_sample(s: Trend, t: int, m: spec_fn(i64) -> i64)
    requires
        time_ok(t),
        magnitude(change_over(s.norm, t, 1_000)) <= 9_000_000_000_000_000_000,
    ensures
        ({
            let r1 = change_over(s.norm, t, 1_000) as i64;
            let after = stepped(s, t, m).0;
            &&& s.open_ms <= t < s.end_ms && s.norm.len() > 0 ==> {
                &&& after.samples == s.samples.push((t as i64, r1))
                &&& after.prev_vel == Some((t as i64, r1))
                &&& stepped(s, t, m).1 is Some ==> after.last_quality_ms == t
            }
            &&& !(s.open_ms <= t < s.end_ms) || s.norm.len() == 0 ==> stepped(s, t, m) == (
                s,
                None::<CaptureSignal>,
            )
            &&& after.bn == s.bn && after.cb == s.cb && after.norm == s.norm && after.poly == s.poly
            &&& after.strike == s.strike
        }),
{
    assert(change_over(s.norm, t, 1_000) == super::detector::move_over(s.norm, t, 1_000));
}

/// An impulse is seen at its time, whether or not it is signalled.
pub proof fn an_impulse_is_seen(s: Trend, t: int, m: spec_fn(i64) -> i64)
    requires
        time_ok(t),
        s.open_ms <= t < s.end_ms,
        s.norm.len() > 0,
    ensures
        super::detector::impulse_at(s, t) is Some ==> stepped(s, t, m).0.last_quality_ms == t,
        super::detector::impulse_at(s, t) is None ==> stepped(s, t, m).0.last_quality_ms
            == s.last_quality_ms && stepped(s, t, m).1 is None,
{
}

} // verus!
