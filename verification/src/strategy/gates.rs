//! Entry filters: room in the token's price, distance from the strike against
//! the time that is left, and the token's own trend.
//!
//! Dollars, seconds, probabilities and numbers of standard deviations are in
//! billionths.  The normal distribution function is handed in.
use vstd::prelude::*;
use crate::units::{
    abs, ask_ok, clamp, clamped, integer_sqrt, magnitude, time_ok, trunc_div,
    truncated_quotient, CENT, MAX_MS, MAX_PRICE, NANO,
};
use super::sides::{token_of, PositionSide, Side};
use super::swings::delta_ok;
use super::tape::{ask_before, ask_known, known_ask_is_valid};

verus! {

/// Time before the close that an entry needs.
pub const MIN_LEFT_S: i64 = 25_000_000_000;

/// Lowest ask of an entry.
pub const MIN_TOKEN_ASK: i64 = 120_000_000;

/// Asks of an entry are below this.
pub const MAX_TOKEN_ASK_GATE: i64 = 880_000_000;

/// Room up to a dollar that an entry needs.
pub const MIN_ASK_ROOM: i64 = 150_000_000;

/// Largest distance from the strike of an entry, in standard deviations.
pub const MAX_ABS_Z: i64 = 1_500_000_000;

/// Largest distance against the trend with 25 seconds left.
pub const GAP_TIME_Z_AT_MIN_SEC: i64 = 500_000_000;

/// Largest distance against the trend with 300 seconds left.
pub const GAP_TIME_Z_AT_MAX_SEC: i64 = 2_000_000_000;

/// How far back a token's trend is looked at.
pub const TOKEN_TREND_LOOKBACK_MS: i64 = 2_000;

/// Fall of a token that keeps it from being bought.
pub const MAX_TOKEN_FALL: i64 = 35_000_000;

/// Rise of the other token that keeps one from being bought.
pub const MAX_OPP_RISE: i64 = 40_000_000;

/// What an entry is judged by.
#[derive(Clone, Copy, Debug, PartialEq, Eq, Structural)]
pub struct CaptureGateInput {
    pub direction: Side,
    pub gap_usd: i64,
    pub seconds_left: i64,
    pub sigma_rem: i64,
    pub token_ask: i64,
    pub impulse_usd: i64,
    pub expected_dp: i64,
    pub book_lag: i64,
}

/// How an entry was judged.
#[derive(Clone, Copy, Debug, PartialEq, Eq, Structural)]
pub struct CaptureGateResult {
    pub ok: bool,
    pub expected_dp: i64,
    pub book_lag: i64,
    pub fair_p: i64,
}

/// Whether a function gives probabilities.
pub open spec fn is_distribution<F: Fn(i64) -> i64>(cdf: F) -> bool {
    &&& forall|z: i64| #[trigger] call_requires(cdf, (z,))
    &&& forall|z: i64, p: i64| #[trigger] call_ensures(cdf, (z,), p) ==> 0 <= p <= NANO
}

/// Whether a function gives what `m` says.
pub open spec fn gives<F: Fn(i64) -> i64>(cdf: F, m: spec_fn(i64) -> i64) -> bool {
    forall|z: i64, p: i64| #[trigger] call_ensures(cdf, (z,), p) ==> p == m(z)
}

/// Whether the price is on the far side of the strike from the trend.
pub open spec fn against_trend(direction: Side, gap_usd: int) -> bool {
    match direction {
        Side::Up => gap_usd < 0,
        Side::Down => gap_usd > 0,
    }
}

/// Whether the price is on the far side of the strike from the trend.
pub fn gap_against_trend(direction: Side, gap_usd: i64) -> (r: bool)
    ensures
        r == against_trend(direction, gap_usd as int),
{
    match direction {
        Side::Up => gap_usd < 0,
        Side::Down => gap_usd > 0,
    }
}

/// Largest distance against the trend: linear in the time that is left, from
/// half a standard deviation with 25 seconds to two with 300.
pub open spec fn largest_against_z(seconds_left: int) -> int {
    let t = clamped(seconds_left, 25 * NANO, 300 * NANO);
    GAP_TIME_Z_AT_MIN_SEC + (t - 25 * NANO) * (GAP_TIME_Z_AT_MAX_SEC - GAP_TIME_Z_AT_MIN_SEC) / (
    275 * NANO)
}

/// Largest distance against the trend.
pub fn max_against_z(seconds_left: i64) -> (r: i64)
    ensures
        r == largest_against_z(seconds_left as int),
        GAP_TIME_Z_AT_MIN_SEC <= r <= GAP_TIME_Z_AT_MAX_SEC,
{
    let t: i64 = clamp(seconds_left, 25_000_000_000, 300_000_000_000);
    let over: i128 = (t - 25_000_000_000) as i128 * 1_500_000_000;
    GAP_TIME_Z_AT_MIN_SEC + (over / 275_000_000_000) as i64
}

/// The standard deviation that a gap is measured in: four dollars at least.
pub open spec fn gap_sigma(sigma_rem: int) -> int {
    if sigma_rem >= 4 * NANO {
        sigma_rem
    } else {
        4 * NANO
    }
}

/// A gap in standard deviations.
pub open spec fn z_of(gap_usd: int, sigma: int) -> int {
    truncated_quotient(gap_usd * NANO, sigma)
}

/// The square root of sixty seconds over those that are left, of which twenty
/// are counted at least.
pub open spec fn is_time_boost(boost: int, seconds_left: int) -> bool {
    let left = if seconds_left >= 20 * NANO {
        seconds_left
    } else {
        20 * NANO
    };
    let ratio = 60_000_000_000_000_000_000_000_000_000int / left;
    boost >= 0 && boost * boost <= ratio < (boost + 1) * (boost + 1)
}

/// The square root of sixty seconds over those that are left.
pub open spec fn time_boost(seconds_left: int) -> int {
    choose|b: int| is_time_boost(b, seconds_left)
}

/// The change in probability that an entry against the trend needs.
pub open spec fn gap_time_need(z: int, seconds_left: int) -> int {
    10_000_000 + 16 * z * time_boost(seconds_left) / 1_000_000_000_000
}

/// Whether an entry is skipped for its distance from the strike: against the
/// trend, and too far for the time that is left or too little to gain.
pub open spec fn skips_gap_time(i: CaptureGateInput) -> bool {
    let z = z_of(magnitude(i.gap_usd as int), gap_sigma(i.sigma_rem as int));
    against_trend(i.direction, i.gap_usd as int) && (z > largest_against_z(i.seconds_left as int)
        || i.expected_dp < gap_time_need(z, i.seconds_left as int))
}

proof fn time_boost_is_unique(a: int, b: int, seconds_left: int)
    requires
        is_time_boost(a, seconds_left),
        is_time_boost(b, seconds_left),
    ensures
        a == b,
{
    if a < b {
        assert((a + 1) * (a + 1) <= b * b) by (nonlinear_arith)
            requires
                0 <= a < b,
        ;
    }
    if b < a {
        assert((b + 1) * (b + 1) <= a * a) by (nonlinear_arith)
            requires
                0 <= b < a,
        ;
    }
}

/// The square root of sixty seconds over those that are left.
fn boost_of(seconds_left: i64) -> (r: i64)
    ensures
        r == time_boost(seconds_left as int),
        is_time_boost(r as int, seconds_left as int),
        0 <= r <= 2_000_000_000,
{
    let left: i64 = if seconds_left >= 20_000_000_000 {
        seconds_left
    } else {
        20_000_000_000
    };
    let ratio: u128 = 60_000_000_000_000_000_000_000_000_000u128 / left as u128;
    proof {
        assert(ratio <= 3_000_000_000_000_000_000) by (nonlinear_arith)
            requires
                ratio == 60_000_000_000_000_000_000_000_000_000int / (left as int),
                left >= 20_000_000_000,
        ;
    }
    let b: u64 = integer_sqrt(ratio);
    proof {
        assert(b <= 2_000_000_000) by (nonlinear_arith)
            requires
                b * b <= ratio,
                ratio <= 3_000_000_000_000_000_000,
        ;
        assert(is_time_boost(b as int, seconds_left as int));
        time_boost_is_unique(b as int, time_boost(seconds_left as int), seconds_left as int);
    }
    b as i64
}

/// The standard deviation that a gap is measured in.
fn sigma_floor(sigma_rem: i64) -> (r: i64)
    ensures
        r == gap_sigma(sigma_rem as int),
        r >= 4_000_000_000,
{
    if sigma_rem >= 4_000_000_000 {
        sigma_rem
    } else {
        4_000_000_000
    }
}

/// A gap in standard deviations.
fn z_score(gap_usd: i64, sigma: i64) -> (r: i64)
    requires
        magnitude(gap_usd as int) <= 4 * MAX_PRICE,
        sigma >= 1_000,
        magnitude(gap_usd as int) * NANO <= 1_000_000_000_000_000_000 * sigma,
    ensures
        r == z_of(gap_usd as int, sigma as int),
        magnitude(r as int) <= 1_000_000_000_000_000_000,
        gap_usd >= 0 ==> r >= 0,
{
    let z: i128 = trunc_div(gap_usd as i128 * 1_000_000_000, sigma as i128);
    proof {
        let g = magnitude(gap_usd as int) * NANO;
        let q = g / (sigma as int);
        assert(0 <= q <= 1_000_000_000_000_000_000) by (nonlinear_arith)
            requires
                0 <= g <= 1_000_000_000_000_000_000 * sigma,
                sigma > 0,
                q == g / (sigma as int),
        ;
    }
    z as i64
}

/// Whether an entry is skipped for its distance from the strike.
pub fn should_skip_gap_time(input: &CaptureGateInput) -> (r: bool)
    requires
        delta_ok(input.gap_usd as int),
    ensures
        r == skips_gap_time(*input),
{
    if !gap_against_trend(input.direction, input.gap_usd) {
        return false;
    }
    let sigma: i64 = sigma_floor(input.sigma_rem);
    let z: i64 = z_score(abs(input.gap_usd), sigma);
    if z > max_against_z(input.seconds_left) {
        return true;
    }
    let boost: i64 = boost_of(input.seconds_left);
    proof {
        assert(0 <= 16 * z * boost <= 16 * 2_000_000_000 * 2_000_000_000) by (nonlinear_arith)
            requires
                0 <= z <= 2_000_000_000,
                0 <= boost <= 2_000_000_000,
        ;
        assert(16 * z <= 32_000_000_000);
    }
    let need: i128 = 10_000_000 + (16 * z as i128 * boost as i128) / 1_000_000_000_000;
    (input.expected_dp as i128) < need
}

/// The change of a token's ask over the last `lookback` milliseconds.
pub open spec fn ask_change(
    asks: Seq<(i64, i64, i64)>,
    t: int,
    side: PositionSide,
    lookback: int,
) -> Option<int> {
    match (ask_known(asks, t - 1, side), ask_known(asks, t - lookback - 1, side)) {
        (Some(now), Some(past)) => Some(now - past),
        _ => None,
    }
}

/// Whether an entry is skipped for its token's trend: the token falls, or the
/// other one rises while this one does not.
pub open spec fn skips_token_trend(
    direction: Side,
    asks: Seq<(i64, i64, i64)>,
    signal_t: int,
) -> bool {
    let side = token_of(direction);
    let own = ask_change(asks, signal_t, side, TOKEN_TREND_LOOKBACK_MS as int);
    let other = ask_change(
        asks,
        signal_t,
        side.opposite_spec(),
        TOKEN_TREND_LOOKBACK_MS as int,
    );
    own matches Some(d) && (d < -MAX_TOKEN_FALL || (other matches Some(od) && od > MAX_OPP_RISE && d
        <= 0))
}

/// The change of a token's ask over the last `lookback_ms`.
fn token_ask_change(
    asks: &[(i64, i64, i64)],
    t: i64,
    side: PositionSide,
    lookback_ms: i64,
) -> (r: Option<i64>)
    requires
        magnitude(t as int) <= 2 * MAX_MS,
        time_ok(lookback_ms as int),
    ensures
        match (r, ask_change(asks@, t as int, side, lookback_ms as int)) {
            (Some(a), Some(b)) => a == b,
            (None, None) => true,
            _ => false,
        },
{
    proof {
        known_ask_is_valid(asks@, t - 1, side);
        known_ask_is_valid(asks@, t - lookback_ms - 1, side);
    }
    match (ask_before(asks, t, side), ask_before(asks, t - lookback_ms, side)) {
        (Some(now), Some(past)) => Some(now - past),
        _ => None,
    }
}

/// Whether an entry is skipped for its token's trend.
pub fn should_skip_token_trend(
    direction: Side,
    poly_asks: &[(i64, i64, i64)],
    signal_t: i64,
) -> (r: bool)
    requires
        magnitude(signal_t as int) <= 2 * MAX_MS,
    ensures
        r == skips_token_trend(direction, poly_asks@, signal_t as int),
{
    let side: PositionSide = PositionSide::from(direction);
    match token_ask_change(poly_asks, signal_t, side, TOKEN_TREND_LOOKBACK_MS) {
        Some(d) => {
            if d < -MAX_TOKEN_FALL {
                return true;
            }
            match token_ask_change(
                poly_asks,
                signal_t,
                side.opposite(),
                TOKEN_TREND_LOOKBACK_MS,
            ) {
                Some(od) => od > MAX_OPP_RISE && d <= 0,
                None => false,
            }
        },
        None => false,
    }
}

/// The ask of the other token: a cent above what makes a dollar, held between
/// 1 and 99 cents.
pub open spec fn complement(ask: int) -> int {
    clamped(NANO - ask + CENT, CENT as int, 990_000_000)
}

/// The DOWN ask that goes with an UP ask.
pub fn down_from_up(up: i64) -> (r: i64)
    requires
        ask_ok(up as int),
    ensures
        r == complement(up as int),
{
    clamp(NANO - up + CENT, CENT, 990_000_000)
}

/// The other token's ask that goes with a held token's.
pub fn other_side_ask(held: Side, held_ask: i64) -> (r: i64)
    requires
        ask_ok(held_ask as int),
    ensures
        r == complement(held_ask as int),
        CENT <= r <= 990_000_000,
{
    match held {
        Side::Up => down_from_up(held_ask),
        Side::Down => clamp(NANO - held_ask + CENT, CENT, 990_000_000),
    }
}

/// The seconds and dollars of a point of the table of remaining deviations.
pub open spec fn sigma_point(i: int) -> (int, int) {
    if i <= 0 {
        (0, 6_000_000_000)
    } else if i == 1 {
        (10_000_000_000, 11_200_000_000)
    } else if i == 2 {
        (20_000_000_000, 15_900_000_000)
    } else if i == 3 {
        (30_000_000_000, 18_200_000_000)
    } else if i == 4 {
        (60_000_000_000, 34_100_000_000)
    } else if i == 5 {
        (90_000_000_000, 37_800_000_000)
    } else if i == 6 {
        (120_000_000_000, 41_400_000_000)
    } else if i == 7 {
        (180_000_000_000, 57_700_000_000)
    } else if i == 8 {
        (240_000_000_000, 72_200_000_000)
    } else {
        (300_000_000_000, 77_400_000_000)
    }
}

/// The deviation between the point before `i` and the point at `i`.
pub open spec fn sigma_between(left: int, i: int) -> int {
    let (t0, s0) = sigma_point(i - 1);
    let (t1, s1) = sigma_point(i);
    s0 + (left - t0) * (s1 - s0) / (t1 - t0)
}

/// The deviation of bitcoin over the time that is left, from the points of the
/// table at `i` and after: linear between two points, that of the last point
/// beyond it.
pub open spec fn sigma_from(left: int, i: int) -> int
    decreases 10 - i,
{
    if i >= 10 {
        77_400_000_000
    } else if left <= sigma_point(i).0 {
        sigma_between(left, i)
    } else {
        sigma_from(left, i + 1)
    }
}

/// The deviation of bitcoin over the time that is left.
pub open spec fn sigma_left(seconds_left: int) -> int {
    sigma_from(
        if seconds_left >= 0 {
            seconds_left
        } else {
            0
        },
        1,
    )
}

/// A point of the table of remaining deviations.
fn sigma_table(i: usize) -> (r: (i64, i64))
    ensures
        r.0 == sigma_point(i as int).0,
        r.1 == sigma_point(i as int).1,
{
    match i {
        0 => (0, 6_000_000_000),
        1 => (10_000_000_000, 11_200_000_000),
        2 => (20_000_000_000, 15_900_000_000),
        3 => (30_000_000_000, 18_200_000_000),
        4 => (60_000_000_000, 34_100_000_000),
        5 => (90_000_000_000, 37_800_000_000),
        6 => (120_000_000_000, 41_400_000_000),
        7 => (180_000_000_000, 57_700_000_000),
        8 => (240_000_000_000, 72_200_000_000),
        _ => (300_000_000_000, 77_400_000_000),
    }
}

/// The deviation of bitcoin over the time that is left.
pub fn sigma_remaining(seconds_left: i64) -> (r: i64)
    ensures
        r == sigma_left(seconds_left as int),
        6_000_000_000 <= r <= 77_400_000_000,
{
    let left: i64 = if seconds_left >= 0 {
        seconds_left
    } else {
        0
    };
    let mut i: usize = 1;
    while i < 10
        invariant
            1 <= i <= 10,
            left == (if seconds_left >= 0 {
                seconds_left
            } else {
                0
            }),
            i > 1 ==> left > sigma_point(i - 1).0,
            sigma_from(left as int, 1) == sigma_from(left as int, i as int),
        decreases 10 - i,
    {
        let low: (i64, i64) = sigma_table(i - 1);
        let high: (i64, i64) = sigma_table(i);
        if left <= high.0 {
            let over: i128 = (left - low.0) as i128;
            let rise: i128 = (high.1 - low.1) as i128;
            let span: i128 = (high.0 - low.0) as i128;
            proof {
                assert(0 <= over * rise <= span * rise) by (nonlinear_arith)
                    requires
                        0 <= over <= span,
                        0 <= rise,
                ;
                assert(span * rise <= 60_000_000_000 * 20_000_000_000) by (nonlinear_arith)
                    requires
                        0 <= span <= 60_000_000_000,
                        0 <= rise <= 20_000_000_000,
                ;
                assert(0 <= (over * rise) / (span as int) <= rise) by (nonlinear_arith)
                    requires
                        0 <= over * rise <= span * rise,
                        span > 0,
                ;
            }
            return low.1 + (over * rise / span) as i64;
        }
        i = i + 1;
    }
    77_400_000_000
}

proof fn between_grows(a: int, b: int, i: int)
    requires
        1 <= i < 10,
        sigma_point(i - 1).0 <= a <= b <= sigma_point(i).0,
    ensures
        sigma_point(i - 1).1 <= sigma_between(a, i) <= sigma_between(b, i) <= sigma_point(i).1,
{
    let (t0, s0) = sigma_point(i - 1);
    let (t1, s1) = sigma_point(i);
    let (span, rise) = (t1 - t0, s1 - s0);
    assert(0 <= (a - t0) * rise <= (b - t0) * rise <= span * rise) by (nonlinear_arith)
        requires
            0 <= a - t0 <= b - t0 <= span,
            rise >= 0,
    ;
    assert(0 <= ((a - t0) * rise) / span <= ((b - t0) * rise) / span <= rise)
        by (nonlinear_arith)
        requires
            0 <= (a - t0) * rise <= (b - t0) * rise <= span * rise,
            span > 0,
    ;
}

proof fn from_a_point_on(left: int, i: int)
    requires
        1 <= i <= 10,
        sigma_point(i - 1).0 <= left,
    ensures
        sigma_point(i - 1).1 <= sigma_from(left, i),
    decreases 10 - i,
{
    if i < 10 {
        if left <= sigma_point(i).0 {
            between_grows(left, left, i);
        } else {
            from_a_point_on(left, i + 1);
        }
    }
}

proof fn from_a_point_it_grows(a: int, b: int, i: int)
    requires
        1 <= i <= 10,
        sigma_point(i - 1).0 <= a <= b,
    ensures
        sigma_from(a, i) <= sigma_from(b, i),
    decreases 10 - i,
{
    if i < 10 {
        if b <= sigma_point(i).0 {
            between_grows(a, b, i);
        } else if a <= sigma_point(i).0 {
            between_grows(a, a, i);
            from_a_point_on(b, i + 1);
        } else {
            from_a_point_it_grows(a, b, i + 1);
        }
    }
}

/// The more time is left, the more bitcoin can still move.
pub proof fn the_deviation_grows_with_the_time_left(a: int, b: int)
    requires
        a <= b,
    ensures
        sigma_left(a) <= sigma_left(b),
{
    from_a_point_it_grows(
        if a >= 0 {
            a
        } else {
            0
        },
        if b >= 0 {
            b
        } else {
            0
        },
        1,
    );
}

/// The change in probability that an ask needs.
pub open spec fn dp_need(token_ask: int) -> int {
    (1_400_000_000 + 9 * token_ask) / 100
}

/// The change in probability that an ask needs: 1.4 hundredths and nine
/// hundredths of the ask.
pub fn min_expected_dp_for_ask(token_ask: i64) -> (r: i64)
    requires
        ask_ok(token_ask as int),
    ensures
        r == dp_need(token_ask as int),
{
    let n: i64 = 1_400_000_000 + 9 * token_ask;
    if n >= 0 {
        n / 100
    } else {
        -((99 - n) / 100)
    }
}

/// Whether an entry has the time and the room that each needs: 25 seconds, and an
/// ask from 12 to 85 cents.
pub open spec fn entry_has_room(seconds_left: int, token_ask: int) -> bool {
    seconds_left >= MIN_LEFT_S && MIN_TOKEN_ASK <= token_ask <= NANO - MIN_ASK_ROOM
}

/// How an entry is judged, given the probabilities that UP wins before and
/// after the impulse.
pub open spec fn judged(
    direction: Side,
    z: int,
    p0: int,
    p1: int,
    seconds_left: int,
    token_ask: int,
) -> CaptureGateResult {
    let dp = p1 - p0;
    let expected = magnitude(dp);
    let fair = match direction {
        Side::Up => p1,
        Side::Down => NANO - p1,
    };
    let room = NANO - token_ask;
    CaptureGateResult {
        ok: seconds_left >= MIN_LEFT_S && token_ask < MAX_TOKEN_ASK_GATE && token_ask
            >= MIN_TOKEN_ASK && room >= MIN_ASK_ROOM && magnitude(z) <= MAX_ABS_Z && (
        match direction {
            Side::Up => dp > 0,
            Side::Down => dp < 0,
        }) && expected >= dp_need(token_ask) && expected * 10 <= room * 9,
        expected_dp: expected as i64,
        book_lag: (fair - token_ask) as i64,
        fair_p: fair as i64,
    }
}

/// How an entry is judged with `m` the normal distribution function.
pub open spec fn gate_judged(
    direction: Side,
    gap_usd: int,
    impulse_usd: int,
    seconds_left: int,
    sigma_rem: int,
    token_ask: int,
    m: spec_fn(i64) -> i64,
) -> CaptureGateResult {
    let sigma = gap_sigma(sigma_rem);
    let z = z_of(gap_usd, sigma);
    judged(
        direction,
        z,
        m(z as i64) as int,
        m(z_of(gap_usd + impulse_usd, sigma) as i64) as int,
        seconds_left,
        token_ask,
    )
}

/// Judges an entry from the probabilities that UP wins before and after the
/// impulse.
pub fn judge(
    direction: Side,
    z: i64,
    p0: i64,
    p1: i64,
    seconds_left: i64,
    token_ask: i64,
) -> (r: CaptureGateResult)
    requires
        0 <= p0 <= NANO,
        0 <= p1 <= NANO,
        ask_ok(token_ask as int),
        z > i64::MIN,
    ensures
        r == judged(
            direction,
            z as int,
            p0 as int,
            p1 as int,
            seconds_left as int,
            token_ask as int,
        ),
{
    let dp: i64 = p1 - p0;
    let expected_dp: i64 = abs(dp);
    let fair_p: i64 = match direction {
        Side::Up => p1,
        Side::Down => NANO - p1,
    };
    let room: i64 = NANO - token_ask;
    let sign_ok: bool = match direction {
        Side::Up => dp > 0,
        Side::Down => dp < 0,
    };
    let ok: bool = seconds_left >= MIN_LEFT_S && token_ask < MAX_TOKEN_ASK_GATE && token_ask
        >= MIN_TOKEN_ASK && room >= MIN_ASK_ROOM && abs(z) <= MAX_ABS_Z && sign_ok && expected_dp
        >= min_expected_dp_for_ask(token_ask) && expected_dp * 10 <= room * 9;
    CaptureGateResult { ok, expected_dp, book_lag: fair_p - token_ask, fair_p }
}

/// Judges an entry with a normal distribution function.
pub fn evaluate_capture_gate<F: Fn(i64) -> i64>(
    direction: Side,
    gap_usd: i64,
    impulse_usd: i64,
    seconds_left: i64,
    sigma_rem: i64,
    token_ask: i64,
    cdf: &F,
) -> (r: CaptureGateResult)
    requires
        delta_ok(gap_usd as int),
        delta_ok(impulse_usd as int),
        ask_ok(token_ask as int),
        is_distribution(*cdf),
    ensures
        forall|m: spec_fn(i64) -> i64| #[trigger]
            gives(*cdf, m) ==> r == gate_judged(
                direction,
                gap_usd as int,
                impulse_usd as int,
                seconds_left as int,
                sigma_rem as int,
                token_ask as int,
                m,
            ),
        r.ok ==> entry_has_room(seconds_left as int, token_ask as int),
{
    let sigma: i64 = sigma_floor(sigma_rem);
    let z: i64 = z_score(gap_usd, sigma);
    let z1: i64 = z_score(gap_usd + impulse_usd, sigma);
    let p0: i64 = cdf(z);
    let p1: i64 = cdf(z1);
    judge(direction, z, p0, p1, seconds_left, token_ask)
}

/// Whether an entry passes.
pub fn capture_gate_ok<F: Fn(i64) -> i64>(input: &CaptureGateInput, cdf: &F) -> (r: bool)
    requires
        delta_ok(input.gap_usd as int),
        delta_ok(input.impulse_usd as int),
        ask_ok(input.token_ask as int),
        is_distribution(*cdf),
    ensures
        forall|m: spec_fn(i64) -> i64| #[trigger]
            gives(*cdf, m) ==> r == gate_judged(
                input.direction,
                input.gap_usd as int,
                input.impulse_usd as int,
                input.seconds_left as int,
                input.sigma_rem as int,
                input.token_ask as int,
                m,
            ).ok,
        r ==> entry_has_room(input.seconds_left as int, input.token_ask as int),
{
    evaluate_capture_gate(
        input.direction,
        input.gap_usd,
        input.impulse_usd,
        input.seconds_left,
        input.sigma_rem,
        input.token_ask,
        cdf,
    ).ok
}

/// The deviation that a fair price is measured in: a millionth of a dollar at
/// least.
pub open spec fn fair_sigma(sigma_rem: int) -> int {
    if sigma_rem >= 1_000 {
        sigma_rem
    } else {
        1_000
    }
}

/// The fair price of a direction's token with `m` the normal distribution
/// function.
pub open spec fn fair_price(
    direction: Side,
    gap_usd: int,
    sigma_rem: int,
    m: spec_fn(i64) -> i64,
) -> int {
    let p = m(z_of(gap_usd, fair_sigma(sigma_rem)) as i64) as int;
    match direction {
        Side::Up => p,
        Side::Down => NANO - p,
    }
}

/// The fair price of a direction's token.
pub fn fair_p<F: Fn(i64) -> i64>(direction: Side, gap_usd: i64, sigma_rem: i64, cdf: &F) -> (r: i64)
    requires
        magnitude(gap_usd as int) * NANO <= 1_000_000_000_000_000_000 * fair_sigma(
            sigma_rem as int,
        ),
        magnitude(gap_usd as int) <= 4 * MAX_PRICE,
        is_distribution(*cdf),
    ensures
        0 <= r <= NANO,
        forall|m: spec_fn(i64) -> i64| #[trigger]
            gives(*cdf, m) ==> r == fair_price(direction, gap_usd as int, sigma_rem as int, m),
{
    let sigma: i64 = if sigma_rem >= 1_000 {
        sigma_rem
    } else {
        1_000
    };
    let z: i64 = z_score(gap_usd, sigma);
    let p: i64 = cdf(z);
    match direction {
        Side::Up => p,
        Side::Down => NANO - p,
    }
}

} // verus!
