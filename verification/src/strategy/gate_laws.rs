//! What the entry filters let through.
use vstd::prelude::*;
use crate::units::magnitude;
use super::gates::{
    ask_change, complement, dp_need, fair_price, gate_judged, is_time_boost, judged,
    largest_against_z, sigma_between, sigma_from, sigma_left, sigma_point, skips_gap_time,
    skips_token_trend, time_boost, z_of, CaptureGateInput,
};
use super::sides::{PositionSide, Side};
use super::tape::ask_known;

verus! {

/// An entry with the trend is never skipped for its gap, nor is one at the
/// strike.
pub proof fn only_gaps_against_the_trend_count(i: CaptureGateInput)
    ensures
        i.direction == Side::Up && i.gap_usd >= 0 ==> !skips_gap_time(i),
        i.direction == Side::Down && i.gap_usd <= 0 ==> !skips_gap_time(i),
{
}

/// A gap against the trend keeps an entry out if and only if it is more standard
/// deviations than the time that is left allows, or the expected gain is smaller
/// than one hundredth and 1.6 hundredths a deviation, more when less than a
/// minute is left.  A deviation is four dollars at least.
pub proof fn a_gap_against_the_trend_needs_time_and_gain(i: CaptureGateInput)
    requires
        i.direction == Side::Up ==> i.gap_usd < 0,
        i.direction == Side::Down ==> i.gap_usd > 0,
    ensures
        ({
            let sigma = if i.sigma_rem >= 4_000_000_000 {
                i.sigma_rem as int
            } else {
                4_000_000_000
            };
            let gap = if i.gap_usd >= 0 {
                i.gap_usd as int
            } else {
                -i.gap_usd
            };
            let z = gap * 1_000_000_000 / sigma;
            skips_gap_time(i) <==> z > largest_against_z(i.seconds_left as int) || i.expected_dp
                < 10_000_000 + 16 * z * time_boost(i.seconds_left as int) / 1_000_000_000_000
        }),
{
}

/// Against the trend half a deviation is allowed with 25 seconds left or fewer,
/// two with 300 or more, and in proportion between them.
pub proof fn the_gap_allowed_grows_with_the_time_left(left: int)
    ensures
        left <= 25_000_000_000 ==> largest_against_z(left) == 500_000_000,
        left >= 300_000_000_000 ==> largest_against_z(left) == 2_000_000_000,
        25_000_000_000 <= left <= 300_000_000_000 ==> {
            let over = (largest_against_z(left) - 500_000_000) * 275;
            over <= (left - 25_000_000_000) * 3 / 2 < over + 275
        },
{
    if 25_000_000_000 <= left <= 300_000_000_000 {
        let d = left - 25_000_000_000;
        let q = d * 1_500_000_000 / 275_000_000_000;
        assert(largest_against_z(left) == 500_000_000 + q);
        assert(q == d * 3 / 550) by (nonlinear_arith)
            requires
                q == d * 1_500_000_000 / 275_000_000_000,
        ;
        assert(q * 275 <= d * 3 / 2 < q * 275 + 275);
    }
    if left >= 300_000_000_000 {
        let d = 275_000_000_000int;
        assert(d * 1_500_000_000 / 275_000_000_000 == 1_500_000_000) by (nonlinear_arith)
            requires
                d == 275_000_000_000,
        ;
    }
}

/// The weight of a gap is one with a minute left, and grows as the square root of
/// the time shrinks, down to twenty seconds.
pub proof fn the_weight_of_a_gap_grows_to_the_end(left: int, boost: int)
    requires
        is_time_boost(boost, left),
    ensures
        left == 60_000_000_000 ==> boost == 1_000_000_000,
        left >= 20_000_000_000 ==> boost * boost * left <= 60_000_000_000_000_000_000_000_000_000,
        left >= 20_000_000_000 ==> 60_000_000_000_000_000_000_000_000_000 < ((boost + 1) * (boost
            + 1) + 1) * left,
        left <= 20_000_000_000 ==> is_time_boost(boost, 20_000_000_000),
{
    let l = if left >= 20_000_000_000 {
        left
    } else {
        20_000_000_000
    };
    let big = 60_000_000_000_000_000_000_000_000_000int;
    let ratio = big / l;
    assert(ratio * l <= big < (ratio + 1) * l) by (nonlinear_arith)
        requires
            ratio == big / l,
            l > 0,
    ;
    assert(boost * boost * l <= ratio * l) by (nonlinear_arith)
        requires
            boost * boost <= ratio,
            l > 0,
    ;
    assert((ratio + 1) * l <= ((boost + 1) * (boost + 1) + 1) * l) by (nonlinear_arith)
        requires
            ratio < (boost + 1) * (boost + 1),
            l > 0,
    ;
    if left == 60_000_000_000 {
        assert(ratio == 1_000_000_000_000_000_000) by (nonlinear_arith)
            requires
                ratio * 60_000_000_000 <= 60_000_000_000_000_000_000_000_000_000 < (ratio + 1)
                    * 60_000_000_000,
        ;
        assert(boost == 1_000_000_000) by (nonlinear_arith)
            requires
                boost >= 0,
                boost * boost <= 1_000_000_000_000_000_000 < (boost + 1) * (boost + 1),
        ;
    }
}

/// The change of a token's ask is what is known just before a time less what was
/// known just before the lookback; nothing where either is not known.
pub proof fn a_change_is_the_difference_of_two_asks(
    asks: Seq<(i64, i64, i64)>,
    t: int,
    side: PositionSide,
    lookback: int,
)
    ensures
        ask_change(asks, t, side, lookback) is Some <==> ask_known(asks, t - 1, side) is Some
            && ask_known(asks, t - lookback - 1, side) is Some,
        ask_change(asks, t, side, lookback) matches Some(d) ==> d == ask_known(
            asks,
            t - 1,
            side,
        )->0 - ask_known(asks, t - lookback - 1, side)->0,
{
}

/// Over the last two seconds, a token that has fallen by more than 3.5 cents is
/// not bought, nor one that has not risen while the other has risen by more than
/// 4 cents; any other is.
pub proof fn falling_tokens_are_not_bought(asks: Seq<(i64, i64, i64)>, t: int, direction: Side)
    ensures
        ({
            let (own, other) = match direction {
                Side::Up => (PositionSide::Up, PositionSide::Down),
                Side::Down => (PositionSide::Down, PositionSide::Up),
            };
            let d = ask_change(asks, t, own, 2_000);
            let o = ask_change(asks, t, other, 2_000);
            &&& d is None ==> !skips_token_trend(direction, asks, t)
            &&& d is Some && d->0 < -35_000_000 ==> skips_token_trend(direction, asks, t)
            &&& d is Some && d->0 > 0 ==> !skips_token_trend(direction, asks, t)
            &&& d is Some && -35_000_000 <= d->0 <= 0 ==> (skips_token_trend(direction, asks, t)
                <==> o is Some && o->0 > 40_000_000)
        }),
{
}

/// The other token's ask is a cent above what makes a dollar, between 1 and 99
/// cents; two tokens' asks that go with each other come to a dollar and a cent.
pub proof fn two_asks_make_a_dollar_and_a_cent(ask: int)
    ensures
        20_000_000 <= ask <= 1_000_000_000 ==> ask + complement(ask) == 1_010_000_000,
        20_000_000 <= ask <= 990_000_000 ==> complement(complement(ask)) == ask,
        10_000_000 <= complement(ask) <= 990_000_000,
        ask <= 20_000_000 ==> complement(ask) == 990_000_000,
        ask >= 1_000_000_000 ==> complement(ask) == 10_000_000,
{
}

/// The expected gain that an ask needs is 1.4 hundredths and nine hundredths of
/// the ask.
pub proof fn dear_tokens_need_more(ask: int)
    ensures
        100 * dp_need(ask) <= 1_400_000_000 + 9 * ask < 100 * dp_need(ask) + 100,
{
}

/// An entry passes if and only if 25 seconds are left, its ask is from 12 to 85
/// cents, the price is no more than one and a half deviations from the strike, the
/// impulse moves the probability its way, by what the ask needs and by no more
/// than nine tenths of the room.
pub proof fn an_entry_needs_time_room_and_gain(
    direction: Side,
    z: int,
    p0: int,
    p1: int,
    left: int,
    ask: int,
)
    ensures
        ({
            let gain = match direction {
                Side::Up => p1 - p0,
                Side::Down => p0 - p1,
            };
            judged(direction, z, p0, p1, left, ask).ok <==> {
                &&& left >= 25_000_000_000
                &&& 120_000_000 <= ask <= 850_000_000
                &&& -1_500_000_000 <= z <= 1_500_000_000
                &&& gain > 0
                &&& gain >= dp_need(ask)
                &&& 10 * gain <= 9 * (1_000_000_000 - ask)
            }
        }),
{
}

/// What is said of an entry that is judged: the gain is the change of the
/// probability, the fair price is the probability that its token pays after the
/// impulse, and the lag is what that is above the ask.
pub proof fn a_judgement_says_what_it_found(
    direction: Side,
    z: int,
    p0: int,
    p1: int,
    left: int,
    ask: int,
)
    requires
        0 <= p0 <= 1_000_000_000,
        0 <= p1 <= 1_000_000_000,
        magnitude(ask) <= 1_000_000_000_000,
    ensures
        ({
            let r = judged(direction, z, p0, p1, left, ask);
            &&& r.expected_dp == p1 - p0 || r.expected_dp == p0 - p1
            &&& r.expected_dp >= 0
            &&& direction == Side::Up ==> r.fair_p == p1
            &&& direction == Side::Down ==> r.fair_p == 1_000_000_000 - p1
            &&& r.book_lag == r.fair_p - ask
        }),
{
}

/// An entry is judged by the probabilities at the gap and at the gap and the
/// impulse together, both in deviations of four dollars at least.
pub proof fn an_impulse_moves_the_gap(
    direction: Side,
    gap: int,
    impulse: int,
    left: int,
    sigma: int,
    ask: int,
    m: spec_fn(i64) -> i64,
)
    requires
        sigma >= 4_000_000_000,
        gap >= 0,
        gap + impulse >= 0,
    ensures
        gate_judged(direction, gap, impulse, left, sigma, ask, m) == judged(
            direction,
            gap * 1_000_000_000 / sigma,
            m((gap * 1_000_000_000 / sigma) as i64) as int,
            m(((gap + impulse) * 1_000_000_000 / sigma) as i64) as int,
            left,
            ask,
        ),
        forall|s: int|
            s <= 4_000_000_000 ==> #[trigger] gate_judged(direction, gap, impulse, left, s, ask, m)
                == gate_judged(direction, gap, impulse, left, 4_000_000_000, ask, m),
{
}

/// The fair prices of the two tokens make a dollar, and that of UP is the
/// probability at the gap in deviations.
pub proof fn fair_prices_make_a_dollar(gap: int, sigma: int, m: spec_fn(i64) -> i64)
    requires
        sigma >= 1_000,
    ensures
        fair_price(Side::Up, gap, sigma, m) + fair_price(Side::Down, gap, sigma, m)
            == 1_000_000_000,
        gap >= 0 ==> fair_price(Side::Up, gap, sigma, m) == m(
            (gap * 1_000_000_000 / sigma) as i64,
        ),
        gap < 0 ==> fair_price(Side::Up, gap, sigma, m) == m(
            (-(-gap * 1_000_000_000 / sigma)) as i64,
        ),
{
    assert(-gap * 1_000_000_000 == -(gap * 1_000_000_000));
}

/// A gap of so many deviations, with the fraction dropped.
pub proof fn a_gap_in_deviations(gap: int, sigma: int)
    requires
        sigma > 0,
    ensures
        z_of(-gap, sigma) == -z_of(gap, sigma),
        gap >= 0 ==> z_of(gap, sigma) * sigma <= gap * 1_000_000_000 < (z_of(gap, sigma) + 1)
            * sigma,
{
    if gap >= 0 {
        let x = gap * 1_000_000_000;
        let q = x / sigma;
        assert(q * sigma <= x < (q + 1) * sigma) by (nonlinear_arith)
            requires
                q == x / sigma,
                sigma > 0,
        ;
    }
    assert(-gap * 1_000_000_000 == -(gap * 1_000_000_000));
}

/// The deviation that is left: six dollars at the close, and 11.2, 15.9, 18.2,
/// 34.1, 37.8, 41.4, 57.7, 72.2 and 77.4 dollars with 10, 20, 30, 60, 90, 120,
/// 180, 240 and 300 seconds; in proportion between them, and no more beyond.
pub proof fn the_deviation_left_is_measured(left: int)
    ensures
        left <= 0 ==> sigma_left(left) == 6_000_000_000,
        0 <= left <= 10_000_000_000 ==> sigma_left(left) == 6_000_000_000 + left
            * 5_200_000_000 / 10_000_000_000,
        10_000_000_000 <= left <= 20_000_000_000 ==> sigma_left(left) == 11_200_000_000 + (left - 10_000_000_000)
            * 4_700_000_000 / 10_000_000_000,
        20_000_000_000 <= left <= 30_000_000_000 ==> sigma_left(left) == 15_900_000_000 + (left - 20_000_000_000)
            * 2_300_000_000 / 10_000_000_000,
        30_000_000_000 <= left <= 60_000_000_000 ==> sigma_left(left) == 18_200_000_000 + (left - 30_000_000_000)
            * 15_900_000_000 / 30_000_000_000,
        60_000_000_000 <= left <= 90_000_000_000 ==> sigma_left(left) == 34_100_000_000 + (left - 60_000_000_000)
            * 3_700_000_000 / 30_000_000_000,
        90_000_000_000 <= left <= 120_000_000_000 ==> sigma_left(left) == 37_800_000_000 + (left - 90_000_000_000)
            * 3_600_000_000 / 30_000_000_000,
        120_000_000_000 <= left <= 180_000_000_000 ==> sigma_left(left) == 41_400_000_000 + (left - 120_000_000_000)
            * 16_300_000_000 / 60_000_000_000,
        180_000_000_000 <= left <= 240_000_000_000 ==> sigma_left(left) == 57_700_000_000 + (left - 180_000_000_000)
            * 14_500_000_000 / 60_000_000_000,
        240_000_000_000 <= left <= 300_000_000_000 ==> sigma_left(left) == 72_200_000_000 + (left - 240_000_000_000)
            * 5_200_000_000 / 60_000_000_000,
        left >= 300_000_000_000 ==> sigma_left(left) == 77_400_000_000,
{
    reveal_with_fuel(sigma_from, 11);
    let at = if left >= 0 {
        left
    } else {
        0
    };
    assert(sigma_between(at, 1) == 6_000_000_000 + at * 5_200_000_000 / 10_000_000_000) by {
        assert(sigma_point(0) == (0int, 6_000_000_000int));
        assert(sigma_point(1) == (10_000_000_000int, 11_200_000_000int));
    }
    assert(sigma_between(at, 2) == 11_200_000_000 + (at - 10_000_000_000) * 4_700_000_000 / 10_000_000_000) by {
        assert(sigma_point(1) == (10_000_000_000int, 11_200_000_000int));
        assert(sigma_point(2) == (20_000_000_000int, 15_900_000_000int));
    }
    assert(sigma_between(at, 3) == 15_900_000_000 + (at - 20_000_000_000) * 2_300_000_000 / 10_000_000_000) by {
        assert(sigma_point(2) == (20_000_000_000int, 15_900_000_000int));
        assert(sigma_point(3) == (30_000_000_000int, 18_200_000_000int));
    }
    assert(sigma_between(at, 4) == 18_200_000_000 + (at - 30_000_000_000) * 15_900_000_000 / 30_000_000_000) by {
        assert(sigma_point(3) == (30_000_000_000int, 18_200_000_000int));
        assert(sigma_point(4) == (60_000_000_000int, 34_100_000_000int));
    }
    assert(sigma_between(at, 5) == 34_100_000_000 + (at - 60_000_000_000) * 3_700_000_000 / 30_000_000_000) by {
        assert(sigma_point(4) == (60_000_000_000int, 34_100_000_000int));
        assert(sigma_point(5) == (90_000_000_000int, 37_800_000_000int));
    }
    assert(sigma_between(at, 6) == 37_800_000_000 + (at - 90_000_000_000) * 3_600_000_000 / 30_000_000_000) by {
        assert(sigma_point(5) == (90_000_000_000int, 37_800_000_000int));
        assert(sigma_point(6) == (120_000_000_000int, 41_400_000_000int));
    }
    assert(sigma_between(at, 7) == 41_400_000_000 + (at - 120_000_000_000) * 16_300_000_000 / 60_000_000_000) by {
        assert(sigma_point(6) == (120_000_000_000int, 41_400_000_000int));
        assert(sigma_point(7) == (180_000_000_000int, 57_700_000_000int));
    }
    assert(sigma_between(at, 8) == 57_700_000_000 + (at - 180_000_000_000) * 14_500_000_000 / 60_000_000_000) by {
        assert(sigma_point(7) == (180_000_000_000int, 57_700_000_000int));
        assert(sigma_point(8) == (240_000_000_000int, 72_200_000_000int));
    }
    assert(sigma_between(at, 9) == 72_200_000_000 + (at - 240_000_000_000) * 5_200_000_000 / 60_000_000_000) by {
        assert(sigma_point(8) == (240_000_000_000int, 72_200_000_000int));
        assert(sigma_point(9) == (300_000_000_000int, 77_400_000_000int));
    }
}

} // verus!
