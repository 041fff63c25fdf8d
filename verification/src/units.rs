//! Fixed-point amounts.
//!
//! Prices, dollar amounts, share counts, probabilities and seconds are whole
//! numbers of billionths ([`NANO`] to the unit).  The product of two such
//! amounts, a cash flow of so many shares at such a price, is a whole number
//! of billionths of a billionth ([`ATTO`] to the dollar).
use vstd::prelude::*;

verus! {

/// A number of billionths.
pub type Nanos = i64;

/// A number of billionths of billionths.
pub type Attos = i128;

/// One unit (dollar, share, second) in billionths.
pub const NANO: i64 = 1_000_000_000;

/// One dollar in billionths of billionths.
pub const ATTO: i128 = 1_000_000_000_000_000_000;

/// One cent in billionths of a dollar.
pub const CENT: i64 = 10_000_000;

/// Largest magnitude of a time in milliseconds.
pub const MAX_MS: i64 = 1_000_000_000_000_000;

/// Largest magnitude of a bitcoin price.
pub const MAX_PRICE: i64 = 1_000_000_000_000_000_000;

/// Largest magnitude of a token ask.
pub const MAX_ASK: i64 = 1_000_000_000_000;

/// Largest magnitude of an order size.
pub const MAX_SHARES: i64 = 1_000_000_000_000_000;

/// A time that leaves room for every delay and margin added to it.
pub open spec fn time_ok(t: int) -> bool {
    -MAX_MS <= t <= MAX_MS
}

/// A bitcoin price whose differences, and their differences, can be computed.
pub open spec fn price_ok(px: int) -> bool {
    -MAX_PRICE <= px <= MAX_PRICE
}

/// A token ask that any order size can be multiplied with.
pub open spec fn ask_ok(ask: int) -> bool {
    -MAX_ASK <= ask <= MAX_ASK
}

/// An order size.
pub open spec fn shares_ok(shares: int) -> bool {
    -MAX_SHARES <= shares <= MAX_SHARES
}

/// The magnitude of a number.
pub open spec fn magnitude(x: int) -> int {
    if x < 0 {
        -x
    } else {
        x
    }
}

/// `x` held between `lo` and `hi`.
pub open spec fn clamped(x: int, lo: int, hi: int) -> int {
    if x < lo {
        lo
    } else if x > hi {
        hi
    } else {
        x
    }
}

/// `x / d` to the nearest whole number, halves away from zero.
pub open spec fn rounded_quotient(x: int, d: int) -> int {
    if x >= 0 {
        (2 * x + d) / (2 * d)
    } else {
        -((2 * -x + d) / (2 * d))
    }
}

/// `x / d` with the fraction dropped.
pub open spec fn truncated_quotient(x: int, d: int) -> int {
    if x >= 0 {
        x / d
    } else {
        -((-x) / d)
    }
}

/// `x` held between `lo` and `hi`.
pub fn clamp(x: i64, lo: i64, hi: i64) -> (r: i64)
    requires
        lo <= hi,
    ensures
        r == clamped(x as int, lo as int, hi as int),
        lo <= r <= hi,
{
    if x < lo {
        lo
    } else if x > hi {
        hi
    } else {
        x
    }
}

/// The magnitude of a number that has one.
pub fn abs(x: i64) -> (r: i64)
    requires
        x > i64::MIN,
    ensures
        r == magnitude(x as int),
{
    if x < 0 {
        -x
    } else {
        x
    }
}

/// `x / d` to the nearest whole number, halves away from zero.
pub fn round_div(x: i128, d: i128) -> (r: i128)
    requires
        0 < d <= 0x1000_0000_0000_0000_0000_0000_0000,
        magnitude(x as int) <= 0x2000_0000_0000_0000_0000_0000_0000_0000,
    ensures
        r == rounded_quotient(x as int, d as int),
        magnitude(2 * r * d - 2 * x) <= d,
        magnitude(r as int) <= magnitude(x as int) + 1,
{
    let whole: i128 = if x >= 0 {
        x
    } else {
        -x
    };
    let quotient: i128 = (2 * whole + d) / (2 * d);
    proof {
        let n = 2 * whole + d;
        let m = 2 * d;
        vstd::arithmetic::div_mod::lemma_fundamental_div_mod(n, m);
        vstd::arithmetic::div_mod::lemma_mod_bound(n, m);
        assert(n == m * quotient + n % m);
        assert(m * quotient == 2 * quotient * d) by (nonlinear_arith)
            requires
                m == 2 * d,
        ;
        assert(0 <= quotient <= whole + 1) by (nonlinear_arith)
            requires
                m == 2 * d,
                d > 0,
                whole >= 0,
                n == 2 * whole + d,
                n == m * quotient + n % m,
                0 <= n % m < m,
        ;
        assert(2 * (-quotient) * d == -(2 * quotient * d)) by (nonlinear_arith);
    }
    if x >= 0 {
        quotient
    } else {
        -quotient
    }
}

/// `x / d` with the fraction dropped.
pub fn trunc_div(x: i128, d: i128) -> (r: i128)
    requires
        0 < d,
        x > i128::MIN,
    ensures
        r == truncated_quotient(x as int, d as int),
        magnitude(r as int) <= magnitude(x as int),
{
    if x >= 0 {
        proof {
            vstd::arithmetic::div_mod::lemma_div_is_ordered_by_denominator(x as int, 1, d as int);
            vstd::arithmetic::div_mod::lemma_div_pos_is_pos(x as int, d as int);
        }
        x / d
    } else {
        proof {
            vstd::arithmetic::div_mod::lemma_div_is_ordered_by_denominator(-x as int, 1, d as int);
            vstd::arithmetic::div_mod::lemma_div_pos_is_pos(-x as int, d as int);
        }
        let whole: i128 = -x;
        -(whole / d)
    }
}

/// The largest whole number whose square is at most `x`.
pub fn integer_sqrt(x: u128) -> (r: u64)
    ensures
        r * r <= x,
        x < (r + 1) * (r + 1),
{
    let mut lo: u128 = 0;
    let mut hi: u128 = 0x1_0000_0000_0000_0000;
    assert(x < hi * hi) by (nonlinear_arith)
        requires
            hi == 0x1_0000_0000_0000_0000,
    ;
    while lo + 1 < hi
        invariant
            lo < hi <= 0x1_0000_0000_0000_0000,
            lo * lo <= x,
            x < hi * hi,
        decreases hi - lo,
    {
        let mid: u128 = lo + (hi - lo) / 2;
        assert(mid * mid <= 0xffff_ffff_ffff_ffff * 0xffff_ffff_ffff_ffff) by (nonlinear_arith)
            requires
                0 <= mid <= 0xffff_ffff_ffff_ffff,
        ;
        if mid * mid <= x {
            lo = mid;
        } else {
            hi = mid;
        }
    }
    lo as u64
}

/// Two whole numbers whose squares bracket the same number in the manner of
/// [`integer_sqrt`] are equal.
pub proof fn square_root_is_unique(x: int, r: int, s: int)
    requires
        r >= 0,
        s >= 0,
        r * r <= x < (r + 1) * (r + 1),
        s * s <= x < (s + 1) * (s + 1),
    ensures
        r == s,
{
    if r < s {
        assert((r + 1) * (r + 1) <= s * s) by (nonlinear_arith)
            requires
                0 <= r < s,
        ;
    }
    if s < r {
        assert((s + 1) * (s + 1) <= r * r) by (nonlinear_arith)
            requires
                0 <= s < r,
        ;
    }
}

} // verus!
