//! Decimal numbers in text.
//!
//! A number has an optional sign, digits with an optional point among or at
//! either end of them, and an optional exponent.  Amounts are read to a
//! billionth; what is finer is dropped.
use vstd::prelude::*;
use crate::text::chars_of;
use crate::units::magnitude;

verus! {

/// Largest limit that digits are read against.
pub const MAX_LIMIT: u128 = 1_000_000_000_000_000_000_000_000_000_000_000_000;

/// Exponents of this size and above are too large to be told apart.
pub const FAR_EXPONENT: u128 = 1_000_000_000_000_000_000_000_000_000_000;

/// A decimal number: `mantissa` tens to the power of `exponent`.
pub struct Decimal {
    pub negative: bool,
    pub mantissa: int,
    pub exponent: int,
}

/// Whether a character is a digit.
pub open spec fn is_digit(c: char) -> bool {
    '0' <= c <= '9'
}

/// Where the digits from `i` on end.
pub open spec fn digits_end(s: Seq<char>, i: int) -> int
    decreases s.len() - i,
{
    if 0 <= i < s.len() && is_digit(s[i]) {
        digits_end(s, i + 1)
    } else {
        i
    }
}

/// What the digits between `from` and `to` add to a value before them.
pub open spec fn value(s: Seq<char>, before: int, from: int, to: int) -> int
    decreases to - from,
{
    if from >= to {
        before
    } else {
        value(s, before * 10 + (s[from] as int - 48), from + 1, to)
    }
}

/// Whether a character is an exponent's mark.
pub open spec fn is_exponent_mark(c: char) -> bool {
    c == 'e' || c == 'E'
}

/// Whether a text has a sign at `i`.
pub open spec fn sign_at(s: Seq<char>, i: int) -> bool {
    0 <= i < s.len() && (s[i] == '-' || s[i] == '+')
}

/// Where what follows an optional sign at `i` starts.
pub open spec fn after_sign(s: Seq<char>, i: int) -> int {
    if sign_at(s, i) {
        i + 1
    } else {
        i
    }
}

/// Whether a text has a minus at `i`.
pub open spec fn minus_at(s: Seq<char>, i: int) -> bool {
    0 <= i < s.len() && s[i] == '-'
}

/// The exponent of which the mark stands at `i`, up to the end of the text.
pub open spec fn exponent_at(s: Seq<char>, i: int) -> Option<int> {
    let from = after_sign(s, i + 1);
    let to = digits_end(s, from);
    if from < to && to == s.len() {
        let e = value(s, 0, from, to);
        Some(
            if minus_at(s, i + 1) {
                -e
            } else {
                e
            },
        )
    } else {
        None
    }
}

/// The decimal number that a text is.
pub open spec fn decimal_of(s: Seq<char>) -> Option<Decimal> {
    let from = after_sign(s, 0);
    let whole = digits_end(s, from);
    let point = whole < s.len() && s[whole] == '.';
    let fraction = if point {
        whole + 1
    } else {
        whole
    };
    let end = if point {
        digits_end(s, fraction)
    } else {
        whole
    };
    let mantissa = value(s, value(s, 0, from, whole), fraction, end);
    if whole - from + end - fraction == 0 {
        None
    } else if end == s.len() {
        Some(Decimal { negative: minus_at(s, 0), mantissa, exponent: fraction - end })
    } else if is_exponent_mark(s[end]) {
        match exponent_at(s, end) {
            Some(e) => Some(
                Decimal { negative: minus_at(s, 0), mantissa, exponent: e + fraction - end },
            ),
            None => None,
        }
    } else {
        None
    }
}

/// Ten to the power of `n`.
pub open spec fn ten(n: int) -> int
    decreases n,
{
    if n <= 0 {
        1
    } else {
        10 * ten(n - 1)
    }
}

/// A mantissa shifted by `places`; what falls off its end is dropped.
pub open spec fn shifted(mantissa: int, places: int) -> int {
    if places >= 0 {
        mantissa * ten(places)
    } else {
        mantissa / ten(-places)
    }
}

/// A decimal number in units of ten to the power of minus `places`; what is
/// finer is dropped.
pub open spec fn in_units(d: Decimal, places: int) -> int {
    let n = shifted(d.mantissa, d.exponent + places);
    if d.negative {
        -n
    } else {
        n
    }
}

/// The amount that a text is, in units of ten to the power of minus `places`, if
/// it fits.
pub open spec fn amount_of(s: Seq<char>, places: int) -> Option<int> {
    match decimal_of(s) {
        Some(d) => if i64::MIN <= in_units(d, places) <= i64::MAX {
            Some(in_units(d, places))
        } else {
            None
        },
        None => None,
    }
}

proof fn digits_end_is_a_position(s: Seq<char>, i: int)
    requires
        0 <= i <= s.len(),
    ensures
        i <= digits_end(s, i) <= s.len(),
        forall|k: int| i <= k < digits_end(s, i) ==> is_digit(#[trigger] s[k]),
    decreases s.len() - i,
{
    if i < s.len() && is_digit(s[i]) {
        digits_end_is_a_position(s, i + 1);
    }
}

proof fn values_grow(s: Seq<char>, before: int, from: int, to: int)
    requires
        before >= 0,
        0 <= from <= to <= s.len(),
        forall|k: int| from <= k < to ==> is_digit(#[trigger] s[k]),
    ensures
        value(s, before, from, to) >= before,
    decreases to - from,
{
    if from < to {
        assert(is_digit(s[from]));
        values_grow(s, before * 10 + (s[from] as int - 48), from + 1, to);
    }
}

/// Where the digits from `i` on end.
fn end_of_digits(s: &Vec<char>, i: usize) -> (r: usize)
    requires
        i <= s.len(),
    ensures
        r == digits_end(s@, i as int),
        i <= r <= s.len(),
        forall|k: int| i <= k < r ==> is_digit(#[trigger] s@[k]),
{
    let mut n: usize = i;
    while n < s.len() && '0' <= s[n] && s[n] <= '9'
        invariant
            i <= n <= s.len(),
            digits_end(s@, i as int) == digits_end(s@, n as int),
        decreases s.len() - n,
    {
        n = n + 1;
    }
    proof {
        digits_end_is_a_position(s@, i as int);
    }
    n
}

/// The value of digits after a value before them, if it is below the limit.
fn read_digits(s: &Vec<char>, before: u128, from: usize, to: usize, limit: u128) -> (r: Option<
    u128,
>)
    requires
        from <= to <= s.len(),
        forall|k: int| from <= k < to ==> is_digit(#[trigger] s@[k]),
        before < limit <= MAX_LIMIT,
    ensures
        r == (if value(s@, before as int, from as int, to as int) < limit {
            Some(value(s@, before as int, from as int, to as int) as u128)
        } else {
            None
        }),
        r matches Some(v) ==> v < limit,
{
    let ghost target = value(s@, before as int, from as int, to as int);
    let mut v: u128 = before;
    let mut i: usize = from;
    while i < to
        invariant
            from <= i <= to <= s.len(),
            forall|k: int| from <= k < to ==> is_digit(#[trigger] s@[k]),
            v < limit <= MAX_LIMIT,
            target == value(s@, v as int, i as int, to as int),
            target == value(s@, before as int, from as int, to as int),
        decreases to - i,
    {
        proof {
            assert(is_digit(s@[i as int]));
        }
        let next: u128 = v * 10 + (s[i] as u32 - 48) as u128;
        if next >= limit {
            proof {
                values_grow(s@, next as int, i + 1, to as int);
            }
            return None;
        }
        v = next;
        i = i + 1;
    }
    Some(v)
}

/// The exponent of which the mark stands at `i`: whether it is negative, and its
/// size unless that is too large.
fn read_exponent(s: &Vec<char>, i: usize) -> (r: Option<(bool, Option<u128>)>)
    requires
        i < s.len(),
    ensures
        match (r, exponent_at(s@, i as int)) {
            (Some((negative, Some(size))), Some(e)) => size < FAR_EXPONENT && e == (if negative {
                -(size as int)
            } else {
                size as int
            }),
            (Some((negative, None)), Some(e)) => if negative {
                e <= -FAR_EXPONENT
            } else {
                e >= FAR_EXPONENT
            },
            (None, None) => true,
            _ => false,
        },
{
    let sign: usize = i + 1;
    let signed: bool = sign < s.len() && (s[sign] == '-' || s[sign] == '+');
    let negative: bool = sign < s.len() && s[sign] == '-';
    let from: usize = if signed {
        sign + 1
    } else {
        sign
    };
    let to: usize = end_of_digits(s, from);
    if from == to || to != s.len() {
        return None;
    }
    proof {
        values_grow(s@, 0, from as int, to as int);
    }
    Some((negative, read_digits(s, 0, from, to, FAR_EXPONENT)))
}

proof fn tens_are_positive(n: int)
    ensures
        ten(n) >= 1,
    decreases n,
{
    if n > 0 {
        tens_are_positive(n - 1);
    }
}

/// Shifting up by one place more is ten times as much.
proof fn shift_up(m: int, n: int)
    requires
        n >= 0,
        m >= 0,
    ensures
        m * ten(n + 1) == (m * 10) * ten(n),
        m * ten(n + 1) >= m * 10,
{
    tens_are_positive(n);
    let t = ten(n);
    assert(m * (10 * t) == (m * 10) * t) by (nonlinear_arith);
    assert((m * 10) * t >= m * 10) by (nonlinear_arith)
        requires
            m >= 0,
            t >= 1,
    ;
}

/// Shifting down by one place more drops one digit more.
proof fn shift_down(m: int, n: int)
    requires
        n >= 0,
        m >= 0,
    ensures
        m / ten(n + 1) == (m / 10) / ten(n),
        0 <= m / ten(n) <= m,
{
    tens_are_positive(n);
    vstd::arithmetic::div_mod::lemma_div_denominator(m, 10, ten(n));
    vstd::arithmetic::div_mod::lemma_div_is_ordered_by_denominator(m, 1, ten(n));
    vstd::arithmetic::div_mod::lemma_div_pos_is_pos(m, ten(n));
}

proof fn shifting_keeps_the_sign(m: int, places: int)
    requires
        m >= 0,
    ensures
        shifted(m, places) >= 0,
{
    if places >= 0 {
        tens_are_positive(places);
        assert(m * ten(places) >= 0) by (nonlinear_arith)
            requires
                m >= 0,
                ten(places) >= 1,
        ;
    } else {
        shift_down(m, -places);
    }
}

/// Ten to a power is larger than the power.
proof fn tens_outgrow(n: int)
    requires
        n >= 0,
    ensures
        ten(n) > n,
    decreases n,
{
    if n > 0 {
        tens_outgrow(n - 1);
    }
}

/// The last digit of a value.
proof fn a_value_ends_in_its_last_digit(s: Seq<char>, before: int, from: int, to: int)
    requires
        from < to,
    ensures
        value(s, before, from, to) == value(s, before, from, to - 1) * 10 + (s[to - 1] as int - 48),
    decreases to - from,
{
    if from + 1 < to {
        a_value_ends_in_its_last_digit(s, before * 10 + (s[from] as int - 48), from + 1, to);
    } else {
        assert(value(s, before, from, to - 1) == before);
        assert(value(s, before * 10 + (s[from] as int - 48), to, to) == before * 10 + (
        s[from] as int - 48));
    }
}

/// Dividing by tens drops digits.
proof fn tens_drop_digits(s: Seq<char>, before: int, from: int, to: int, q: int)
    requires
        before >= 0,
        0 <= q <= to - from,
        0 <= from <= to <= s.len(),
        forall|k: int| from <= k < to ==> is_digit(#[trigger] s[k]),
    ensures
        value(s, before, from, to) / ten(q) == value(s, before, from, to - q),
    decreases q,
{
    if q > 0 {
        let v = value(s, before, from, to);
        let head = value(s, before, from, to - 1);
        a_value_ends_in_its_last_digit(s, before, from, to);
        assert(is_digit(s[to - 1]));
        values_grow(s, before, from, to - 1);
        shift_down(v, q - 1);
        assert(v / 10 == head);
        tens_drop_digits(s, before, from, to - 1, q - 1);
    } else {
        assert(value(s, before, from, to) / 1 == value(s, before, from, to));
    }
}

/// Dividing twice by tens drops so many digits in all.
proof fn tens_add_up(m: int, a: int, b: int)
    requires
        m >= 0,
        a >= 0,
        b >= 0,
    ensures
        m / ten(a + b) == (m / ten(a)) / ten(b),
    decreases a,
{
    if a > 0 {
        shift_down(m, a + b - 1);
        shift_down(m, a - 1);
        vstd::arithmetic::div_mod::lemma_div_pos_is_pos(m, 10);
        tens_add_up(m / 10, a - 1, b);
    } else {
        assert(m / 1 == m);
    }
}

/// Where the digits of a number stand: the whole ones from `from` to `whole`, the
/// others from `fraction` to `end`.
pub struct Places {
    pub from: int,
    pub whole: int,
    pub fraction: int,
    pub end: int,
}

/// Whether digits stand where they are said to.
pub open spec fn digits_stand(s: Seq<char>, p: Places) -> bool {
    &&& 0 <= p.from <= p.whole <= p.fraction <= p.end <= s.len()
    &&& forall|k: int| p.from <= k < p.whole ==> is_digit(#[trigger] s[k])
    &&& forall|k: int| p.fraction <= k < p.end ==> is_digit(#[trigger] s[k])
}

/// The value of all digits.
pub open spec fn mantissa_at(s: Seq<char>, p: Places) -> int {
    value(s, value(s, 0, p.from, p.whole), p.fraction, p.end)
}

/// What is left of a number without its last `q` digits.
pub open spec fn leading(s: Seq<char>, p: Places, q: int) -> int {
    if q <= p.end - p.fraction {
        value(s, value(s, 0, p.from, p.whole), p.fraction, p.end - q)
    } else if q - (p.end - p.fraction) <= p.whole - p.from {
        value(s, 0, p.from, p.whole - (q - (p.end - p.fraction)))
    } else {
        0
    }
}

proof fn leading_digits_are_what_is_left(s: Seq<char>, p: Places, q: int)
    requires
        digits_stand(s, p),
        q >= 0,
    ensures
        mantissa_at(s, p) / ten(q) == leading(s, p, q),
        mantissa_at(s, p) >= 0,
{
    let head = value(s, 0, p.from, p.whole);
    values_grow(s, 0, p.from, p.whole);
    values_grow(s, head, p.fraction, p.end);
    let f = p.end - p.fraction;
    let w = p.whole - p.from;
    if q <= f {
        tens_drop_digits(s, head, p.fraction, p.end, q);
    } else {
        tens_drop_digits(s, head, p.fraction, p.end, f);
        tens_add_up(mantissa_at(s, p), f, q - f);
        if q - f <= w {
            tens_drop_digits(s, 0, p.from, p.whole, q - f);
        } else {
            tens_drop_digits(s, 0, p.from, p.whole, w);
            tens_add_up(head, w, q - f - w);
            tens_are_positive(q - f - w);
            vstd::arithmetic::div_mod::lemma_div_basics(ten(q - f - w));
        }
    }
}

/// What a text is as a number.
#[derive(Clone, Copy, Debug, PartialEq, Eq, Structural)]
pub enum Scaled {
    /// It is none.
    NoNumber,
    /// A number of this size, in the units asked for.
    Of { negative: bool, size: u128 },
    /// A number of a larger size than was asked for.
    TooLarge { negative: bool },
}

/// A value shifted up by `places`, if it is at most `limit`.
fn shift_by(value_read: u128, places: u128, limit: u128) -> (r: Option<u128>)
    requires
        value_read <= limit <= 100_000_000_000_000_000_000,
    ensures
        r == (if value_read * ten(places as int) <= limit {
            Some((value_read * ten(places as int)) as u128)
        } else {
            None
        }),
{
    let ghost target = value_read * ten(places as int);
    let mut m: u128 = value_read;
    let mut left: u128 = places;
    while left > 0 && m > 0
        invariant
            m <= limit <= 100_000_000_000_000_000_000,
            target == value_read * ten(places as int),
            target == m * ten(left as int),
        decreases left,
    {
        proof {
            shift_up(m as int, left - 1);
        }
        m = m * 10;
        left = left - 1;
        if m > limit {
            proof {
                tens_are_positive(left as int);
                assert(m * ten(left as int) >= m) by (nonlinear_arith)
                    requires
                        ten(left as int) >= 1,
                        m >= 0,
                ;
            }
            return None;
        }
    }
    proof {
        if m == 0 {
            assert(0 * ten(left as int) == 0) by (nonlinear_arith);
        } else {
            assert(m * ten(0) == m);
        }
    }
    Some(m)
}

/// What is left of a number without its last `q` digits, if it is at most
/// `limit`.
fn read_leading(
    s: &Vec<char>,
    from: usize,
    whole: usize,
    fraction: usize,
    end: usize,
    q: u128,
    limit: u128,
) -> (r: Option<u128>)
    requires
        digits_stand(
            s@,
            (Places {
                from: from as int,
                whole: whole as int,
                fraction: fraction as int,
                end: end as int,
            }),
        ),
        limit < MAX_LIMIT,
    ensures
        ({
            let p = Places {
                from: from as int,
                whole: whole as int,
                fraction: fraction as int,
                end: end as int,
            };
            r == (if leading(s@, p, q as int) <= limit {
                Some(leading(s@, p, q as int) as u128)
            } else {
                None
            })
        }),
{
    let f: usize = end - fraction;
    proof {
        values_grow(s@, 0, from as int, whole as int);
    }
    if q <= f as u128 {
        let to: usize = end - q as usize;
        proof {
            values_grow(
                s@,
                value(s@, 0, from as int, whole as int),
                fraction as int,
                to as int,
            );
        }
        match read_digits(s, 0, from, whole, limit + 1) {
            Some(head) => read_digits(s, head, fraction, to, limit + 1),
            None => None,
        }
    } else {
        let rest: u128 = q - f as u128;
        if rest <= (whole - from) as u128 {
            let to: usize = whole - rest as usize;
            proof {
                values_grow(s@, 0, from as int, to as int);
            }
            read_digits(s, 0, from, to, limit + 1)
        } else {
            Some(0)
        }
    }
}

/// The size of a number of which the digits and the exponent are known, if it is
/// at most `limit`.
fn scale(
    s: &Vec<char>,
    from: usize,
    whole: usize,
    fraction: usize,
    end: usize,
    exponent: (bool, Option<u128>),
    places: i64,
    limit: u128,
    Ghost(e): Ghost<int>,
) -> (r: Option<u128>)
    requires
        digits_stand(
            s@,
            (Places {
                from: from as int,
                whole: whole as int,
                fraction: fraction as int,
                end: end as int,
            }),
        ),
        -40 <= places <= 40,
        limit <= 100_000_000_000_000_000_000,
        match exponent {
            (negative, Some(size)) => size <= FAR_EXPONENT && e == (if negative {
                -(size as int)
            } else {
                size as int
            }),
            (negative, None) => if negative {
                e <= -FAR_EXPONENT
            } else {
                e >= FAR_EXPONENT
            },
        },
    ensures
        ({
            let p = Places {
                from: from as int,
                whole: whole as int,
                fraction: fraction as int,
                end: end as int,
            };
            let n = shifted(mantissa_at(s@, p), e + fraction - end + places);
            r == (if n <= limit {
                Some(n as u128)
            } else {
                None
            })
        }),
{
    let ghost p = Places {
        from: from as int,
        whole: whole as int,
        fraction: fraction as int,
        end: end as int,
    };
    let ghost m = mantissa_at(s@, p);
    let ghost up = e + fraction - end + places;
    proof {
        leading_digits_are_what_is_left(s@, p, 0);
        assert(m / 1 == m);
    }
    let total: i128 = match exponent {
        (negative, Some(size)) => {
            let by: i128 = size as i128;
            (if negative {
                -by
            } else {
                by
            }) + places as i128 - (end - fraction) as i128
        },
        (negative, None) => {
            if negative {
                proof {
                    leading_digits_are_what_is_left(s@, p, -up);
                }
                return Some(0);
            }
            return match read_leading(s, from, whole, fraction, end, 0, limit) {
                Some(v) => if v == 0 {
                    proof {
                        assert(0 * ten(up) == 0) by (nonlinear_arith);
                    }
                    Some(0)
                } else {
                    proof {
                        far_is_large(m, up, limit as int);
                    }
                    None
                },
                None => {
                    proof {
                        far_is_large(m, up, limit as int);
                    }
                    None
                },
            };
        },
    };
    if total >= 0 {
        match read_leading(s, from, whole, fraction, end, 0, limit) {
            Some(v) => shift_by(v, total as u128, limit),
            None => {
                proof {
                    tens_are_positive(up);
                    assert(m * ten(up) >= m) by (nonlinear_arith)
                        requires
                            m >= 0,
                            ten(up) >= 1,
                    ;
                }
                None
            },
        }
    } else {
        proof {
            leading_digits_are_what_is_left(s@, p, -up);
        }
        read_leading(s, from, whole, fraction, end, (-total) as u128, limit)
    }
}

proof fn far_is_large(m: int, up: int, limit: int)
    requires
        m >= 1,
        up >= limit,
        limit >= 0,
    ensures
        shifted(m, up) > limit,
{
    tens_outgrow(up);
    assert(m * ten(up) >= ten(up)) by (nonlinear_arith)
        requires
            m >= 1,
            ten(up) >= 0,
    ;
}

/// The number that a text is, in units of ten to the power of minus `places`.
fn read_scaled(text: &str, places: i64, limit: u128) -> (r: Scaled)
    requires
        -40 <= places <= 40,
        limit <= 100_000_000_000_000_000_000,
    ensures
        match decimal_of(text@) {
            Some(d) => {
                let n = shifted(d.mantissa, d.exponent + places);
                &&& n >= 0
                &&& if n <= limit {
                    r == (Scaled::Of { negative: d.negative, size: n as u128 })
                } else {
                    r == (Scaled::TooLarge { negative: d.negative })
                }
            },
            None => r is NoNumber,
        },
{
    let s: Vec<char> = chars_of(text);
    let negative: bool = s.len() > 0 && s[0] == '-';
    let signed: bool = s.len() > 0 && (s[0] == '-' || s[0] == '+');
    let from: usize = if signed {
        1
    } else {
        0
    };
    let whole: usize = end_of_digits(&s, from);
    let point: bool = whole < s.len() && s[whole] == '.';
    let fraction: usize = if point {
        whole + 1
    } else {
        whole
    };
    let end: usize = if point {
        end_of_digits(&s, fraction)
    } else {
        whole
    };
    if from == whole && fraction == end {
        return Scaled::NoNumber;
    }
    let ghost p = Places {
        from: from as int,
        whole: whole as int,
        fraction: fraction as int,
        end: end as int,
    };
    let ghost d = decimal_of(s@);
    let exponent: (bool, Option<u128>) = if end == s.len() {
        (false, Some(0))
    } else if s[end] == 'e' || s[end] == 'E' {
        match read_exponent(&s, end) {
            Some(e) => e,
            None => return Scaled::NoNumber,
        }
    } else {
        return Scaled::NoNumber;
    };
    let ghost e = d->0.exponent - (fraction - end);
    proof {
        assert(d->0.mantissa == mantissa_at(s@, p));
        leading_digits_are_what_is_left(s@, p, 0);
        shifting_keeps_the_sign(d->0.mantissa, d->0.exponent + places);
    }
    match scale(&s, from, whole, fraction, end, exponent, places, limit, Ghost(e)) {
        Some(size) => Scaled::Of { negative, size },
        None => Scaled::TooLarge { negative },
    }
}

/// The amount that a text is, in units of ten to the power of minus `places`.
pub fn read_amount(text: &str, places: i64) -> (r: Option<i64>)
    requires
        -40 <= places <= 40,
    ensures
        match (r, amount_of(text@, places as int)) {
            (Some(a), Some(b)) => a == b,
            (None, None) => true,
            _ => false,
        },
{
    match read_scaled(text, places, 9_223_372_036_854_775_808) {
        Scaled::Of { negative, size } => if negative {
            if size == 9_223_372_036_854_775_808 {
                Some(i64::MIN)
            } else {
                Some(-(size as i64))
            }
        } else if size == 9_223_372_036_854_775_808 {
            None
        } else {
            Some(size as i64)
        },
        _ => None,
    }
}

/// Whether a text is a number over ten billion in magnitude.
pub open spec fn is_huge(s: Seq<char>) -> bool {
    decimal_of(s) matches Some(d) && magnitude(in_units(d, 9)) > 10_000_000_000_000_000_000
}

/// Whether a text is a number over ten billion in magnitude.
pub fn huge(text: &str) -> (r: bool)
    ensures
        r == is_huge(text@),
{
    match read_scaled(text, 9, 10_000_000_000_000_000_000) {
        Scaled::TooLarge { .. } => true,
        _ => false,
    }
}

/// The amount that a text is, in billionths.
pub fn read_nanos(text: &str) -> (r: Option<i64>)
    ensures
        match (r, amount_of(text@, 9)) {
            (Some(a), Some(b)) => a == b,
            (None, None) => true,
            _ => false,
        },
{
    read_amount(text, 9)
}

/// The whole number that a text is: digits after an optional sign, within an
/// `i64`.
pub open spec fn whole_of(s: Seq<char>) -> Option<int> {
    let from = after_sign(s, 0);
    let v = value(s, 0, from, s.len() as int);
    let n = if minus_at(s, 0) {
        -v
    } else {
        v
    };
    if from < s.len() && digits_end(s, from) == s.len() && i64::MIN <= n <= i64::MAX {
        Some(n)
    } else {
        None
    }
}

/// The whole number that a text is.
pub fn read_whole(text: &str) -> (r: Option<i64>)
    ensures
        match (r, whole_of(text@)) {
            (Some(a), Some(b)) => a == b,
            (None, None) => true,
            _ => false,
        },
{
    let s: Vec<char> = chars_of(text);
    let negative: bool = s.len() > 0 && s[0] == '-';
    let signed: bool = s.len() > 0 && (s[0] == '-' || s[0] == '+');
    let from: usize = if signed {
        1
    } else {
        0
    };
    if from == s.len() || end_of_digits(&s, from) != s.len() {
        return None;
    }
    proof {
        values_grow(s@, 0, from as int, s@.len() as int);
    }
    match read_digits(&s, 0, from, s.len(), 9_223_372_036_854_775_809) {
        Some(v) => if negative {
            if v == 9_223_372_036_854_775_808 {
                Some(i64::MIN)
            } else {
                Some(-(v as i64))
            }
        } else if v == 9_223_372_036_854_775_808 {
            None
        } else {
            Some(v as i64)
        },
        None => None,
    }
}

/// A whole number is read from its own text.
pub proof fn a_number_is_read_from_its_text(n: int)
    requires
        i64::MIN <= n <= i64::MAX,
    ensures
        whole_of(crate::text::number_text(n)) == Some(n),
{
    let m = if n < 0 {
        -n
    } else {
        n
    };
    let d = crate::text::digits_of(m);
    digits_have_their_value(m);
    if n < 0 {
        let s = seq!['-'] + d;
        assert(s[0] == '-');
        all_digits_end(s, 1);
        values_of_a_tail(s, d, 0, 0, d.len() as int, 1);
    } else {
        assert(is_digit(d[0]));
        all_digits_end(d, 0);
    }
}

proof fn digits_have_their_value(n: int)
    requires
        n >= 0,
    ensures
        ({
            let d = crate::text::digits_of(n);
            &&& d.len() >= 1
            &&& forall|k: int| 0 <= k < d.len() ==> is_digit(#[trigger] d[k])
            &&& value(d, 0, 0, d.len() as int) == n
        }),
    decreases n,
{
    let d = crate::text::digits_of(n);
    if n < 10 {
        assert(value(d, n, 1, 1) == n);
    } else {
        digits_have_their_value(n / 10);
        let head = crate::text::digits_of(n / 10);
        assert forall|k: int| 0 <= k < d.len() implies is_digit(#[trigger] d[k]) by {
            if k < head.len() {
                assert(d[k] == head[k]);
            }
        }
        value_of_a_push(head, d, 0, 0);
    }
}

proof fn value_of_a_push(head: Seq<char>, all: Seq<char>, before: int, from: int)
    requires
        all.len() == head.len() + 1,
        forall|k: int| 0 <= k < head.len() ==> #[trigger] all[k] == head[k],
        0 <= from <= head.len(),
    ensures
        value(all, before, from, all.len() as int) == value(
            head,
            before,
            from,
            head.len() as int,
        ) * 10 + (all[all.len() - 1] as int - 48),
    decreases head.len() - from,
{
    if from < head.len() {
        assert(all[from] == head[from]);
        value_of_a_push(head, all, before * 10 + (head[from] as int - 48), from + 1);
    } else {
        let last = all[all.len() - 1] as int - 48;
        assert(value(all, before * 10 + last, from + 1, all.len() as int) == before * 10 + last);
    }
}

proof fn all_digits_end(s: Seq<char>, i: int)
    requires
        0 <= i <= s.len(),
        forall|k: int| i <= k < s.len() ==> is_digit(#[trigger] s[k]),
    ensures
        digits_end(s, i) == s.len(),
    decreases s.len() - i,
{
    if i < s.len() {
        assert(is_digit(s[i]));
        all_digits_end(s, i + 1);
    }
}

proof fn values_of_a_tail(
    all: Seq<char>,
    part: Seq<char>,
    before: int,
    from: int,
    to: int,
    shift: int,
)
    requires
        0 <= from <= to <= part.len(),
        shift >= 0,
        all.len() >= part.len() + shift,
        forall|k: int| 0 <= k < part.len() ==> all[k + shift] == #[trigger] part[k],
    ensures
        value(all, before, from + shift, to + shift) == value(part, before, from, to),
    decreases to - from,
{
    if from < to {
        assert(all[from + shift] == part[from]);
        values_of_a_tail(
            all,
            part,
            before * 10 + (part[from] as int - 48),
            from + 1,
            to,
            shift,
        );
    }
}

} // verus!
