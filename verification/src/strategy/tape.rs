//! Time-ordered price tapes and what was known on them at a given time.
//!
//! A price tape holds `(t, price)` points, an ask tape `(t, up, down)` quotes.
//! A look-up reads a tape from its start and stops at the first point that is
//! too late, so on a tape in time order it sees exactly what was known by then.
use vstd::prelude::*;
use crate::units::{ask_ok, price_ok, time_ok};
use super::sides::PositionSide;

verus! {

/// Largest ask that counts as a quote.
pub const MAX_VALID_ASK: i64 = 1_500_000_000;

/// How many leading points of a price tape, from `i` on, are at or before `t`,
/// counted from the start of the tape.
pub open spec fn price_head(tape: Seq<(i64, i64)>, t: int, i: int) -> int
    decreases tape.len() - i,
{
    if 0 <= i < tape.len() && tape[i].0 <= t {
        price_head(tape, t, i + 1)
    } else {
        i
    }
}

/// The price known at `t`.
pub open spec fn price_known(tape: Seq<(i64, i64)>, t: int) -> Option<i64> {
    let n = price_head(tape, t, 0);
    if n <= 0 {
        None
    } else {
        Some(tape[n - 1].1)
    }
}

/// The ask of one side in a quote.
pub open spec fn quote_side(quote: (i64, i64, i64), side: PositionSide) -> i64 {
    match side {
        PositionSide::Up => quote.1,
        PositionSide::Down => quote.2,
    }
}

/// Whether an ask counts as a quote.
pub open spec fn valid_ask(ask: int) -> bool {
    0 < ask <= MAX_VALID_ASK
}

/// How many leading quotes of an ask tape, from `i` on, are at or before `t`,
/// counted from the start of the tape.
pub open spec fn ask_head(tape: Seq<(i64, i64, i64)>, t: int, i: int) -> int
    decreases tape.len() - i,
{
    if 0 <= i < tape.len() && tape[i].0 <= t {
        ask_head(tape, t, i + 1)
    } else {
        i
    }
}

/// The last valid ask of a side among the first `n` quotes.
pub open spec fn last_valid(tape: Seq<(i64, i64, i64)>, side: PositionSide, n: int) -> Option<i64>
    decreases n,
{
    if n <= 0 {
        None
    } else if valid_ask(quote_side(tape[n - 1], side) as int) {
        Some(quote_side(tape[n - 1], side))
    } else {
        last_valid(tape, side, n - 1)
    }
}

/// The ask of a side known at `t`: the last valid one at or before `t`.
pub open spec fn ask_known(tape: Seq<(i64, i64, i64)>, t: int, side: PositionSide) -> Option<i64> {
    last_valid(tape, side, ask_head(tape, t, 0))
}

/// A price tape that the arithmetic on it has room for.
pub open spec fn price_tape_ok(tape: Seq<(i64, i64)>) -> bool {
    forall|i: int|
        0 <= i < tape.len() ==> price_ok((#[trigger] tape[i]).1 as int) && time_ok(tape[i].0 as int)
}

/// An ask tape that the arithmetic on it has room for.
pub open spec fn ask_tape_ok(tape: Seq<(i64, i64, i64)>) -> bool {
    forall|i: int|
        0 <= i < tape.len() ==> ask_ok((#[trigger] tape[i]).1 as int) && ask_ok(tape[i].2 as int)
            && time_ok(tape[i].0 as int)
}

/// The ask of one side in a quote.
pub fn side_ask(side: PositionSide, up: i64, down: i64) -> (r: i64)
    ensures
        r == quote_side((0, up, down), side),
{
    match side {
        PositionSide::Up => up,
        PositionSide::Down => down,
    }
}

/// The price known at `t`.
pub fn px_at(series: &[(i64, i64)], t: i64) -> (r: Option<i64>)
    ensures
        r == price_known(series@, t as int),
{
    let mut i: usize = 0;
    while i < series.len() && series[i].0 <= t
        invariant
            i <= series.len(),
            price_head(series@, t as int, i as int) == price_head(series@, t as int, 0),
        decreases series.len() - i,
    {
        i = i + 1;
    }
    if i == 0 {
        None
    } else {
        Some(series[i - 1].1)
    }
}

/// The ask of a side known at `t`.
pub fn ask_at(asks: &[(i64, i64, i64)], t: i64, side: PositionSide) -> (r: Option<i64>)
    ensures
        r == ask_known(asks@, t as int, side),
{
    let mut found: Option<i64> = None;
    let mut i: usize = 0;
    while i < asks.len() && asks[i].0 <= t
        invariant
            i <= asks.len(),
            ask_head(asks@, t as int, i as int) == ask_head(asks@, t as int, 0),
            found == last_valid(asks@, side, i as int),
        decreases asks.len() - i,
    {
        let px: i64 = side_ask(side, asks[i].1, asks[i].2);
        if px > 0 && px <= MAX_VALID_ASK {
            found = Some(px);
        }
        i = i + 1;
    }
    found
}

/// The ask of a side known strictly before `t`.
pub fn ask_before(asks: &[(i64, i64, i64)], t: i64, side: PositionSide) -> (r: Option<i64>)
    ensures
        r == ask_known(asks@, t - 1, side),
{
    let mut found: Option<i64> = None;
    let mut i: usize = 0;
    while i < asks.len() && asks[i].0 < t
        invariant
            i <= asks.len(),
            ask_head(asks@, t - 1, i as int) == ask_head(asks@, t - 1, 0),
            found == last_valid(asks@, side, i as int),
        decreases asks.len() - i,
    {
        let px: i64 = side_ask(side, asks[i].1, asks[i].2);
        if px > 0 && px <= MAX_VALID_ASK {
            found = Some(px);
        }
        i = i + 1;
    }
    found
}

/// The number of leading points is a position on the tape, every point before
/// it is in time, and the point at it is too late.
pub proof fn price_head_is_the_longest_timely_prefix(tape: Seq<(i64, i64)>, t: int, i: int)
    requires
        0 <= i <= tape.len(),
    ensures
        i <= price_head(tape, t, i) <= tape.len(),
        forall|k: int| i <= k < price_head(tape, t, i) ==> (#[trigger] tape[k]).0 <= t,
        price_head(tape, t, i) < tape.len() ==> tape[price_head(tape, t, i)].0 > t,
    decreases tape.len() - i,
{
    if i < tape.len() && tape[i].0 <= t {
        price_head_is_the_longest_timely_prefix(tape, t, i + 1);
    }
}

/// The number of leading quotes is a position on the tape, every quote before
/// it is in time, and the quote at it is too late.
pub proof fn ask_head_is_the_longest_timely_prefix(tape: Seq<(i64, i64, i64)>, t: int, i: int)
    requires
        0 <= i <= tape.len(),
    ensures
        i <= ask_head(tape, t, i) <= tape.len(),
        forall|k: int| i <= k < ask_head(tape, t, i) ==> (#[trigger] tape[k]).0 <= t,
        ask_head(tape, t, i) < tape.len() ==> tape[ask_head(tape, t, i)].0 > t,
    decreases tape.len() - i,
{
    if i < tape.len() && tape[i].0 <= t {
        ask_head_is_the_longest_timely_prefix(tape, t, i + 1);
    }
}

/// A price that is known at some time is on the tape, at a time that is not
/// later.
pub proof fn known_price_is_on_the_tape(tape: Seq<(i64, i64)>, t: int)
    ensures
        price_known(tape, t) matches Some(px) ==> exists|k: int|
            0 <= k < tape.len() && (#[trigger] tape[k]).1 == px && tape[k].0 <= t,
{
    price_head_is_the_longest_timely_prefix(tape, t, 0);
    let n = price_head(tape, t, 0);
    if n > 0 {
        assert(tape[n - 1].0 <= t);
    }
}

/// A known price is within the limits of its tape.
pub proof fn known_price_is_ok(tape: Seq<(i64, i64)>, t: int)
    requires
        price_tape_ok(tape),
    ensures
        price_known(tape, t) matches Some(px) ==> price_ok(px as int),
{
    known_price_is_on_the_tape(tape, t);
}

/// The last valid ask of a side is valid, and stands in one of the quotes.
pub proof fn last_valid_is_valid(tape: Seq<(i64, i64, i64)>, side: PositionSide, n: int)
    requires
        n <= tape.len(),
    ensures
        last_valid(tape, side, n) matches Some(ask) ==> valid_ask(ask as int) && exists|k: int|
            0 <= k < n && quote_side(#[trigger] tape[k], side) == ask,
    decreases n,
{
    if n > 0 {
        last_valid_is_valid(tape, side, n - 1);
        assert(quote_side(tape[n - 1], side) == quote_side(tape[n - 1], side));
    }
}

/// A known ask is a valid quote.
pub proof fn known_ask_is_valid(tape: Seq<(i64, i64, i64)>, t: int, side: PositionSide)
    ensures
        ask_known(tape, t, side) matches Some(ask) ==> valid_ask(ask as int),
{
    ask_head_is_the_longest_timely_prefix(tape, t, 0);
    last_valid_is_valid(tape, side, ask_head(tape, t, 0));
}

/// What is known of a price at `t` depends on nothing later than `t`: cutting
/// a tape anywhere after its last timely point changes nothing.
pub proof fn price_look_up_is_causal(tape: Seq<(i64, i64)>, n: int, t: int)
    requires
        0 <= n <= tape.len(),
        n < tape.len() ==> tape[n].0 > t,
    ensures
        price_known(tape.take(n), t) == price_known(tape, t),
{
    price_head_of_a_cut_tape(tape, n, t, 0);
    price_head_is_the_longest_timely_prefix(tape, t, 0);
}

proof fn price_head_of_a_cut_tape(tape: Seq<(i64, i64)>, n: int, t: int, i: int)
    requires
        0 <= i <= n <= tape.len(),
        n < tape.len() ==> tape[n].0 > t,
    ensures
        price_head(tape.take(n), t, i) == price_head(tape, t, i),
    decreases n - i,
{
    if i < n && tape[i].0 <= t {
        price_head_of_a_cut_tape(tape, n, t, i + 1);
    }
}

/// What is known of an ask at `t` depends on nothing later than `t`.
pub proof fn ask_look_up_is_causal(
    tape: Seq<(i64, i64, i64)>,
    n: int,
    t: int,
    side: PositionSide,
)
    requires
        0 <= n <= tape.len(),
        n < tape.len() ==> tape[n].0 > t,
    ensures
        ask_known(tape.take(n), t, side) == ask_known(tape, t, side),
{
    ask_head_of_a_cut_tape(tape, n, t, 0);
    ask_head_is_the_longest_timely_prefix(tape.take(n), t, 0);
    last_valid_of_a_cut_tape(tape, n, side, ask_head(tape, t, 0));
}

proof fn ask_head_of_a_cut_tape(tape: Seq<(i64, i64, i64)>, n: int, t: int, i: int)
    requires
        0 <= i <= n <= tape.len(),
        n < tape.len() ==> tape[n].0 > t,
    ensures
        ask_head(tape.take(n), t, i) == ask_head(tape, t, i),
    decreases n - i,
{
    if i < n && tape[i].0 <= t {
        ask_head_of_a_cut_tape(tape, n, t, i + 1);
    }
}

proof fn last_valid_of_a_cut_tape(tape: Seq<(i64, i64, i64)>, n: int, side: PositionSide, k: int)
    requires
        0 <= n <= tape.len(),
        k <= n,
    ensures
        last_valid(tape.take(n), side, k) == last_valid(tape, side, k),
    decreases k,
{
    if k > 0 {
        last_valid_of_a_cut_tape(tape, n, side, k - 1);
    }
}

/// On a tape in time order, the last point at or before `t` is what is known
/// at `t`.
pub proof fn look_up_on_an_ordered_tape(tape: Seq<(i64, i64)>, t: int, k: int)
    requires
        0 <= k < tape.len(),
        forall|i: int, j: int| 0 <= i <= j < tape.len() ==> (#[trigger] tape[i]).0 <= (
        #[trigger] tape[j]).0,
        tape[k].0 <= t,
        k + 1 < tape.len() ==> tape[k + 1].0 > t,
    ensures
        price_known(tape, t) == Some(tape[k].1),
{
    price_head_is_the_longest_timely_prefix(tape, t, 0);
    let n = price_head(tape, t, 0);
    if n <= k {
        assert(tape[n].0 <= tape[k].0);
    }
    if n > k + 1 {
        assert(tape[k + 1].0 <= t);
    }
}

} // verus!
