//! Zigzag detector of major swings on a tape of price deltas.
//!
//! The tape is sampled on a grid, reduced to confirmed extremes, thinned to
//! major extremes that alternate, and filtered for those that can be traded: a
//! peak is a signal for DOWN, a trough a signal for UP.
use vstd::prelude::*;
use crate::units::{abs, magnitude, time_ok, MAX_MS, MAX_PRICE};
use super::sides::PositionSide;
use super::tape::{
    ask_at, ask_known, known_ask_is_valid, known_price_is_on_the_tape, price_known, px_at,
    valid_ask,
};

verus! {

/// Distance of the sampling grid.
pub const GRID_MS: i64 = 250;

/// Margin that the grid keeps from both ends of the window.
pub const GRID_MARGIN_MS: i64 = 800;

/// Fewest grid points that swings are looked for on.
pub const MIN_GRID_POINTS: usize = 8;

/// Distance between major swings.
pub const MIN_SWING_USD: i64 = 40_000_000_000;

/// Distance that a bridge keeps from the extreme before it (0.55 swings).
pub const BRIDGE_USD: i64 = 22_000_000_000;

/// Distance that waives the level of a swing (1.15 swings).
pub const BIG_SWING_USD: i64 = 46_000_000_000;

/// Pullback that confirms an extreme.
pub const CONFIRM_USD: i64 = 10_000_000_000;

/// Lowest ask that is traded.
pub const MIN_ASK: i64 = 40_000_000;

/// Lowest standalone peak.
pub const MIN_PEAK_DELTA: i64 = 40_000_000_000;

/// Highest standalone trough.
pub const MAX_TROUGH_DELTA: i64 = 52_000_000_000;

/// Time before the close after which nothing is opened.
pub const MIN_LEFT_MS: i64 = 10_000;

/// Kind of an extreme.
#[derive(Clone, Copy, Debug, PartialEq, Eq, Structural)]
pub enum ExtKind {
    Peak,
    Trough,
}

/// An extreme of a delta tape.
#[derive(Clone, Copy, Debug, PartialEq, Eq, Structural)]
pub struct Extreme {
    pub t: i64,
    pub d: i64,
    pub kind: ExtKind,
}

/// An extreme that can be traded, with the token that it is a signal for and
/// that token's ask.
#[derive(Clone, Copy, Debug, PartialEq, Eq, Structural)]
pub struct Swing {
    pub t: i64,
    pub d: i64,
    pub kind: ExtKind,
    pub side: PositionSide,
    pub ask: i64,
}

/// A delta whose distance from any other can be computed.
pub open spec fn delta_ok(d: int) -> bool {
    -2 * MAX_PRICE <= d <= 2 * MAX_PRICE
}

/// A tape of deltas that the detector has room for.
pub open spec fn delta_tape_ok(tape: Seq<(i64, i64)>) -> bool {
    forall|i: int|
        0 <= i < tape.len() ==> delta_ok((#[trigger] tape[i]).1 as int) && time_ok(tape[i].0 as int)
}

/// What is known at the times `t`, `t + step`, ... before `until`.
pub open spec fn sampled(tape: Seq<(i64, i64)>, t: int, until: int, step: int) -> Seq<(i64, i64)>
    decreases (if t < until { until - t } else { 0 }),
{
    if t >= until || step <= 0 {
        Seq::empty()
    } else {
        match price_known(tape, t) {
            Some(d) => seq![(t as i64, d)] + sampled(tape, t + step, until, step),
            None => sampled(tape, t + step, until, step),
        }
    }
}

/// The state of a hunt for extremes: what is hunted, the best point since the
/// last confirmation, and what has been confirmed.
pub struct Hunt {
    pub hunting: ExtKind,
    pub best: (i64, i64),
    pub found: Seq<Extreme>,
}

/// An extreme at a grid point.
pub open spec fn extreme_at(point: (i64, i64), kind: ExtKind) -> Extreme {
    Extreme { t: point.0, d: point.1, kind }
}

/// The hunt after one more grid point.
pub open spec fn hunt_step(h: Hunt, g: (i64, i64)) -> Hunt {
    match h.hunting {
        ExtKind::Peak => if g.1 >= h.best.1 {
            Hunt { best: g, ..h }
        } else if h.best.1 - g.1 >= CONFIRM_USD {
            Hunt {
                hunting: ExtKind::Trough,
                best: g,
                found: h.found.push(extreme_at(h.best, ExtKind::Peak)),
            }
        } else {
            h
        },
        ExtKind::Trough => if g.1 <= h.best.1 {
            Hunt { best: g, ..h }
        } else if g.1 - h.best.1 >= CONFIRM_USD {
            Hunt {
                hunting: ExtKind::Peak,
                best: g,
                found: h.found.push(extreme_at(h.best, ExtKind::Trough)),
            }
        } else {
            h
        },
    }
}

/// The hunt after the first `n` grid points.  It starts for a peak from a
/// first point that is not below zero, for a trough from one that is.
pub open spec fn hunt(grid: Seq<(i64, i64)>, n: int) -> Hunt
    decreases n,
{
    if n <= 0 {
        Hunt {
            hunting: if grid[0].1 >= 0 {
                ExtKind::Peak
            } else {
                ExtKind::Trough
            },
            best: grid[0],
            found: Seq::empty(),
        }
    } else {
        hunt_step(hunt(grid, n - 1), grid[n - 1])
    }
}

/// The confirmed extremes of a grid.
pub open spec fn confirmed(grid: Seq<(i64, i64)>) -> Seq<Extreme> {
    if grid.len() < MIN_GRID_POINTS {
        Seq::empty()
    } else {
        hunt(grid, grid.len() as int).found
    }
}

/// Whether `a` reaches at least as far as `b` in its own direction.
pub open spec fn reaches(a: Extreme, b: Extreme) -> bool {
    match a.kind {
        ExtKind::Peak => a.d >= b.d,
        ExtKind::Trough => a.d <= b.d,
    }
}

/// The distance between two deltas.
pub open spec fn apart(a: int, b: int) -> int {
    magnitude(a - b)
}

/// The furthest-reaching extreme of another kind than `kind` among positions
/// `lo..hi`, the latest one if several reach as far.
pub open spec fn furthest_between(raw: Seq<Extreme>, lo: int, hi: int, kind: ExtKind) -> Option<
    Extreme,
>
    decreases hi - lo,
{
    if hi <= lo {
        None
    } else {
        let before = furthest_between(raw, lo, hi - 1, kind);
        let b = raw[hi - 1];
        if b.kind == kind {
            before
        } else {
            match before {
                None => Some(b),
                Some(cur) => if reaches(b, cur) {
                    Some(b)
                } else {
                    before
                },
            }
        }
    }
}

/// The major extremes kept so far, and the position of the last of them among
/// the confirmed ones.
pub struct Majors {
    pub kept: Seq<Extreme>,
    pub last: int,
}

/// Whether `bridge` links `prev` to a later extreme `e` of the same kind.
pub open spec fn bridges(prev: Extreme, bridge: Option<Extreme>, e: Extreme) -> bool {
    match bridge {
        Some(b) => apart(b.d as int, prev.d as int) >= BRIDGE_USD && apart(e.d as int, b.d as int)
            >= MIN_SWING_USD,
        None => false,
    }
}

/// Whether the last of the kept extremes ends a full swing.
pub open spec fn ends_full_swing(kept: Seq<Extreme>) -> bool {
    kept.len() >= 2 && apart(kept[kept.len() - 1].d as int, kept[kept.len() - 2].d as int)
        >= MIN_SWING_USD
}

/// The major extremes after the confirmed extreme at position `i`.
pub open spec fn majors_step(raw: Seq<Extreme>, m: Majors, i: int) -> Majors {
    let e = raw[i];
    let replaced = Majors { kept: m.kept.update(m.kept.len() - 1, e), last: i };
    if m.kept.len() == 0 {
        Majors { kept: m.kept.push(e), last: i }
    } else {
        let prev = m.kept[m.kept.len() - 1];
        let bridge = furthest_between(raw, m.last + 1, i, e.kind);
        if prev.kind != e.kind {
            if apart(e.d as int, prev.d as int) >= MIN_SWING_USD {
                Majors { kept: m.kept.push(e), last: i }
            } else {
                m
            }
        } else if i == m.last + 1 {
            if reaches(e, prev) {
                replaced
            } else {
                m
            }
        } else if bridges(prev, bridge, e) {
            Majors { kept: m.kept.push(bridge->0).push(e), last: i }
        } else if !reaches(e, prev) {
            m
        } else if e.kind == ExtKind::Trough && ends_full_swing(m.kept) {
            m
        } else {
            replaced
        }
    }
}

/// The major extremes among the first `n` confirmed ones.
pub open spec fn majors(raw: Seq<Extreme>, n: int) -> Majors
    decreases n,
{
    if n <= 0 {
        Majors { kept: Seq::empty(), last: -1 }
    } else {
        majors_step(raw, majors(raw, n - 1), n - 1)
    }
}

/// The token that an extreme is a signal for.
pub open spec fn signal_side(kind: ExtKind) -> PositionSide {
    match kind {
        ExtKind::Peak => PositionSide::Down,
        ExtKind::Trough => PositionSide::Up,
    }
}

/// Whether an extreme is far enough out to stand on its own.
pub open spec fn stands_alone(e: Extreme) -> bool {
    match e.kind {
        ExtKind::Peak => e.d >= MIN_PEAK_DELTA,
        ExtKind::Trough => e.d <= MAX_TROUGH_DELTA,
    }
}

/// Whether an extreme is traded after the swings `out`, given its token's ask.
pub open spec fn tradable(out: Seq<Swing>, e: Extreme, ask: Option<i64>, market_end: int) -> bool {
    &&& ask matches Some(a) && a >= MIN_ASK
    &&& market_end - e.t >= MIN_LEFT_MS
    &&& if out.len() == 0 {
        stands_alone(e)
    } else {
        let last = out[out.len() - 1];
        &&& last.kind != e.kind
        &&& apart(e.d as int, last.d as int) >= MIN_SWING_USD
        &&& stands_alone(e) || apart(e.d as int, last.d as int) >= BIG_SWING_USD
    }
}

/// The swing of an extreme.
pub open spec fn swing_of(e: Extreme, ask: Option<i64>) -> Swing {
    Swing { t: e.t, d: e.d, kind: e.kind, side: signal_side(e.kind), ask: ask->0 }
}

/// The swings among the first `n` major extremes.
pub open spec fn traded(
    major: Seq<Extreme>,
    asks: Seq<(i64, i64, i64)>,
    market_end: int,
    n: int,
) -> Seq<Swing>
    decreases n,
{
    if n <= 0 {
        Seq::empty()
    } else {
        let out = traded(major, asks, market_end, n - 1);
        let e = major[n - 1];
        let ask = ask_known(asks, e.t as int, signal_side(e.kind));
        if tradable(out, e, ask, market_end) {
            out.push(swing_of(e, ask))
        } else {
            out
        }
    }
}

/// The swings of a tape of deltas over a window.
pub open spec fn swings_of(
    tape: Seq<(i64, i64)>,
    asks: Seq<(i64, i64, i64)>,
    open_ms: int,
    end_ms: int,
    market_end: int,
) -> Seq<Swing> {
    let grid = sampled(tape, open_ms + GRID_MARGIN_MS, end_ms - GRID_MARGIN_MS, GRID_MS as int);
    let raw = confirmed(grid);
    let major = majors(raw, raw.len() as int).kept;
    traded(major, asks, market_end, major.len() as int)
}

/// What is known at the times `from`, `from + step`, ... before `until`.
pub fn sample(tape: &[(i64, i64)], from: i64, until: i64, step: i64) -> (r: Vec<(i64, i64)>)
    requires
        time_ok(from as int) || from <= 2 * MAX_MS,
        until <= 2 * MAX_MS,
        0 < step <= MAX_MS,
    ensures
        r@ == sampled(tape@, from as int, until as int, step as int),
{
    let mut r: Vec<(i64, i64)> = Vec::new();
    let mut t: i64 = from;
    while t < until
        invariant
            t <= 3 * MAX_MS,
            until <= 2 * MAX_MS,
            0 < step <= MAX_MS,
            r@ + sampled(tape@, t as int, until as int, step as int) == sampled(
                tape@,
                from as int,
                until as int,
                step as int,
            ),
        decreases (if t < until { until - t } else { 0 }),
    {
        let known: Option<i64> = px_at(tape, t);
        let ghost rest = sampled(tape@, t + step, until as int, step as int);
        match known {
            Some(d) => {
                assert(r@ + (seq![(t, d)] + rest) =~= r@.push((t, d)) + rest);
                r.push((t, d));
            },
            None => {},
        }
        t = t + step;
    }
    assert(r@ + Seq::<(i64, i64)>::empty() =~= r@);
    r
}

/// The confirmed extremes of a grid.
pub fn zigzag(grid: &[(i64, i64)]) -> (r: Vec<Extreme>)
    requires
        delta_tape_ok(grid@),
    ensures
        r@ == confirmed(grid@),
{
    let mut found: Vec<Extreme> = Vec::new();
    if grid.len() < MIN_GRID_POINTS {
        return found;
    }
    let mut hunting: ExtKind = if grid[0].1 >= 0 {
        ExtKind::Peak
    } else {
        ExtKind::Trough
    };
    let mut best: (i64, i64) = grid[0];
    let mut i: usize = 0;
    while i < grid.len()
        invariant
            i <= grid.len(),
            delta_tape_ok(grid@),
            delta_ok(best.1 as int),
            (Hunt { hunting, best, found: found@ }) == hunt(grid@, i as int),
        decreases grid.len() - i,
    {
        let g: (i64, i64) = grid[i];
        match hunting {
            ExtKind::Peak => {
                if g.1 >= best.1 {
                    best = g;
                } else if best.1 - g.1 >= CONFIRM_USD {
                    found.push(Extreme { t: best.0, d: best.1, kind: ExtKind::Peak });
                    hunting = ExtKind::Trough;
                    best = g;
                }
            },
            ExtKind::Trough => {
                if g.1 <= best.1 {
                    best = g;
                } else if g.1 - best.1 >= CONFIRM_USD {
                    found.push(Extreme { t: best.0, d: best.1, kind: ExtKind::Trough });
                    hunting = ExtKind::Peak;
                    best = g;
                }
            },
        }
        i = i + 1;
    }
    found
}

/// Extremes that the detector has room for.
pub open spec fn extremes_ok(raw: Seq<Extreme>) -> bool {
    forall|i: int|
        0 <= i < raw.len() ==> delta_ok((#[trigger] raw[i]).d as int) && time_ok(raw[i].t as int)
}

fn reaches_as_far(a: Extreme, b: Extreme) -> (r: bool)
    ensures
        r == reaches(a, b),
{
    match a.kind {
        ExtKind::Peak => a.d >= b.d,
        ExtKind::Trough => a.d <= b.d,
    }
}

fn distance(a: i64, b: i64) -> (r: i64)
    requires
        delta_ok(a as int),
        delta_ok(b as int),
    ensures
        r == apart(a as int, b as int),
{
    abs(a - b)
}

fn furthest_opposite(raw: &[Extreme], lo: usize, hi: usize, kind: ExtKind) -> (r: Option<Extreme>)
    requires
        lo <= hi <= raw.len(),
    ensures
        r == furthest_between(raw@, lo as int, hi as int, kind),
{
    let mut best: Option<Extreme> = None;
    let mut j: usize = lo;
    while j < hi
        invariant
            lo <= j <= hi <= raw.len(),
            best == furthest_between(raw@, lo as int, j as int, kind),
        decreases hi - j,
    {
        let b: Extreme = raw[j];
        if b.kind != kind {
            match best {
                None => {
                    best = Some(b);
                },
                Some(cur) => {
                    if reaches_as_far(b, cur) {
                        best = Some(b);
                    }
                },
            }
        }
        j = j + 1;
    }
    best
}

proof fn furthest_between_is_one_of_them(raw: Seq<Extreme>, lo: int, hi: int, kind: ExtKind)
    requires
        0 <= lo,
        hi <= raw.len(),
    ensures
        furthest_between(raw, lo, hi, kind) matches Some(b) ==> b.kind != kind && exists|k: int|
            lo <= k < hi && #[trigger] raw[k] == b,
    decreases hi - lo,
{
    if hi > lo {
        furthest_between_is_one_of_them(raw, lo, hi - 1, kind);
        assert(raw[hi - 1] == raw[hi - 1]);
    }
}

/// The major extremes among the confirmed ones.
pub fn major_extremes(raw: &[Extreme]) -> (r: Vec<Extreme>)
    requires
        extremes_ok(raw@),
    ensures
        r@ == majors(raw@, raw@.len() as int).kept,
        extremes_ok(r@),
{
    let mut kept: Vec<Extreme> = Vec::new();
    let mut after_last: usize = 0;
    let mut i: usize = 0;
    while i < raw.len()
        invariant
            i <= raw.len(),
            after_last <= i,
            extremes_ok(raw@),
            extremes_ok(kept@),
            (Majors { kept: kept@, last: after_last - 1 }) == majors(raw@, i as int),
        decreases raw.len() - i,
    {
        let e: Extreme = raw[i];
        let n: usize = kept.len();
        if n == 0 {
            kept.push(e);
            after_last = i + 1;
        } else {
            let prev: Extreme = kept[n - 1];
            if prev.kind != e.kind {
                if distance(e.d, prev.d) >= MIN_SWING_USD {
                    kept.push(e);
                    after_last = i + 1;
                }
            } else if i == after_last {
                if reaches_as_far(e, prev) {
                    kept.set(n - 1, e);
                    after_last = i + 1;
                }
            } else {
                let bridge: Option<Extreme> = furthest_opposite(raw, after_last, i, e.kind);
                proof {
                    furthest_between_is_one_of_them(raw@, after_last as int, i as int, e.kind);
                }
                let bridged: bool = match bridge {
                    Some(b) => distance(b.d, prev.d) >= BRIDGE_USD && distance(e.d, b.d)
                        >= MIN_SWING_USD,
                    None => false,
                };
                if bridged {
                    match bridge {
                        Some(b) => {
                            kept.push(b);
                            kept.push(e);
                            after_last = i + 1;
                        },
                        None => {},
                    }
                } else if reaches_as_far(e, prev) {
                    let full: bool = n >= 2 && distance(prev.d, kept[n - 2].d) >= MIN_SWING_USD;
                    if !(e.kind == ExtKind::Trough && full) {
                        kept.set(n - 1, e);
                        after_last = i + 1;
                    }
                }
            }
        }
        i = i + 1;
    }
    kept
}

fn is_tradable(out: &Vec<Swing>, e: Extreme, ask: i64, market_end: i64) -> (r: bool)
    requires
        delta_ok(e.d as int),
        time_ok(e.t as int),
        time_ok(market_end as int),
        forall|i: int| 0 <= i < out.len() ==> delta_ok((#[trigger] out[i]).d as int),
    ensures
        r == tradable(out@, e, Some(ask), market_end as int),
{
    if ask < MIN_ASK || market_end - e.t < MIN_LEFT_MS {
        return false;
    }
    let alone: bool = match e.kind {
        ExtKind::Peak => e.d >= MIN_PEAK_DELTA,
        ExtKind::Trough => e.d <= MAX_TROUGH_DELTA,
    };
    let n: usize = out.len();
    if n == 0 {
        return alone;
    }
    let last: Swing = out[n - 1];
    let far: i64 = distance(e.d, last.d);
    last.kind != e.kind && far >= MIN_SWING_USD && (alone || far >= BIG_SWING_USD)
}

/// Swings that the simulation has room for.
pub open spec fn swings_ok(swings: Seq<Swing>) -> bool {
    forall|i: int|
        0 <= i < swings.len() ==> delta_ok((#[trigger] swings[i]).d as int) && time_ok(
            swings[i].t as int,
        ) && valid_ask(swings[i].ask as int)
}

/// The swings among major extremes.
pub fn tradable_swings(major: &[Extreme], asks: &[(i64, i64, i64)], market_end: i64) -> (r: Vec<
    Swing,
>)
    requires
        extremes_ok(major@),
        time_ok(market_end as int),
    ensures
        r@ == traded(major@, asks@, market_end as int, major@.len() as int),
        swings_ok(r@),
        r.len() <= major.len(),
{
    let mut out: Vec<Swing> = Vec::new();
    let mut i: usize = 0;
    while i < major.len()
        invariant
            i <= major.len(),
            extremes_ok(major@),
            time_ok(market_end as int),
            swings_ok(out@),
            out.len() <= i,
            out@ == traded(major@, asks@, market_end as int, i as int),
        decreases major.len() - i,
    {
        let e: Extreme = major[i];
        let side: PositionSide = match e.kind {
            ExtKind::Peak => PositionSide::Down,
            ExtKind::Trough => PositionSide::Up,
        };
        let known: Option<i64> = ask_at(asks, e.t, side);
        proof {
            known_ask_is_valid(asks@, e.t as int, side);
        }
        match known {
            Some(ask) => {
                if is_tradable(&out, e, ask, market_end) {
                    out.push(Swing { t: e.t, d: e.d, kind: e.kind, side, ask });
                }
            },
            None => {},
        }
        i = i + 1;
    }
    out
}

/// The swings of a tape of deltas over a window.
pub fn detect_major_swings(
    tape: &[(i64, i64)],
    asks: &[(i64, i64, i64)],
    open_ms: i64,
    end_ms: i64,
    market_end: i64,
) -> (r: Vec<Swing>)
    requires
        delta_tape_ok(tape@),
        time_ok(open_ms as int),
        time_ok(end_ms as int),
        time_ok(market_end as int),
    ensures
        r@ == swings_of(tape@, asks@, open_ms as int, end_ms as int, market_end as int),
{
    let grid: Vec<(i64, i64)> = sample(
        tape,
        open_ms + GRID_MARGIN_MS,
        end_ms - GRID_MARGIN_MS,
        GRID_MS,
    );
    proof {
        samples_are_on_the_grid(
            tape@,
            open_ms + GRID_MARGIN_MS,
            end_ms - GRID_MARGIN_MS,
            GRID_MS as int,
        );
        grid_is_ok(tape@, open_ms as int, end_ms as int);
        confirmed_extremes_alternate(grid@);
    }
    let raw: Vec<Extreme> = zigzag(&grid);
    let major: Vec<Extreme> = major_extremes(&raw);
    tradable_swings(&major, asks, market_end)
}

/// Whether points follow each other in time.
pub open spec fn in_time_order(points: Seq<(i64, i64)>) -> bool {
    forall|i: int, j: int|
        0 <= i < j < points.len() ==> (#[trigger] points[i]).0 < (#[trigger] points[j]).0
}

/// Every sample is what is known at its own time, the samples lie in the asked
/// range and follow each other in time, and there are no more of them than
/// milliseconds in the range.
pub proof fn samples_are_on_the_grid(tape: Seq<(i64, i64)>, t: int, until: int, step: int)
    requires
        i64::MIN <= t <= i64::MAX,
        until <= i64::MAX,
        step > 0,
    ensures
        ({
            let r = sampled(tape, t, until, step);
            &&& in_time_order(r)
            &&& forall|i: int|
                0 <= i < r.len() ==> t <= (#[trigger] r[i]).0 < until && (r[i].0 - t) % step == 0
                    && price_known(tape, r[i].0 as int) == Some(r[i].1)
            &&& t <= until ==> r.len() <= until - t
            &&& t >= until ==> r.len() == 0
        }),
    decreases (if t < until { until - t } else { 0 }),
{
    if t < until {
        if t + step <= i64::MAX {
            samples_are_on_the_grid(tape, t + step, until, step);
        }
        let rest = sampled(tape, t + step, until, step);
        let r = sampled(tape, t, until, step);
        assert forall|i: int| 0 <= i < rest.len() implies ((#[trigger] rest[i]).0 - t) % step
            == 0 by {
            let k = rest[i].0 - (t + step);
            assert((k + step) % step == k % step) by {
                vstd::arithmetic::div_mod::lemma_mod_add_multiples_vanish(k, step);
            }
        }
        match price_known(tape, t) {
            Some(d) => {
                assert(r == seq![(t as i64, d)] + rest);
                assert(r[0] == (t as i64, d));
                assert(forall|i: int| 1 <= i < r.len() ==> #[trigger] r[i] == rest[i - 1]);
                assert(0int % step == 0) by {
                    vstd::arithmetic::div_mod::lemma_small_mod(0, step as nat);
                }
            },
            None => {
                assert(r == rest);
            },
        }
    }
}

/// The grid of a tape is within the limits of the tape.
proof fn grid_is_ok(tape: Seq<(i64, i64)>, open_ms: int, end_ms: int)
    requires
        delta_tape_ok(tape),
        time_ok(open_ms),
        time_ok(end_ms),
    ensures
        delta_tape_ok(
            sampled(tape, open_ms + GRID_MARGIN_MS, end_ms - GRID_MARGIN_MS, GRID_MS as int),
        ),
{
    let t = open_ms + GRID_MARGIN_MS;
    let until = end_ms - GRID_MARGIN_MS;
    samples_are_on_the_grid(tape, t, until, GRID_MS as int);
    let r = sampled(tape, t, until, GRID_MS as int);
    assert forall|i: int| 0 <= i < r.len() implies delta_ok((#[trigger] r[i]).1 as int) && time_ok(
        r[i].0 as int,
    ) by {
        known_price_is_on_the_tape(tape, r[i].0 as int);
    }
}

/// Whether extremes alternate, each confirmed by the next, in time order.
pub open spec fn zigzags(raw: Seq<Extreme>) -> bool {
    &&& forall|i: int, j: int|
        #![trigger raw[i], raw[j]]
        0 <= i && j == i + 1 && j < raw.len() ==> raw[i].kind != raw[j].kind && match raw[i].kind {
            ExtKind::Peak => raw[i].d - raw[j].d >= CONFIRM_USD,
            ExtKind::Trough => raw[j].d - raw[i].d >= CONFIRM_USD,
        }
    &&& forall|i: int, j: int|
        0 <= i < j < raw.len() ==> (#[trigger] raw[i]).t < (#[trigger] raw[j]).t
}

proof fn hunt_keeps_the_zigzag(grid: Seq<(i64, i64)>, n: int)
    requires
        0 < grid.len(),
        0 <= n <= grid.len(),
        in_time_order(grid),
    ensures
        ({
            let h = hunt(grid, n);
            let k = h.found.len();
            &&& zigzags(h.found)
            &&& k <= n
            &&& exists|b: int| 0 <= b < grid.len() && (b < n || b == 0) && #[trigger] grid[b] == h.best
            &&& forall|i: int|
                #![trigger h.found[i]]
                0 <= i < k ==> exists|b: int|
                    0 <= b < grid.len() && (#[trigger] grid[b]).0 == h.found[i].t && grid[b].1
                        == h.found[i].d
            &&& k > 0 ==> h.found[k - 1].kind != h.hunting && h.found[k - 1].t < h.best.0
                && match h.hunting {
                ExtKind::Trough => h.found[k - 1].d - h.best.1 >= CONFIRM_USD,
                ExtKind::Peak => h.best.1 - h.found[k - 1].d >= CONFIRM_USD,
            }
        }),
    decreases n,
{
    if n > 0 {
        hunt_keeps_the_zigzag(grid, n - 1);
        let before = hunt(grid, n - 1);
        let h = hunt(grid, n);
        let g = grid[n - 1];
        let b = choose|b: int|
            0 <= b < grid.len() && (b < n - 1 || b == 0) && #[trigger] grid[b] == before.best;
        assert(grid[b].0 <= g.0);
        if h.found.len() > before.found.len() {
            let k = before.found.len() as int;
            assert(h.found == before.found.push(h.found[k]));
            assert(grid[b].0 == h.found[k].t);
            assert forall|i: int| 0 <= i < k implies (#[trigger] h.found[i]).t < h.found[k].t by {
                if i < k - 1 {
                    assert(before.found[i].t < before.found[k - 1].t);
                }
            }
            assert forall|i: int| #![trigger h.found[i]] 0 <= i < h.found.len() implies exists|c: int|
                0 <= c < grid.len() && (#[trigger] grid[c]).0 == h.found[i].t && grid[c].1
                    == h.found[i].d by {
                if i < k {
                    assert(h.found[i] == before.found[i]);
                }
            }
            assert(b < n - 1) by {
                if b >= n - 1 {
                    assert(grid[0] == g);
                }
            }
            assert(grid[n - 1] == h.best);
        } else {
            assert(h.found == before.found);
            if h.best == g {
                assert(grid[n - 1] == h.best);
            }
        }
    }
}

/// The confirmed extremes of a grid are grid points, alternate between peaks
/// and troughs at least the confirmation distance apart, and follow each other
/// in time.
pub proof fn confirmed_extremes_alternate(grid: Seq<(i64, i64)>)
    requires
        in_time_order(grid),
    ensures
        zigzags(confirmed(grid)),
        confirmed(grid).len() <= grid.len(),
        forall|i: int|
            #![trigger confirmed(grid)[i]]
            0 <= i < confirmed(grid).len() ==> exists|b: int|
                0 <= b < grid.len() && (#[trigger] grid[b]).0 == confirmed(grid)[i].t && grid[b].1
                    == confirmed(grid)[i].d,
        delta_tape_ok(grid) ==> extremes_ok(confirmed(grid)),
{
    if grid.len() >= MIN_GRID_POINTS {
        hunt_keeps_the_zigzag(grid, grid.len() as int);
    }
}

/// Whether extremes follow each other in time.
pub open spec fn extremes_in_time_order(e: Seq<Extreme>) -> bool {
    forall|i: int, j: int| 0 <= i < j < e.len() ==> (#[trigger] e[i]).t < (#[trigger] e[j]).t
}

proof fn majors_keep_order(raw: Seq<Extreme>, n: int)
    requires
        0 <= n <= raw.len(),
        extremes_in_time_order(raw),
    ensures
        ({
            let m = majors(raw, n);
            &&& -1 <= m.last < n
            &&& m.kept.len() <= n
            &&& (m.last == -1) == (m.kept.len() == 0)
            &&& m.kept.len() > 0 ==> m.kept[m.kept.len() - 1] == raw[m.last]
            &&& m.kept.len() <= m.last + 1
            &&& extremes_in_time_order(m.kept)
        }),
    decreases n,
{
    if n > 0 {
        majors_keep_order(raw, n - 1);
        let m = majors(raw, n - 1);
        let e = raw[n - 1];
        let k = m.kept.len() as int;
        if k > 0 {
            assert(raw[m.last].t < e.t);
            let bridge = furthest_between(raw, m.last + 1, n - 1, e.kind);
            furthest_between_is_one_of_them(raw, m.last + 1, n - 1, e.kind);
            assert forall|i: int| 0 <= i < k implies (#[trigger] m.kept[i]).t <= raw[m.last].t by {
                if i < k - 1 {
                    assert(m.kept[i].t < m.kept[k - 1].t);
                }
            }
            if bridge is Some {
                let b = choose|b: int|
                    m.last + 1 <= b < n - 1 && #[trigger] raw[b] == bridge->0;
                assert(raw[m.last].t < raw[b].t < e.t);
            }
        }
    }
}

/// Major extremes of extremes in time order are in time order, and no more.
pub proof fn major_extremes_keep_time_order(raw: Seq<Extreme>)
    requires
        extremes_in_time_order(raw),
    ensures
        extremes_in_time_order(majors(raw, raw.len() as int).kept),
        majors(raw, raw.len() as int).kept.len() <= raw.len(),
{
    majors_keep_order(raw, raw.len() as int);
}

/// Whether swings alternate between peaks and troughs at least a major swing
/// apart, in time order.
pub open spec fn swings_alternate(swings: Seq<Swing>) -> bool {
    &&& forall|i: int, j: int|
        #![trigger swings[i], swings[j]]
        0 <= i && j == i + 1 && j < swings.len() ==> swings[i].kind != swings[j].kind && apart(
            swings[j].d as int,
            swings[i].d as int,
        ) >= MIN_SWING_USD
    &&& forall|i: int, j: int|
        0 <= i < j < swings.len() ==> (#[trigger] swings[i]).t < (#[trigger] swings[j]).t
}

/// Whether every swing is a peak for DOWN or a trough for UP whose token is
/// quoted at a tradable ask early enough before the close.
pub open spec fn swings_are_signals(
    swings: Seq<Swing>,
    asks: Seq<(i64, i64, i64)>,
    market_end: int,
) -> bool {
    forall|i: int|
        #![trigger swings[i]]
        0 <= i < swings.len() ==> {
            let s = swings[i];
            &&& s.side == signal_side(s.kind)
            &&& ask_known(asks, s.t as int, s.side) == Some(s.ask)
            &&& MIN_ASK <= s.ask
            &&& valid_ask(s.ask as int)
            &&& market_end - s.t >= MIN_LEFT_MS
        }
}

/// Whether every swing is far enough out to stand on its own, or a big swing away
/// from the one before it.
pub open spec fn swings_reach_out(swings: Seq<Swing>) -> bool {
    forall|j: int|
        #![trigger swings[j]]
        0 <= j < swings.len() ==> swing_reaches_out(swings, j)
}

/// Whether the swing at `j` is far enough out to stand on its own, or a big swing
/// away from the one before it.
pub open spec fn swing_reaches_out(swings: Seq<Swing>, j: int) -> bool {
    let s = swings[j];
    stands_alone(extreme_at((s.t, s.d), s.kind)) || (j > 0 && apart(
        s.d as int,
        swings[j - 1].d as int,
    ) >= BIG_SWING_USD)
}

/// Whether every swing is a point of the grid of a window: at a step of 250
/// milliseconds from 800 after its open, before 800 from its end, with the delta
/// that the tape says.
pub open spec fn swings_on_the_grid(
    swings: Seq<Swing>,
    tape: Seq<(i64, i64)>,
    open_ms: int,
    end_ms: int,
) -> bool {
    forall|i: int|
        #![trigger swings[i]]
        0 <= i < swings.len() ==> {
            let s = swings[i];
            &&& open_ms + GRID_MARGIN_MS <= s.t < end_ms - GRID_MARGIN_MS
            &&& (s.t - (open_ms + GRID_MARGIN_MS)) % (GRID_MS as int) == 0
            &&& price_known(tape, s.t as int) == Some(s.d)
        }
}

proof fn traded_swings_alternate(
    major: Seq<Extreme>,
    asks: Seq<(i64, i64, i64)>,
    market_end: int,
    n: int,
)
    requires
        0 <= n <= major.len(),
        extremes_in_time_order(major),
    ensures
        ({
            let out = traded(major, asks, market_end, n);
            &&& swings_alternate(out)
            &&& swings_are_signals(out, asks, market_end)
            &&& swings_reach_out(out)
            &&& out.len() <= n
            &&& forall|i: int|
                #![trigger out[i]]
                0 <= i < out.len() ==> exists|k: int|
                    0 <= k < n && (#[trigger] major[k]).t == out[i].t && major[k].d == out[i].d
                        && major[k].kind == out[i].kind
        }),
    decreases n,
{
    if n > 0 {
        traded_swings_alternate(major, asks, market_end, n - 1);
        let before = traded(major, asks, market_end, n - 1);
        let out = traded(major, asks, market_end, n);
        let e = major[n - 1];
        known_ask_is_valid(asks, e.t as int, signal_side(e.kind));
        if out.len() > before.len() {
            let m = before.len() as int;
            assert forall|i: int| 0 <= i < m implies (#[trigger] out[i]).t < out[m].t by {
                assert(out[i] == before[i]);
                let k = choose|k: int|
                    0 <= k < n - 1 && (#[trigger] major[k]).t == before[i].t && major[k].d
                        == before[i].d && major[k].kind == before[i].kind;
                assert(major[k].t < major[n - 1].t);
            }
            assert forall|i: int| #![trigger out[i]] 0 <= i < out.len() implies exists|k: int|
                0 <= k < n && (#[trigger] major[k]).t == out[i].t && major[k].d == out[i].d
                    && major[k].kind == out[i].kind by {
                if i < m {
                    assert(out[i] == before[i]);
                } else {
                    assert(major[n - 1].t == out[i].t);
                }
            }
            assert forall|i: int, j: int|
                #![trigger out[i], out[j]]
                0 <= i && j == i + 1 && j < out.len() implies out[i].kind != out[j].kind && apart(
                out[j].d as int,
                out[i].d as int,
            ) >= MIN_SWING_USD by {
                assert(out[i] == before[i]);
                if j < m {
                    assert(out[j] == before[j]);
                }
            }
            assert forall|j: int| #![trigger out[j]] 0 <= j < out.len() implies swing_reaches_out(
                out,
                j,
            ) by {
                if j < m {
                    assert(out[j] == before[j]);
                    assert(swing_reaches_out(before, j));
                }
                if 0 < j <= m {
                    assert(out[j - 1] == before[j - 1]);
                }
            }
            assert forall|i: int, j: int| 0 <= i < j < out.len() implies (#[trigger] out[i]).t < (
            #[trigger] out[j]).t by {
                if j < m {
                    assert(out[i] == before[i]);
                    assert(out[j] == before[j]);
                }
            }
        }
    }
}

/// The swings of a tape alternate between peaks and troughs at least a major
/// swing apart and in time order; each is a point of the window's grid, far
/// enough out or a big swing away from the one before, and a tradable signal for
/// its token.  There are none where the grid has too few points, and no more of
/// them than milliseconds in the window.
pub proof fn detected_swings_alternate(
    tape: Seq<(i64, i64)>,
    asks: Seq<(i64, i64, i64)>,
    open_ms: int,
    end_ms: int,
    market_end: int,
)
    requires
        time_ok(open_ms),
        time_ok(end_ms),
    ensures
        ({
            let swings = swings_of(tape, asks, open_ms, end_ms, market_end);
            &&& swings_alternate(swings)
            &&& swings_are_signals(swings, asks, market_end)
            &&& swings_on_the_grid(swings, tape, open_ms, end_ms)
            &&& swings_reach_out(swings)
            &&& sampled(
                tape,
                open_ms + GRID_MARGIN_MS,
                end_ms - GRID_MARGIN_MS,
                GRID_MS as int,
            ).len() < MIN_GRID_POINTS ==> swings.len() == 0
            &&& forall|i: int|
                0 <= i < swings.len() ==> open_ms < (#[trigger] swings[i]).t < end_ms
            &&& open_ms <= end_ms ==> swings.len() <= end_ms - open_ms
            &&& open_ms > end_ms ==> swings.len() == 0
            &&& delta_tape_ok(tape) ==> swings_ok(swings)
        }),
{
    let from = open_ms + GRID_MARGIN_MS;
    let until = end_ms - GRID_MARGIN_MS;
    let grid = sampled(tape, from, until, GRID_MS as int);
    samples_are_on_the_grid(tape, from, until, GRID_MS as int);
    confirmed_extremes_alternate(grid);
    let raw = confirmed(grid);
    major_extremes_keep_time_order(raw);
    let major = majors(raw, raw.len() as int).kept;
    majors_are_confirmed(raw, raw.len() as int);
    traded_swings_alternate(major, asks, market_end, major.len() as int);
    let swings = swings_of(tape, asks, open_ms, end_ms, market_end);
    assert forall|i: int| 0 <= i < swings.len() implies from <= (#[trigger] swings[i]).t < until && (
    swings[i].t - from) % (GRID_MS as int) == 0 && price_known(tape, swings[i].t as int) == Some(
        swings[i].d,
    ) && (delta_tape_ok(tape) ==> delta_ok(swings[i].d as int)) by {
        let k = choose|k: int|
            0 <= k < major.len() && (#[trigger] major[k]).t == swings[i].t && major[k].d
                == swings[i].d && major[k].kind == swings[i].kind;
        let j = choose|j: int| 0 <= j < raw.len() && #[trigger] raw[j] == major[k];
        let b = choose|b: int|
            0 <= b < grid.len() && (#[trigger] grid[b]).0 == raw[j].t && grid[b].1 == raw[j].d;
        assert(from <= grid[b].0 < until);
        known_price_is_on_the_tape(tape, grid[b].0 as int);
    }
}

/// Every major extreme is a confirmed one.
pub proof fn majors_are_confirmed(raw: Seq<Extreme>, n: int)
    requires
        0 <= n <= raw.len(),
        extremes_in_time_order(raw),
    ensures
        forall|i: int|
            #![trigger majors(raw, n).kept[i]]
            0 <= i < majors(raw, n).kept.len() ==> exists|j: int|
                0 <= j < raw.len() && #[trigger] raw[j] == majors(raw, n).kept[i],
    decreases n,
{
    if n > 0 {
        majors_are_confirmed(raw, n - 1);
        majors_keep_order(raw, n - 1);
        let m = majors(raw, n - 1);
        let e = raw[n - 1];
        let after = majors(raw, n);
        furthest_between_is_one_of_them(raw, m.last + 1, n - 1, e.kind);
        assert forall|i: int| #![trigger after.kept[i]] 0 <= i < after.kept.len() implies exists|
            j: int,
        | 0 <= j < raw.len() && #[trigger] raw[j] == after.kept[i] by {
            if after.kept[i] == e {
                assert(raw[n - 1] == after.kept[i]);
            } else if i < m.kept.len() && after.kept[i] == m.kept[i] {
            } else {
                let bridge = furthest_between(raw, m.last + 1, n - 1, e.kind);
                assert(after.kept[i] == bridge->0);
            }
        }
    }
}

} // verus!
