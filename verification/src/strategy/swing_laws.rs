//! What counts as a swing.
use vstd::prelude::*;
use crate::units::{magnitude, time_ok};
use super::sides::PositionSide;
use super::swings::{
    apart, confirmed, detected_swings_alternate, furthest_between, hunt, hunt_step, majors,
    majors_step, reaches, sampled, swings_of, tradable, traded, ExtKind, Extreme, Hunt, Majors,
    Swing,
};
use super::tape::{ask_known, price_known};

verus! {

/// Whether an extreme is a turn of a grid that is confirmed: it is a point of the
/// grid from which bitcoin came back by ten dollars, without going further out
/// before it did.
pub open spec fn is_turn(grid: Seq<(i64, i64)>, e: Extreme, p: int, c: int) -> bool {
    &&& 0 <= p < c < grid.len()
    &&& grid[p] == (e.t, e.d)
    &&& match e.kind {
        ExtKind::Peak => {
            &&& grid[c].1 <= e.d - 10_000_000_000
            &&& forall|j: int|
                p <= j < c ==> e.d - 10_000_000_000 < (#[trigger] grid[j]).1 <= e.d
        },
        ExtKind::Trough => {
            &&& grid[c].1 >= e.d + 10_000_000_000
            &&& forall|j: int|
                p <= j < c ==> e.d <= (#[trigger] grid[j]).1 < e.d + 10_000_000_000
        },
    }
}

/// Whether an extreme is a turn of a grid, somewhere.
pub open spec fn is_turn_of(grid: Seq<(i64, i64)>, e: Extreme) -> bool {
    exists|p: int, c: int| #[trigger] is_turn(grid, e, p, c)
}

/// Whether a hunt knows the furthest point since the last turn: no point after it
/// goes further out or has come back by ten dollars.
pub open spec fn knows_the_furthest(grid: Seq<(i64, i64)>, h: Hunt, b: int, n: int) -> bool {
    &&& 0 <= b < n
    &&& grid[b] == h.best
    &&& forall|j: int|
        b <= j < n ==> match h.hunting {
            ExtKind::Peak => h.best.1 - 10_000_000_000 < (#[trigger] grid[j]).1 <= h.best.1,
            ExtKind::Trough => h.best.1 <= grid[j].1 < h.best.1 + 10_000_000_000,
        }
}

/// Turns are found as soon as they are confirmed and only then: each extreme is a
/// turn, they alternate, and since the last of them nothing has come back by ten
/// dollars.
pub proof fn turns_are_found_when_they_are_confirmed(grid: Seq<(i64, i64)>, n: int)
    requires
        0 < n <= grid.len(),
    ensures
        ({
            let h = hunt(grid, n);
            &&& exists|b: int| #[trigger] knows_the_furthest(grid, h, b, n)
            &&& forall|i: int|
                0 <= i < h.found.len() ==> is_turn_of(grid, #[trigger] h.found[i])
            &&& h.found.len() > 0 ==> h.found.last().kind != h.hunting
            &&& h.found.len() == 0 ==> (h.hunting == ExtKind::Peak <==> grid[0].1 >= 0)
        }),
    decreases n,
{
    reveal_with_fuel(hunt, 2);
    if n == 1 {
        assert(knows_the_furthest(grid, hunt(grid, 1), 0, 1));
    } else {
        turns_are_found_when_they_are_confirmed(grid, n - 1);
        let before = hunt(grid, n - 1);
        let h = hunt(grid, n);
        let g = grid[n - 1];
        let b = choose|b: int| #[trigger] knows_the_furthest(grid, before, b, n - 1);
        assert(h == hunt_step(before, g));
        if h.best == g && (h.hunting != before.hunting || match before.hunting {
            ExtKind::Peak => g.1 >= before.best.1,
            ExtKind::Trough => g.1 <= before.best.1,
        }) {
            assert(knows_the_furthest(grid, h, n - 1, n));
        } else {
            assert(knows_the_furthest(grid, h, b, n));
        }
        assert forall|i: int| 0 <= i < h.found.len() implies is_turn_of(
            grid,
            #[trigger] h.found[i],
        ) by {
            if i < before.found.len() {
                assert(h.found[i] == before.found[i]);
            } else {
                assert(is_turn(grid, h.found[i], b, n - 1));
            }
        }
    }
}

/// On fewer than eight points nothing is found; on eight or more, what the hunt has
/// found.
pub proof fn a_hunt_needs_eight_points(grid: Seq<(i64, i64)>)
    ensures
        grid.len() < 8 ==> confirmed(grid).len() == 0,
        grid.len() >= 8 ==> confirmed(grid) == hunt(grid, grid.len() as int).found,
{
}

/// The major extremes after another one.  An extreme of the other kind than the
/// last is kept from 40 dollars on.  One of the same kind that follows it directly
/// replaces it if it reaches as far.  Past extremes that were not kept it is kept
/// with the furthest of those between if that is 22 dollars from the last and 40
/// from it, and else replaces the last if it reaches as far, unless it is a trough
/// after a full swing.
pub proof fn majors_are_forty_dollars_apart(raw: Seq<Extreme>, m: Majors, i: int)
    requires
        0 <= i < raw.len(),
        m.kept.len() > 0,
    ensures
        ({
            let e = raw[i];
            let last = m.kept.last();
            let after = majors_step(raw, m, i);
            let further = match e.kind {
                ExtKind::Peak => e.d >= last.d,
                ExtKind::Trough => e.d <= last.d,
            };
            let bridge = furthest_between(raw, m.last + 1, i, e.kind);
            let bridged = bridge is Some && magnitude(bridge->0.d - last.d) >= 22_000_000_000
                && magnitude(e.d - bridge->0.d) >= 40_000_000_000;
            let full = m.kept.len() >= 2 && magnitude(last.d - m.kept[m.kept.len() - 2].d)
                >= 40_000_000_000;
            &&& e.kind != last.kind && magnitude(e.d - last.d) >= 40_000_000_000 ==> after
                == (Majors { kept: m.kept.push(e), last: i })
            &&& e.kind != last.kind && magnitude(e.d - last.d) < 40_000_000_000 ==> after == m
            &&& e.kind == last.kind && i == m.last + 1 && further ==> after == (Majors {
                kept: m.kept.drop_last().push(e),
                last: i,
            })
            &&& e.kind == last.kind && i == m.last + 1 && !further ==> after == m
            &&& e.kind == last.kind && i != m.last + 1 && bridged ==> after == (Majors {
                kept: m.kept.push(bridge->0).push(e),
                last: i,
            })
            &&& e.kind == last.kind && i != m.last + 1 && !bridged && (!further || (e.kind
                == ExtKind::Trough && full)) ==> after == m
            &&& e.kind == last.kind && i != m.last + 1 && !bridged && further && !(e.kind
                == ExtKind::Trough && full) ==> after == (Majors {
                kept: m.kept.drop_last().push(e),
                last: i,
            })
        }),
{
    assert(m.kept.update(m.kept.len() - 1, raw[i]) =~= m.kept.drop_last().push(raw[i]));
}

/// The first extreme is kept, and all extremes are gone through.
pub proof fn the_first_extreme_is_kept(raw: Seq<Extreme>, n: int)
    requires
        0 < n <= raw.len(),
    ensures
        majors(raw, 0).kept.len() == 0,
        majors(raw, 1).kept == seq![raw[0]],
        majors(raw, n) == majors_step(raw, majors(raw, n - 1), n - 1),
{
    reveal_with_fuel(majors, 2);
    assert(majors(raw, 1).kept =~= seq![raw[0]]);
}

/// The bridge between two extremes of a kind is the furthest of the other kind
/// between them.
pub proof fn a_bridge_is_the_furthest_between(raw: Seq<Extreme>, lo: int, hi: int, kind: ExtKind)
    requires
        0 <= lo,
        hi <= raw.len(),
    ensures
        match furthest_between(raw, lo, hi, kind) {
            Some(b) => {
                &&& exists|k: int| lo <= k < hi && #[trigger] raw[k] == b && b.kind != kind
                &&& forall|k: int|
                    lo <= k < hi && (#[trigger] raw[k]).kind != kind ==> match b.kind {
                        ExtKind::Peak => b.d >= raw[k].d,
                        ExtKind::Trough => b.d <= raw[k].d,
                    }
            },
            None => forall|k: int| lo <= k < hi ==> (#[trigger] raw[k]).kind == kind,
        },
    decreases hi - lo,
{
    if lo < hi {
        a_bridge_is_the_furthest_between(raw, lo, hi - 1, kind);
        let before = furthest_between(raw, lo, hi - 1, kind);
        let b = raw[hi - 1];
        if b.kind != kind && before is Some && !reaches(b, before->0) {
            let k = choose|k: int| lo <= k < hi - 1 && #[trigger] raw[k] == before->0;
            assert(raw[k] == before->0);
        }
        if b.kind == kind && before is Some {
            let k = choose|k: int| lo <= k < hi - 1 && #[trigger] raw[k] == before->0;
            assert(raw[k] == before->0);
        }
    }
}

/// A major extreme is a swing if and only if its token is quoted at 4 cents or more,
/// ten seconds are left, and it is of the other kind than the last swing and 40
/// dollars from it; and if it is a peak of 40 dollars or a trough of 52 at most, or
/// 46 dollars from the last swing.
pub proof fn an_extreme_is_a_swing_if_it_is_far_out(
    out: Seq<Swing>,
    e: Extreme,
    ask: Option<i64>,
    market_end: int,
)
    ensures
        ({
            let alone = match e.kind {
                ExtKind::Peak => e.d >= 40_000_000_000,
                ExtKind::Trough => e.d <= 52_000_000_000,
            };
            let apart = magnitude(e.d - out.last().d);
            tradable(out, e, ask, market_end) <==> {
                &&& ask is Some && ask->0 >= 40_000_000
                &&& e.t <= market_end - 10_000
                &&& out.len() == 0 ==> alone
                &&& out.len() > 0 ==> out.last().kind != e.kind && apart >= 40_000_000_000 && (alone
                    || apart >= 46_000_000_000)
            }
        }),
{
}

/// A swing is what its extreme is: a peak for DOWN, a trough for UP, at the ask of
/// that token known at its time.
pub proof fn a_peak_is_for_down(
    major: Seq<Extreme>,
    asks: Seq<(i64, i64, i64)>,
    market_end: int,
    n: int,
)
    requires
        0 < n <= major.len(),
    ensures
        ({
            let e = major[n - 1];
            let side = match e.kind {
                ExtKind::Peak => PositionSide::Down,
                ExtKind::Trough => PositionSide::Up,
            };
            let ask = ask_known(asks, e.t as int, side);
            let before = traded(major, asks, market_end, n - 1);
            let after = traded(major, asks, market_end, n);
            &&& !tradable(before, e, ask, market_end) ==> after == before
            &&& tradable(before, e, ask, market_end) ==> after == before.push(
                Swing { t: e.t, d: e.d, kind: e.kind, side, ask: ask->0 },
            )
        }),
        traded(major, asks, market_end, 0).len() == 0,
{
}

/// Swings are looked for on a grid of a quarter of a second, from 0.8 seconds after
/// the open to 0.8 seconds before the end.
pub proof fn swings_are_looked_for_on_the_grid(
    tape: Seq<(i64, i64)>,
    asks: Seq<(i64, i64, i64)>,
    open_ms: int,
    end_ms: int,
    market_end: int,
)
    ensures
        ({
            let grid = sampled(tape, open_ms + 800, end_ms - 800, 250);
            let raw = confirmed(grid);
            let major = majors(raw, raw.len() as int).kept;
            swings_of(tape, asks, open_ms, end_ms, market_end) == traded(
                major,
                asks,
                market_end,
                major.len() as int,
            )
        }),
{
}

/// The swings of a window: peaks for DOWN and troughs for UP in turn, 40 dollars
/// apart and in the order of their times, on the grid, at the asks of their times;
/// the first one a peak of 40 dollars or a trough of 52 at most, each later one too
/// or 46 dollars from the one before it.
pub proof fn swings_are_what_they_are_called(
    tape: Seq<(i64, i64)>,
    asks: Seq<(i64, i64, i64)>,
    open_ms: int,
    end_ms: int,
    market_end: int,
    i: int,
)
    requires
        time_ok(open_ms),
        time_ok(end_ms),
        0 <= i < swings_of(tape, asks, open_ms, end_ms, market_end).len(),
    ensures
        ({
            let swings = swings_of(tape, asks, open_ms, end_ms, market_end);
            let s = swings[i];
            let alone = match s.kind {
                ExtKind::Peak => s.d >= 40_000_000_000,
                ExtKind::Trough => s.d <= 52_000_000_000,
            };
            &&& s.side == PositionSide::Down <==> s.kind == ExtKind::Peak
            &&& ask_known(asks, s.t as int, s.side) == Some(s.ask)
            &&& 40_000_000 <= s.ask <= 1_500_000_000
            &&& s.t <= market_end - 10_000
            &&& open_ms + 800 <= s.t < end_ms - 800
            &&& (s.t - open_ms - 800) % 250 == 0
            &&& price_known(tape, s.t as int) == Some(s.d)
            &&& i == 0 ==> alone
            &&& i > 0 ==> {
                let before = swings[i - 1];
                &&& before.kind != s.kind
                &&& before.t < s.t
                &&& magnitude(s.d - before.d) >= 40_000_000_000
                &&& alone || magnitude(s.d - before.d) >= 46_000_000_000
            }
        }),
{
    detected_swings_alternate(tape, asks, open_ms, end_ms, market_end);
    let swings = swings_of(tape, asks, open_ms, end_ms, market_end);
    let s = swings[i];
    assert(super::swings::swing_reaches_out(swings, i));
    if i > 0 {
        let before = swings[i - 1];
        assert(before.kind != s.kind);
    }
}

} // verus!
