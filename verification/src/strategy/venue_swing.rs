//! Venue swing: each venue's distance from its own open, bought at its turns.
//!
//! Binance and Coinbase each have a tape of deltas from the price at which the
//! window opened there.  Their swings are found apart and merged; the strike
//! plays no part but in the outcome.
use vstd::prelude::*;
use crate::units::{magnitude, price_ok, time_ok};
use super::gap_swing::{terms_of, window_ok};
use super::sides::PositionSide;
use super::sim::{trade_ok, Terms, MAX_WINDOW_MS};
use super::sim_laws::count_of;
use super::swings::{
    apart, delta_ok, delta_tape_ok, detect_major_swings, detected_swings_alternate,
    swings_alternate, swings_of, swings_ok, ExtKind, Swing, MIN_SWING_USD,
};
use super::tape::{
    known_price_is_ok, price_head, price_head_is_the_longest_timely_prefix, price_known,
    price_tape_ok, px_at,
};
use super::trades::TradeKind;
use super::window::{
    commits_ok, no_outcome, outcome_of, play_window, CommittedLot, Outcome, WindowResult,
};

verus! {

/// Delay from signal to fill outside live trading.
pub const VENUE_TAKER_DELAY_MS: i64 = 70;

/// Whether points are in the order of their times.
pub open spec fn in_order(tape: Seq<(i64, i64)>) -> bool {
    forall|i: int, j: int|
        0 <= i < j < tape.len() ==> (#[trigger] tape[i]).0 <= (#[trigger] tape[j]).0
}

/// How many points from the start are not later than `t`, scanning back from
/// the first `n`.
pub open spec fn slot(tape: Seq<(i64, i64)>, t: int, n: int) -> int
    decreases n,
{
    if n > 0 && tape[n - 1].0 > t {
        slot(tape, t, n - 1)
    } else {
        n
    }
}

/// The first `n` prints with a price above nothing, in the order of their
/// times; prints of one time keep their order.
pub open spec fn cleaned(prints: Seq<(i64, i64)>, n: int) -> Seq<(i64, i64)>
    decreases n,
{
    if n <= 0 {
        Seq::empty()
    } else {
        let rest = cleaned(prints, n - 1);
        let p = prints[n - 1];
        if p.1 > 0 {
            rest.insert(slot(rest, p.0 as int, rest.len() as int), p)
        } else {
            rest
        }
    }
}

/// The price that a venue opened a window at: the last one known at the open,
/// else the first one after it.
pub open spec fn venue_open(prints: Seq<(i64, i64)>, open_ms: int) -> i64 {
    match price_known(prints, open_ms) {
        Some(px) => px,
        None => prints[0].1,
    }
}

/// The deltas of the first `n` prints that lie in the window.
pub open spec fn deltas_within(
    prints: Seq<(i64, i64)>,
    open: int,
    open_ms: int,
    end_ms: int,
    n: int,
) -> Seq<(i64, i64)>
    decreases n,
{
    if n <= 0 {
        Seq::empty()
    } else {
        let rest = deltas_within(prints, open, open_ms, end_ms, n - 1);
        let p = prints[n - 1];
        if open_ms <= p.0 <= end_ms {
            rest.push((p.0, (p.1 - open) as i64))
        } else {
            rest
        }
    }
}

/// The deltas of a venue: nothing at the open, and each print of the window
/// after it.  A venue without prints has none.
pub open spec fn venue_deltas(prints: Seq<(i64, i64)>, open_ms: i64, end_ms: i64) -> Seq<
    (i64, i64),
> {
    let clean = cleaned(prints, prints.len() as int);
    if clean.len() == 0 {
        Seq::empty()
    } else {
        seq![(open_ms, 0i64)] + deltas_within(
            clean,
            venue_open(clean, open_ms as int) as int,
            open_ms as int,
            end_ms as int,
            clean.len() as int,
        )
    }
}

/// Two tapes in one, in the order of their times from `i` and `j` on; the first
/// one goes first at the same time.
pub open spec fn interleaved(a: Seq<(i64, i64)>, b: Seq<(i64, i64)>, i: int, j: int) -> Seq<
    (i64, i64),
>
    decreases a.len() - i + b.len() - j,
{
    if i < 0 || j < 0 || i > a.len() || j > b.len() || (i == a.len() && j == b.len()) {
        Seq::empty()
    } else if i < a.len() && (j == b.len() || a[i].0 <= b[j].0) {
        seq![a[i]] + interleaved(a, b, i + 1, j)
    } else {
        seq![b[j]] + interleaved(a, b, i, j + 1)
    }
}

/// Two lists of swings in one, in the order of their times from `i` and `j` on;
/// the first one goes first at the same time.
pub open spec fn swings_together(a: Seq<Swing>, b: Seq<Swing>, i: int, j: int) -> Seq<Swing>
    decreases a.len() - i + b.len() - j,
{
    if i < 0 || j < 0 || i > a.len() || j > b.len() || (i == a.len() && j == b.len()) {
        Seq::empty()
    } else if i < a.len() && (j == b.len() || a[i].t <= b[j].t) {
        seq![a[i]] + swings_together(a, b, i + 1, j)
    } else {
        seq![b[j]] + swings_together(a, b, i, j + 1)
    }
}

/// Whether a swing goes at least as far out as another of its kind.
pub open spec fn goes_as_far(s: Swing, than: Swing) -> bool {
    match s.kind {
        ExtKind::Peak => s.d >= than.d,
        ExtKind::Trough => s.d <= than.d,
    }
}

/// The merged swings after another one: a swing of the same kind replaces the
/// last one if it goes as far, one of the other kind needs a full swing.
pub open spec fn union_step(kept: Seq<Swing>, s: Swing) -> Seq<Swing> {
    if kept.len() == 0 {
        kept.push(s)
    } else {
        let last = kept[kept.len() - 1];
        if last.kind == s.kind {
            if goes_as_far(s, last) {
                kept.update(kept.len() - 1, s)
            } else {
                kept
            }
        } else if apart(s.d as int, last.d as int) >= MIN_SWING_USD {
            kept.push(s)
        } else {
            kept
        }
    }
}

/// The merged swings of the first `n` of a list.
pub open spec fn united(all: Seq<Swing>, n: int) -> Seq<Swing>
    decreases n,
{
    if n <= 0 {
        Seq::empty()
    } else {
        union_step(united(all, n - 1), all[n - 1])
    }
}

/// The merged swings of two venues.
pub open spec fn union_of(a: Seq<Swing>, b: Seq<Swing>) -> Seq<Swing> {
    let all = swings_together(a, b, 0, 0);
    united(all, all.len() as int)
}

/// What a window comes to.  Nothing happens without prints or quotes.
pub open spec fn venue_outcome(
    w: Terms,
    binance: Seq<(i64, i64)>,
    coinbase: Seq<(i64, i64)>,
    asks: Seq<(i64, i64, i64)>,
    winner: Option<PositionSide>,
    commits: Seq<CommittedLot>,
) -> Outcome {
    let bn = venue_deltas(binance, w.open_ms, w.end_ms);
    let cb = venue_deltas(coinbase, w.open_ms, w.end_ms);
    let open_ms = w.open_ms as int;
    let end_ms = w.end_ms as int;
    let market_end = w.market_end as int;
    if (bn.len() == 0 && cb.len() == 0) || asks.len() == 0 {
        no_outcome()
    } else {
        outcome_of(
            w,
            interleaved(bn, cb, 0, 0),
            asks,
            union_of(
                swings_of(bn, asks, open_ms, end_ms, market_end),
                swings_of(cb, asks, open_ms, end_ms, market_end),
            ),
            winner,
            commits,
        )
    }
}

/// Where the later points of an ordered tape start.
proof fn slot_is_a_position(tape: Seq<(i64, i64)>, t: int, n: int)
    requires
        0 <= n <= tape.len(),
    ensures
        0 <= slot(tape, t, n) <= n,
        forall|k: int| slot(tape, t, n) <= k < n ==> (#[trigger] tape[k]).0 > t,
        slot(tape, t, n) > 0 ==> tape[slot(tape, t, n) - 1].0 <= t,
    decreases n,
{
    if n > 0 && tape[n - 1].0 > t {
        slot_is_a_position(tape, t, n - 1);
    }
}

/// Cleaned prints are in the order of their times, have prices above nothing,
/// and are the prints that have.
pub proof fn cleaned_prints_are_in_order(prints: Seq<(i64, i64)>, n: int)
    requires
        0 <= n <= prints.len(),
    ensures
        in_order(cleaned(prints, n)),
        cleaned(prints, n).len() <= n,
        forall|i: int|
            0 <= i < cleaned(prints, n).len() ==> (#[trigger] cleaned(prints, n)[i]).1 > 0
                && prints.contains(cleaned(prints, n)[i]),
        forall|k: int|
            0 <= k < n && (#[trigger] prints[k]).1 > 0 ==> cleaned(prints, n).contains(prints[k]),
    decreases n,
{
    if n > 0 {
        cleaned_prints_are_in_order(prints, n - 1);
        let rest = cleaned(prints, n - 1);
        let p = prints[n - 1];
        let at = slot(rest, p.0 as int, rest.len() as int);
        slot_is_a_position(rest, p.0 as int, rest.len() as int);
        let all = cleaned(prints, n);
        if p.1 > 0 {
            assert(all == rest.insert(at, p));
            assert forall|i: int, j: int| 0 <= i < j < all.len() implies (#[trigger] all[i]).0 <= (
            #[trigger] all[j]).0 by {
                let a = if i < at {
                    i
                } else {
                    i - 1
                };
                let b = if j < at {
                    j
                } else {
                    j - 1
                };
                if i != at {
                    assert(all[i] == rest[a]);
                }
                if j != at {
                    assert(all[j] == rest[b]);
                }
                if j == at && i < at - 1 {
                    assert(rest[i].0 <= rest[at - 1].0);
                }
            }
            assert forall|i: int| 0 <= i < all.len() implies (#[trigger] all[i]).1 > 0
                && prints.contains(all[i]) by {
                if i < at {
                    assert(all[i] == rest[i]);
                } else if i == at {
                    assert(prints[n - 1] == p);
                } else {
                    assert(all[i] == rest[i - 1]);
                }
            }
            assert(all[at] == p);
            assert forall|k: int| 0 <= k < n && (#[trigger] prints[k]).1 > 0 implies all.contains(
                prints[k],
            ) by {
                if k < n - 1 {
                    let i = choose|i: int| 0 <= i < rest.len() && rest[i] == prints[k];
                    if i < at {
                        assert(all[i] == rest[i]);
                    } else {
                        assert(all[i + 1] == rest[i]);
                    }
                }
            }
        }
    }
}

/// Prints with a price above nothing, in the order of their times.
fn clean_prints(prints: &[(i64, i64)]) -> (r: Vec<(i64, i64)>)
    requires
        price_tape_ok(prints@),
    ensures
        r@ == cleaned(prints@, prints.len() as int),
        price_tape_ok(r@),
        in_order(r@),
{
    let mut r: Vec<(i64, i64)> = Vec::new();
    let mut n: usize = 0;
    while n < prints.len()
        invariant
            n <= prints.len(),
            r@ == cleaned(prints@, n as int),
        decreases prints.len() - n,
    {
        let p: (i64, i64) = prints[n];
        if p.1 > 0 {
            let mut at: usize = r.len();
            while at > 0 && r[at - 1].0 > p.0
                invariant
                    at <= r.len(),
                    slot(r@, p.0 as int, at as int) == slot(r@, p.0 as int, r.len() as int),
                decreases at,
            {
                at = at - 1;
            }
            r.insert(at, p);
        }
        n = n + 1;
    }
    proof {
        cleaned_prints_are_in_order(prints@, n as int);
        assert forall|i: int| 0 <= i < r@.len() implies price_ok((#[trigger] r@[i]).1 as int)
            && time_ok(r@[i].0 as int) by {
            let k = choose|k: int| 0 <= k < prints@.len() && prints@[k] == r@[i];
            assert(price_ok(prints@[k].1 as int));
        }
    }
    r
}

/// The deltas of a venue.
pub fn venue_tape(prints: &[(i64, i64)], open_ms: i64, end_ms: i64) -> (r: Vec<(i64, i64)>)
    requires
        price_tape_ok(prints@),
        time_ok(open_ms as int),
    ensures
        r@ == venue_deltas(prints@, open_ms, end_ms),
        delta_tape_ok(r@),
{
    let clean: Vec<(i64, i64)> = clean_prints(prints);
    let mut r: Vec<(i64, i64)> = Vec::new();
    if clean.len() == 0 {
        proof {
            assert(r@ =~= Seq::<(i64, i64)>::empty());
        }
        return r;
    }
    proof {
        known_price_is_ok(clean@, open_ms as int);
        assert(price_ok(clean@[0].1 as int));
    }
    let open: i64 = match px_at(&clean, open_ms) {
        Some(px) => px,
        None => clean[0].1,
    };
    r.push((open_ms, 0));
    let mut n: usize = 0;
    while n < clean.len()
        invariant
            n <= clean.len(),
            price_tape_ok(clean@),
            price_ok(open as int),
            delta_tape_ok(r@),
            r@ == seq![(open_ms, 0i64)] + deltas_within(
                clean@,
                open as int,
                open_ms as int,
                end_ms as int,
                n as int,
            ),
        decreases clean.len() - n,
    {
        let p: (i64, i64) = clean[n];
        proof {
            assert(price_ok(clean@[n as int].1 as int));
        }
        if open_ms <= p.0 && p.0 <= end_ms {
            let ghost before = r@;
            r.push((p.0, p.1 - open));
            proof {
                assert(r@ =~= seq![(open_ms, 0i64)] + deltas_within(
                    clean@,
                    open as int,
                    open_ms as int,
                    end_ms as int,
                    n + 1,
                ));
            }
        }
        n = n + 1;
    }
    r
}

/// Two tapes in one.
pub fn interleave(a: &[(i64, i64)], b: &[(i64, i64)]) -> (r: Vec<(i64, i64)>)
    requires
        delta_tape_ok(a@),
        delta_tape_ok(b@),
    ensures
        r@ == interleaved(a@, b@, 0, 0),
        delta_tape_ok(r@),
{
    let mut r: Vec<(i64, i64)> = Vec::new();
    let mut i: usize = 0;
    let mut j: usize = 0;
    while i < a.len() || j < b.len()
        invariant
            i <= a.len(),
            j <= b.len(),
            delta_tape_ok(a@),
            delta_tape_ok(b@),
            delta_tape_ok(r@),
            r@ + interleaved(a@, b@, i as int, j as int) == interleaved(a@, b@, 0, 0),
        decreases a.len() - i + b.len() - j,
    {
        let ghost rest = interleaved(a@, b@, i as int, j as int);
        let ghost before = r@;
        if i < a.len() && (j >= b.len() || a[i].0 <= b[j].0) {
            proof {
                assert(delta_ok(a@[i as int].1 as int));
            }
            r.push(a[i]);
            i = i + 1;
        } else {
            proof {
                assert(delta_ok(b@[j as int].1 as int));
            }
            r.push(b[j]);
            j = j + 1;
        }
        proof {
            assert(r@ + interleaved(a@, b@, i as int, j as int) =~= before + rest);
        }
    }
    r
}

/// Whether a swing goes at least as far out as another of its kind.
fn as_far(s: &Swing, than: &Swing) -> (r: bool)
    ensures
        r == goes_as_far(*s, *than),
{
    match s.kind {
        ExtKind::Peak => s.d >= than.d,
        ExtKind::Trough => s.d <= than.d,
    }
}

/// Adds a swing to the merged ones.
fn unite(kept: &mut Vec<Swing>, s: Swing)
    requires
        swings_ok(old(kept)@),
        delta_ok(s.d as int),
    ensures
        final(kept)@ == union_step(old(kept)@, s),
{
    let n: usize = kept.len();
    if n == 0 {
        kept.push(s);
        return;
    }
    let last: Swing = kept[n - 1];
    proof {
        assert(delta_ok(kept@[n - 1].d as int));
    }
    if last.kind == s.kind {
        if as_far(&s, &last) {
            kept.set(n - 1, s);
        }
    } else {
        let gap: i64 = if s.d >= last.d {
            s.d - last.d
        } else {
            last.d - s.d
        };
        if gap >= MIN_SWING_USD {
            kept.push(s);
        }
    }
}

/// The merged swings of two venues.
pub fn union_merge(a: &[Swing], b: &[Swing]) -> (r: Vec<Swing>)
    requires
        swings_ok(a@),
        swings_ok(b@),
    ensures
        r@ == union_of(a@, b@),
        swings_ok(r@),
        r.len() <= a.len() + b.len(),
{
    let ghost all = swings_together(a@, b@, 0, 0);
    let mut r: Vec<Swing> = Vec::new();
    let mut i: usize = 0;
    let mut j: usize = 0;
    let ghost mut n: int = 0;
    proof {
        assert(all.skip(0) =~= all);
    }
    while i < a.len() || j < b.len()
        invariant
            i <= a.len(),
            j <= b.len(),
            n == i + j,
            n <= all.len(),
            all == swings_together(a@, b@, 0, 0),
            all.skip(n) == swings_together(a@, b@, i as int, j as int),
            r@ == united(all, n),
            r.len() <= n,
            swings_ok(a@),
            swings_ok(b@),
            swings_ok(r@),
        decreases a.len() - i + b.len() - j,
    {
        let ghost rest = all.skip(n);
        let ghost before = r@;
        let s: Swing = if i < a.len() && (j >= b.len() || a[i].t <= b[j].t) {
            let s: Swing = a[i];
            proof {
                assert(delta_ok(a@[i as int].d as int));
            }
            i = i + 1;
            s
        } else {
            let s: Swing = b[j];
            proof {
                assert(delta_ok(b@[j as int].d as int));
            }
            j = j + 1;
            s
        };
        proof {
            assert(rest == seq![s] + swings_together(a@, b@, i as int, j as int));
            assert(rest[0] == s);
            assert(all[n] == s);
            assert(all.skip(n + 1) =~= rest.skip(1));
            assert(rest.skip(1) =~= swings_together(a@, b@, i as int, j as int));
        }
        unite(&mut r, s);
        proof {
            n = n + 1;
            assert forall|k: int| 0 <= k < r@.len() implies delta_ok((#[trigger] r@[k]).d as int)
                && time_ok(r@[k].t as int) && super::tape::valid_ask(r@[k].ask as int) by {
                if k < before.len() && r@[k] == before[k] {
                } else {
                    assert(r@[k] == s);
                }
            }
        }
    }
    proof {
        assert(all.skip(n).len() == 0);
    }
    r
}

/// Plays a window from the start.
pub fn run_venue_swing_window(
    open_ms: i64,
    end_ms: i64,
    binance: &[(i64, i64)],
    coinbase: &[(i64, i64)],
    asks: &[(i64, i64, i64)],
    winner: Option<PositionSide>,
    shares: i64,
    market_end_ms: Option<i64>,
    taker_delay_ms: i64,
) -> (r: WindowResult)
    requires
        window_ok(
            terms_of(open_ms, end_ms, shares, market_end_ms, taker_delay_ms),
            None,
            binance@,
            asks@,
        ),
        price_tape_ok(coinbase@),
    ensures
        r@ == venue_outcome(
            terms_of(open_ms, end_ms, shares, market_end_ms, taker_delay_ms),
            binance@,
            coinbase@,
            asks@,
            winner,
            Seq::empty(),
        ),
        forall|i: int|
            0 <= i < r.trades.len() && (#[trigger] r.trades[i]).kind == TradeKind::Buy
                ==> r.trades[i].shares == shares && r.trades[i].net == 0,
{
    let none: Vec<CommittedLot> = Vec::new();
    proof {
        assert(none@ =~= Seq::<CommittedLot>::empty());
    }
    run_venue_swing_window_with_commits(
        open_ms,
        end_ms,
        binance,
        coinbase,
        asks,
        winner,
        shares,
        market_end_ms,
        taker_delay_ms,
        &none,
    )
}

/// Plays a window from the fills that are in place.
pub fn run_venue_swing_window_with_commits(
    open_ms: i64,
    end_ms: i64,
    binance: &[(i64, i64)],
    coinbase: &[(i64, i64)],
    asks: &[(i64, i64, i64)],
    winner: Option<PositionSide>,
    shares: i64,
    market_end_ms: Option<i64>,
    taker_delay_ms: i64,
    commits: &[CommittedLot],
) -> (r: WindowResult)
    requires
        window_ok(
            terms_of(open_ms, end_ms, shares, market_end_ms, taker_delay_ms),
            None,
            binance@,
            asks@,
        ),
        price_tape_ok(coinbase@),
        commits_ok(commits@),
    ensures
        r@ == venue_outcome(
            terms_of(open_ms, end_ms, shares, market_end_ms, taker_delay_ms),
            binance@,
            coinbase@,
            asks@,
            winner,
            commits@,
        ),
        forall|i: int| 0 <= i < r.trades.len() ==> trade_ok(#[trigger] r.trades[i]),
        magnitude(r.total_pnl as int) <= 20_000_000_000_000_000_000_000_000_000_000_000_000,
        count_of(r.trades@, TradeKind::Buy) <= 3 * MAX_WINDOW_MS,
        forall|i: int|
            0 <= i < r.trades.len() && (#[trigger] r.trades[i]).kind == TradeKind::Buy
                ==> r.trades[i].shares == shares && r.trades[i].net == 0,
{
    let market_end: i64 = match market_end_ms {
        Some(close) => close,
        None => end_ms,
    };
    let w: Terms = Terms { open_ms, end_ms, market_end, shares, delay_ms: taker_delay_ms };
    let bn: Vec<(i64, i64)> = venue_tape(binance, open_ms, end_ms);
    let cb: Vec<(i64, i64)> = venue_tape(coinbase, open_ms, end_ms);
    if (bn.len() == 0 && cb.len() == 0) || asks.len() == 0 {
        return WindowResult::default();
    }
    let bn_swings: Vec<Swing> = detect_major_swings(&bn, asks, open_ms, end_ms, market_end);
    let cb_swings: Vec<Swing> = detect_major_swings(&cb, asks, open_ms, end_ms, market_end);
    proof {
        let from = open_ms as int;
        let until = end_ms as int;
        detected_swings_alternate(bn@, asks@, from, until, market_end as int);
        detected_swings_alternate(cb@, asks@, from, until, market_end as int);
    }
    let swings: Vec<Swing> = union_merge(&bn_swings, &cb_swings);
    let tape: Vec<(i64, i64)> = interleave(&bn, &cb);
    play_window(&w, &tape, asks, &swings, winner, commits)
}

/// Interleaving two ordered tapes keeps every point of both, in the order of
/// their times.
pub proof fn interleaving_keeps_every_point(
    a: Seq<(i64, i64)>,
    b: Seq<(i64, i64)>,
    i: int,
    j: int,
)
    requires
        in_order(a),
        in_order(b),
        0 <= i <= a.len(),
        0 <= j <= b.len(),
    ensures
        in_order(interleaved(a, b, i, j)),
        interleaved(a, b, i, j).to_multiset() == a.skip(i).to_multiset().add(
            b.skip(j).to_multiset(),
        ),
        interleaved(a, b, i, j).len() > 0 ==> {
            let first = interleaved(a, b, i, j)[0].0;
            &&& i < a.len() ==> first <= a[i].0
            &&& j < b.len() ==> first <= b[j].0
            &&& (i < a.len() && first == a[i].0) || (j < b.len() && first == b[j].0)
        },
        interleaved(a, b, i, j).len() == 0 ==> i == a.len() && j == b.len(),
    decreases a.len() - i + b.len() - j,
{
    broadcast use vstd::seq_lib::group_to_multiset_ensures;

    let all = interleaved(a, b, i, j);
    if i == a.len() && j == b.len() {
        assert(a.skip(i) =~= Seq::<(i64, i64)>::empty());
        assert(b.skip(j) =~= Seq::<(i64, i64)>::empty());
        assert(all.to_multiset() =~= a.skip(i).to_multiset().add(b.skip(j).to_multiset()));
    } else if i < a.len() && (j == b.len() || a[i].0 <= b[j].0) {
        interleaving_keeps_every_point(a, b, i + 1, j);
        let rest = interleaved(a, b, i + 1, j);
        assert(a.skip(i) =~= seq![a[i]] + a.skip(i + 1));
        if rest.len() > 0 {
            assert(a[i].0 <= rest[0].0);
        }
        first_point_leads(a[i], rest);
        a_point_in_front(a[i], rest);
        a_point_in_front(a[i], a.skip(i + 1));
        assert(all.to_multiset() =~= a.skip(i).to_multiset().add(b.skip(j).to_multiset()));
    } else {
        interleaving_keeps_every_point(a, b, i, j + 1);
        let rest = interleaved(a, b, i, j + 1);
        assert(b.skip(j) =~= seq![b[j]] + b.skip(j + 1));
        if rest.len() > 0 {
            assert(b[j].0 <= rest[0].0);
        }
        first_point_leads(b[j], rest);
        a_point_in_front(b[j], rest);
        a_point_in_front(b[j], b.skip(j + 1));
        assert(all.to_multiset() =~= a.skip(i).to_multiset().add(b.skip(j).to_multiset()));
    }
}

proof fn a_point_in_front(p: (i64, i64), rest: Seq<(i64, i64)>)
    ensures
        (seq![p] + rest).to_multiset() == rest.to_multiset().insert(p),
{
    assert(seq![p] + rest =~= rest.insert(0, p));
    vstd::seq_lib::to_multiset_insert(rest, 0, p);
}

proof fn first_point_leads(p: (i64, i64), rest: Seq<(i64, i64)>)
    requires
        in_order(rest),
        rest.len() > 0 ==> p.0 <= rest[0].0,
    ensures
        in_order(seq![p] + rest),
{
    let all = seq![p] + rest;
    assert forall|i: int, j: int| 0 <= i < j < all.len() implies (#[trigger] all[i]).0 <= (
    #[trigger] all[j]).0 by {
        assert(all[j] == rest[j - 1]);
        if i > 0 {
            assert(all[i] == rest[i - 1]);
        } else if j > 1 {
            assert(rest[0].0 <= rest[j - 1].0);
        }
    }
}

/// Merged swings alternate between peaks and troughs, whatever is merged.
pub proof fn merged_swings_alternate(all: Seq<Swing>, n: int)
    requires
        0 <= n <= all.len(),
    ensures
        united(all, n).len() <= n,
        forall|i: int, j: int|
            #![trigger united(all, n)[i], united(all, n)[j]]
            0 <= i < united(all, n).len() && j == i + 1 && j < united(all, n).len() ==> united(
                all,
                n,
            )[i].kind != united(all, n)[j].kind,
        forall|i: int| 0 <= i < united(all, n).len() ==> all.contains(#[trigger] united(all, n)[i]),
    decreases n,
{
    if n > 0 {
        merged_swings_alternate(all, n - 1);
        let before = united(all, n - 1);
        let after = united(all, n);
        assert forall|i: int| 0 <= i < after.len() implies all.contains(#[trigger] after[i]) by {
            if i < before.len() && after[i] == before[i] {
                assert(all.contains(before[i]));
            } else {
                assert(all[n - 1] == after[i]);
            }
        }
        assert forall|i: int, j: int|
            #![trigger after[i], after[j]]
            0 <= i < after.len() && j == i + 1 && j < after.len() implies after[i].kind
            != after[j].kind by {
            assert(after[i] == before[i]);
            if j < before.len() {
                assert(before[i].kind != before[j].kind);
            }
        }
    }
}

proof fn one_list_alone(a: Seq<Swing>, i: int)
    requires
        0 <= i <= a.len(),
    ensures
        swings_together(a, Seq::empty(), i, 0) == a.skip(i),
        swings_together(Seq::empty(), a, 0, i) == a.skip(i),
    decreases a.len() - i,
{
    if i < a.len() {
        one_list_alone(a, i + 1);
        assert(a.skip(i) =~= seq![a[i]] + a.skip(i + 1));
    } else {
        assert(a.skip(i) =~= Seq::<Swing>::empty());
    }
}

proof fn one_tape_alone(a: Seq<(i64, i64)>, i: int)
    requires
        0 <= i <= a.len(),
    ensures
        interleaved(a, Seq::empty(), i, 0) == a.skip(i),
        interleaved(Seq::empty(), a, 0, i) == a.skip(i),
    decreases a.len() - i,
{
    if i < a.len() {
        one_tape_alone(a, i + 1);
        assert(a.skip(i) =~= seq![a[i]] + a.skip(i + 1));
    } else {
        assert(a.skip(i) =~= Seq::<(i64, i64)>::empty());
    }
}

proof fn alternating_swings_are_kept(a: Seq<Swing>, n: int)
    requires
        0 <= n <= a.len(),
        swings_alternate(a),
    ensures
        united(a, n) == a.take(n),
    decreases n,
{
    if n > 0 {
        alternating_swings_are_kept(a, n - 1);
        assert(a.take(n) =~= a.take(n - 1).push(a[n - 1]));
        if n > 1 {
            let last = a.take(n - 1)[n - 2];
            assert(last == a[n - 2]);
            assert(last.kind != a[n - 1].kind);
        }
    } else {
        assert(a.take(0) =~= Seq::<Swing>::empty());
    }
}

/// A venue without prints changes nothing: the window trades the other venue's
/// swings on the other venue's deltas alone.
pub proof fn a_cold_venue_leaves_the_other(
    w: Terms,
    prints: Seq<(i64, i64)>,
    asks: Seq<(i64, i64, i64)>,
    winner: Option<PositionSide>,
    commits: Seq<CommittedLot>,
)
    requires
        time_ok(w.open_ms as int),
        time_ok(w.end_ms as int),
        asks.len() > 0,
        venue_deltas(prints, w.open_ms, w.end_ms).len() > 0,
    ensures
        ({
            let none = Seq::<(i64, i64)>::empty();
            let tape = venue_deltas(prints, w.open_ms, w.end_ms);
            let swings = swings_of(
                tape,
                asks,
                w.open_ms as int,
                w.end_ms as int,
                w.market_end as int,
            );
            &&& venue_outcome(w, prints, none, asks, winner, commits) == outcome_of(
                w,
                tape,
                asks,
                swings,
                winner,
                commits,
            )
            &&& venue_outcome(w, none, prints, asks, winner, commits) == outcome_of(
                w,
                tape,
                asks,
                swings,
                winner,
                commits,
            )
        }),
{
    let none = Seq::<(i64, i64)>::empty();
    let tape = venue_deltas(prints, w.open_ms, w.end_ms);
    let open_ms = w.open_ms as int;
    let end_ms = w.end_ms as int;
    let market_end = w.market_end as int;
    let swings = swings_of(tape, asks, open_ms, end_ms, market_end);
    detected_swings_alternate(tape, asks, open_ms, end_ms, market_end);
    assert(venue_deltas(none, w.open_ms, w.end_ms) =~= none);
    an_empty_tape_has_no_swings(asks, open_ms, end_ms, market_end);
    one_list_alone(swings, 0);
    one_tape_alone(tape, 0);
    assert(swings.skip(0) =~= swings);
    assert(tape.skip(0) =~= tape);
    alternating_swings_are_kept(swings, swings.len() as int);
    assert(swings.take(swings.len() as int) =~= swings);
}

proof fn an_empty_tape_has_no_swings(
    asks: Seq<(i64, i64, i64)>,
    open_ms: int,
    end_ms: int,
    market_end: int,
)
    ensures
        swings_of(Seq::empty(), asks, open_ms, end_ms, market_end) == Seq::<Swing>::empty(),
{
    let from = open_ms + super::swings::GRID_MARGIN_MS;
    let until = end_ms - super::swings::GRID_MARGIN_MS;
    an_empty_tape_has_no_samples(from, until, super::swings::GRID_MS as int);
    let grid = super::swings::sampled(
        Seq::empty(),
        from,
        until,
        super::swings::GRID_MS as int,
    );
    let raw = super::swings::confirmed(grid);
    assert(raw.len() == 0);
}

proof fn an_empty_tape_has_no_samples(t: int, until: int, step: int)
    ensures
        super::swings::sampled(Seq::empty(), t, until, step) == Seq::<(i64, i64)>::empty(),
    decreases (if t < until { until - t } else { 0 }),
{
    if t < until && step > 0 {
        an_empty_tape_has_no_samples(t + step, until, step);
    }
}

/// The position of the print that a venue opened a window at, among its first
/// `n`: the latest one at or before the open, the last of those of one time;
/// below nothing if there is none.
pub open spec fn open_print(prints: Seq<(i64, i64)>, open_ms: int, n: int) -> int
    decreases n,
{
    if n <= 0 {
        -1
    } else {
        let k = open_print(prints, open_ms, n - 1);
        let p = prints[n - 1];
        if p.1 > 0 && p.0 <= open_ms && (k < 0 || p.0 >= prints[k].0) {
            n - 1
        } else {
            k
        }
    }
}

/// The print that a venue opened at is the latest at or before the open.
pub proof fn the_open_print_is_the_latest(prints: Seq<(i64, i64)>, open_ms: int, n: int)
    requires
        0 <= n <= prints.len(),
    ensures
        ({
            let k = open_print(prints, open_ms, n);
            &&& -1 <= k < n
            &&& k >= 0 ==> prints[k].1 > 0 && prints[k].0 <= open_ms
            &&& forall|i: int|
                0 <= i < n && (#[trigger] prints[i]).1 > 0 && prints[i].0 <= open_ms ==> k >= 0 && (
                if i <= k {
                    prints[i].0 <= prints[k].0
                } else {
                    prints[i].0 < prints[k].0
                })
        }),
    decreases n,
{
    if n > 0 {
        the_open_print_is_the_latest(prints, open_ms, n - 1);
    }
}

/// What is known of a venue at the open is the print that it opened at.
pub proof fn the_open_print_is_known(prints: Seq<(i64, i64)>, open_ms: int, n: int)
    requires
        0 <= n <= prints.len(),
    ensures
        ({
            let k = open_print(prints, open_ms, n);
            let clean = cleaned(prints, n);
            let h = price_head(clean, open_ms, 0);
            if k >= 0 {
                0 < h <= clean.len() && clean[h - 1] == prints[k]
            } else {
                h == 0
            }
        }),
    decreases n,
{
    if n > 0 {
        the_open_print_is_known(prints, open_ms, n - 1);
        the_open_print_is_the_latest(prints, open_ms, n - 1);
        cleaned_prints_are_in_order(prints, n - 1);
        let rest = cleaned(prints, n - 1);
        let p = prints[n - 1];
        if p.1 > 0 {
            let at = slot(rest, p.0 as int, rest.len() as int);
            slot_is_a_position(rest, p.0 as int, rest.len() as int);
            let all = rest.insert(at, p);
            let h = price_head(rest, open_ms, 0);
            price_head_is_the_longest_timely_prefix(rest, open_ms, 0);
            if h > 0 {
                assert(rest[h - 1] == prints[open_print(prints, open_ms, n - 1)]);
            }
            if p.0 > open_ms {
                assert(at >= h) by {
                    if at < h {
                        assert(rest[at].0 <= open_ms);
                    }
                }
                timely_prefix_is_the_head(all, open_ms, h);
            } else {
                assert(at <= h) by {
                    if at > h {
                        assert(rest[at - 1].0 >= rest[h].0);
                    }
                }
                timely_prefix_is_the_head(all, open_ms, h + 1);
                if h > 0 && at < h {
                    assert(rest[at].0 <= rest[h - 1].0);
                }
                if h > 0 && at == h {
                    assert(rest[at - 1].0 <= p.0);
                }
            }
        }
    }
}

proof fn timely_prefix_is_the_head(tape: Seq<(i64, i64)>, t: int, h: int)
    requires
        0 <= h <= tape.len(),
        forall|k: int| 0 <= k < h ==> (#[trigger] tape[k]).0 <= t,
        h < tape.len() ==> tape[h].0 > t,
    ensures
        price_head(tape, t, 0) == h,
{
    price_head_is_the_longest_timely_prefix(tape, t, 0);
    let n = price_head(tape, t, 0);
    if n < h {
        assert(tape[n].0 <= t);
    } else if h < n {
        assert(tape[h].0 <= t);
    }
}

/// Prints that are in order and above nothing need no cleaning.
pub proof fn clean_prints_stay(prints: Seq<(i64, i64)>, n: int)
    requires
        0 <= n <= prints.len(),
        in_order(prints),
        forall|i: int| 0 <= i < prints.len() ==> (#[trigger] prints[i]).1 > 0,
    ensures
        cleaned(prints, n) == prints.take(n),
    decreases n,
{
    if n > 0 {
        clean_prints_stay(prints, n - 1);
        let rest = prints.take(n - 1);
        if n > 1 {
            assert(rest[n - 2] == prints[n - 2]);
            assert(prints[n - 2].0 <= prints[n - 1].0);
        }
        assert(prints.take(n) =~= rest.insert(n - 1, prints[n - 1]));
    } else {
        assert(prints.take(0) =~= Seq::<(i64, i64)>::empty());
    }
}

} // verus!
