//! What is known at a time, and how the venues come together.
use vstd::prelude::*;
use crate::units::{magnitude, price_ok};
use super::pairing_laws::last_valid_looks_back;
use super::sides::PositionSide;
use super::swings::{ExtKind, Swing};
use super::tape::{
    ask_head, ask_head_is_the_longest_timely_prefix, ask_known, last_valid, price_head,
    price_head_is_the_longest_timely_prefix,
};
use super::venue_engine::{kept_prints, kept_with, next_venue, VenueState};
use super::venue_swing::{
    clean_prints_stay, deltas_within, in_order, interleaved, open_print,
    the_open_print_is_the_latest, union_step, united, venue_deltas, venue_open,
};

verus! {

/// The ask known at a time is the last one up to and at that time that is above
/// nothing and not above a dollar and a half.
pub proof fn the_last_ask_is_known(
    asks: Seq<(i64, i64, i64)>,
    t: int,
    side: PositionSide,
    k: int,
    n: int,
)
    requires
        0 <= k < n <= asks.len(),
        forall|i: int| 0 <= i < n ==> (#[trigger] asks[i]).0 <= t,
        n < asks.len() ==> asks[n].0 > t,
        side == PositionSide::Up ==> 0 < asks[k].1 <= 1_500_000_000 && forall|i: int|
            k < i < n ==> !(0 < (#[trigger] asks[i]).1 <= 1_500_000_000),
        side == PositionSide::Down ==> 0 < asks[k].2 <= 1_500_000_000 && forall|i: int|
            k < i < n ==> !(0 < (#[trigger] asks[i]).2 <= 1_500_000_000),
    ensures
        ask_known(asks, t, side) == Some(
            if side == PositionSide::Up {
                asks[k].1
            } else {
                asks[k].2
            },
        ),
{
    ask_head_is_the_longest_timely_prefix(asks, t, 0);
    let h = ask_head(asks, t, 0);
    if h < n {
        assert(asks[h].0 <= t);
    }
    if h > n {
        assert(asks[n].0 <= t);
    }
    last_valid_looks_back(asks, side, k, n);
}

/// No ask is known as long as none counts.
pub proof fn no_ask_is_known(asks: Seq<(i64, i64, i64)>, t: int, side: PositionSide)
    requires
        forall|i: int|
            0 <= i < asks.len() && (#[trigger] asks[i]).0 <= t ==> (if side == PositionSide::Up {
                !(0 < asks[i].1 <= 1_500_000_000)
            } else {
                !(0 < asks[i].2 <= 1_500_000_000)
            }),
    ensures
        ask_known(asks, t, side) is None,
{
    ask_head_is_the_longest_timely_prefix(asks, t, 0);
    nothing_counts(asks, side, ask_head(asks, t, 0));
}

proof fn nothing_counts(asks: Seq<(i64, i64, i64)>, side: PositionSide, n: int)
    requires
        0 <= n <= asks.len(),
        forall|i: int|
            0 <= i < n ==> (if side == PositionSide::Up {
                !(0 < (#[trigger] asks[i]).1 <= 1_500_000_000)
            } else {
                !(0 < asks[i].2 <= 1_500_000_000)
            }),
    ensures
        last_valid(asks, side, n) is None,
    decreases n,
{
    if n > 0 {
        assert(asks[n - 1] == asks[n - 1]);
        nothing_counts(asks, side, n - 1);
    }
}

/// A venue opens at its last print up to the open, or at its first print if all
/// come later.
pub proof fn a_venue_opens_at_its_last_print(prints: Seq<(i64, i64)>, open_ms: int)
    requires
        prints.len() > 0,
        in_order(prints),
    ensures
        forall|k: int|
            0 <= k < prints.len() && (#[trigger] prints[k]).0 <= open_ms && (k + 1 < prints.len()
                ==> prints[k + 1].0 > open_ms) ==> venue_open(prints, open_ms) == prints[k].1,
        prints[0].0 > open_ms ==> venue_open(prints, open_ms) == prints[0].1,
{
    price_head_is_the_longest_timely_prefix(prints, open_ms, 0);
    let n = price_head(prints, open_ms, 0);
    assert forall|k: int|
        0 <= k < prints.len() && (#[trigger] prints[k]).0 <= open_ms && (k + 1 < prints.len()
            ==> prints[k + 1].0 > open_ms) implies venue_open(prints, open_ms) == prints[k].1 by {
        if n <= k {
            assert(prints[n].0 <= prints[k].0);
        }
        if n > k + 1 {
            assert(prints[k + 1].0 <= open_ms);
        }
    }
    if n > 0 {
        assert(prints[0].0 <= open_ms);
    }
}

/// Whether a delta is the distance of a print from a price.
pub open spec fn is_distance(d: (i64, i64), p: (i64, i64), from: int) -> bool {
    d.0 == p.0 && d.1 == p.1 - from
}

/// Whether a delta tape has the distance of a print from a price.
pub open spec fn has_distance(ds: Seq<(i64, i64)>, p: (i64, i64), from: int) -> bool {
    exists|k: int| 0 <= k < ds.len() && is_distance(#[trigger] ds[k], p, from)
}

/// Whether a delta is the distance of one of the first `n` prints, in the window,
/// from a price.
pub open spec fn is_of_a_print(
    prints: Seq<(i64, i64)>,
    d: (i64, i64),
    from: int,
    open_ms: int,
    end_ms: int,
    n: int,
) -> bool {
    exists|i: int|
        0 <= i < n && is_distance(d, #[trigger] prints[i], from) && open_ms <= d.0 <= end_ms
}

proof fn deltas_are_of_prints(
    prints: Seq<(i64, i64)>,
    open: int,
    open_ms: int,
    end_ms: int,
    n: int,
)
    requires
        0 <= n <= prints.len(),
        price_ok(open),
        forall|j: int| 0 <= j < prints.len() ==> price_ok((#[trigger] prints[j]).1 as int),
    ensures
        ({
            let ds = deltas_within(prints, open, open_ms, end_ms, n);
            &&& forall|i: int|
                0 <= i < n && open_ms <= (#[trigger] prints[i]).0 <= end_ms ==> has_distance(
                    ds,
                    prints[i],
                    open,
                )
            &&& forall|k: int|
                0 <= k < ds.len() ==> is_of_a_print(
                    prints,
                    #[trigger] ds[k],
                    open,
                    open_ms,
                    end_ms,
                    n,
                )
        }),
    decreases n,
{
    if n > 0 {
        deltas_are_of_prints(prints, open, open_ms, end_ms, n - 1);
        let rest = deltas_within(prints, open, open_ms, end_ms, n - 1);
        let ds = deltas_within(prints, open, open_ms, end_ms, n);
        assert forall|i: int|
            0 <= i < n && open_ms <= (#[trigger] prints[i]).0 <= end_ms implies has_distance(
            ds,
            prints[i],
            open,
        ) by {
            if i == n - 1 {
                assert(is_distance(ds[ds.len() - 1], prints[i], open));
            } else {
                let k = choose|k: int|
                    0 <= k < rest.len() && is_distance(#[trigger] rest[k], prints[i], open);
                assert(ds[k] == rest[k]);
            }
        }
        assert forall|k: int| 0 <= k < ds.len() implies is_of_a_print(
            prints,
            #[trigger] ds[k],
            open,
            open_ms,
            end_ms,
            n,
        ) by {
            if k < rest.len() {
                assert(ds[k] == rest[k]);
                let i = choose|i: int|
                    0 <= i < n - 1 && is_distance(rest[k], #[trigger] prints[i], open) && open_ms
                        <= rest[k].0 <= end_ms;
                assert(is_distance(ds[k], prints[i], open));
            } else {
                assert(is_distance(ds[k], prints[n - 1], open));
            }
        }
    }
}

/// A venue's delta tape starts with nothing at the open, and goes on with the
/// distance of each print of the window from the price it opened at.
pub proof fn venue_deltas_are_distances_from_its_open(
    prints: Seq<(i64, i64)>,
    open_ms: i64,
    end_ms: i64,
    k: int,
)
    requires
        in_order(prints),
        forall|j: int|
            0 <= j < prints.len() ==> (#[trigger] prints[j]).1 > 0 && price_ok(prints[j].1 as int),
        0 <= k < prints.len(),
        prints[k].0 <= open_ms,
        k + 1 < prints.len() ==> prints[k + 1].0 > open_ms,
    ensures
        ({
            let ds = venue_deltas(prints, open_ms, end_ms);
            let open = prints[k].1 as int;
            &&& ds.len() >= 1 && ds[0] == (open_ms, 0i64)
            &&& forall|i: int|
                0 <= i < prints.len() && open_ms <= (#[trigger] prints[i]).0 <= end_ms
                    ==> has_distance(ds.skip(1), prints[i], open)
            &&& forall|i: int|
                0 <= i < ds.len() - 1 ==> is_of_a_print(
                    prints,
                    #[trigger] ds.skip(1)[i],
                    open,
                    open_ms as int,
                    end_ms as int,
                    prints.len() as int,
                )
        }),
{
    let n = prints.len() as int;
    clean_prints_stay(prints, n);
    assert(prints.take(n) =~= prints);
    a_venue_opens_at_its_last_print(prints, open_ms as int);
    let open = venue_open(prints, open_ms as int) as int;
    assert(open == prints[k].1);
    deltas_are_of_prints(prints, open, open_ms as int, end_ms as int, n);
    let rest = deltas_within(prints, open, open_ms as int, end_ms as int, n);
    let ds = venue_deltas(prints, open_ms, end_ms);
    assert(ds == seq![(open_ms, 0i64)] + rest);
    assert(ds.skip(1) =~= rest);
}

/// Two tapes come together in the order of their times, the first one first.
pub proof fn tapes_come_together_in_time(a: Seq<(i64, i64)>, b: Seq<(i64, i64)>, i: int, j: int)
    requires
        0 <= i < a.len(),
        0 <= j < b.len(),
    ensures
        a[i].0 <= b[j].0 ==> interleaved(a, b, i, j) == seq![a[i]] + interleaved(a, b, i + 1, j),
        a[i].0 > b[j].0 ==> interleaved(a, b, i, j) == seq![b[j]] + interleaved(a, b, i, j + 1),
{
}

/// A swing that comes to the merged ones.  The first is kept; one of the other kind
/// than the last is kept from 40 dollars on; one of the same kind replaces the last
/// if it goes as far out.
pub proof fn merged_swings_are_forty_dollars_apart(kept: Seq<Swing>, s: Swing)
    ensures
        kept.len() == 0 ==> union_step(kept, s) == seq![s],
        kept.len() > 0 ==> {
            let last = kept.last();
            let further = match s.kind {
                ExtKind::Peak => s.d >= last.d,
                ExtKind::Trough => s.d <= last.d,
            };
            &&& s.kind != last.kind && magnitude(s.d - last.d) >= 40_000_000_000 ==> union_step(
                kept,
                s,
            ) == kept.push(s)
            &&& s.kind != last.kind && magnitude(s.d - last.d) < 40_000_000_000 ==> union_step(
                kept,
                s,
            ) == kept
            &&& s.kind == last.kind && further ==> union_step(kept, s) == kept.drop_last().push(s)
            &&& s.kind == last.kind && !further ==> union_step(kept, s) == kept
        },
{
    if kept.len() == 0 {
        assert(union_step(kept, s) =~= seq![s]);
    } else {
        assert(kept.update(kept.len() - 1, s) =~= kept.drop_last().push(s));
    }
}

/// All swings are gone through, in their order.
pub proof fn swings_are_merged_in_order(all: Seq<Swing>, n: int)
    requires
        0 < n <= all.len(),
    ensures
        united(all, 0).len() == 0,
        united(all, n) == union_step(united(all, n - 1), all[n - 1]),
{
}

/// Whether a print is the one at `k` or one of the first `n` from a minute before the
/// open to the end.
pub open spec fn belongs(
    tape: Seq<(i64, i64)>,
    p: (i64, i64),
    open_ms: int,
    end_ms: int,
    k: int,
    n: int,
) -> bool {
    exists|i: int|
        0 <= i < n && #[trigger] tape[i] == p && (i == k || open_ms - 60_000 <= p.0 < end_ms)
}

proof fn kept_are_of_the_tape(tape: Seq<(i64, i64)>, open_ms: i64, end_ms: i64, k: int, n: int)
    requires
        0 <= n <= tape.len(),
    ensures
        ({
            let kept = kept_with(tape, open_ms, end_ms, k, n);
            &&& forall|i: int|
                0 <= i < n && (i == k || open_ms - 60_000 <= (#[trigger] tape[i]).0 < end_ms)
                    ==> kept.contains(tape[i])
            &&& forall|j: int|
                0 <= j < kept.len() ==> belongs(
                    tape,
                    #[trigger] kept[j],
                    open_ms as int,
                    end_ms as int,
                    k,
                    n,
                )
        }),
    decreases n,
{
    if n > 0 {
        kept_are_of_the_tape(tape, open_ms, end_ms, k, n - 1);
        let rest = kept_with(tape, open_ms, end_ms, k, n - 1);
        let kept = kept_with(tape, open_ms, end_ms, k, n);
        assert forall|i: int|
            0 <= i < n && (i == k || open_ms - 60_000 <= (#[trigger] tape[i]).0
                < end_ms) implies kept.contains(tape[i]) by {
            if i == n - 1 {
                assert(kept[kept.len() - 1] == tape[i]);
            } else {
                let j = choose|j: int| 0 <= j < rest.len() && rest[j] == tape[i];
                assert(kept[j] == tape[i]);
            }
        }
        assert forall|j: int| 0 <= j < kept.len() implies belongs(
            tape,
            #[trigger] kept[j],
            open_ms as int,
            end_ms as int,
            k,
            n,
        ) by {
            if j < rest.len() {
                assert(kept[j] == rest[j]);
                let i = choose|i: int|
                    0 <= i < n - 1 && #[trigger] tape[i] == rest[j] && (i == k || open_ms - 60_000
                        <= rest[j].0 < end_ms);
                assert(tape[i] == kept[j]);
            } else {
                assert(tape[n - 1] == kept[j]);
            }
        }
    }
}

/// The next window of a venue engine has the size and delay of the one before and
/// no fills; of each venue it keeps the prints from a minute before the open on, and
/// the last one up to the open, however old it is.
pub proof fn the_next_venue_window_keeps_its_own_ticks(
    g: VenueState,
    open_ms: i64,
    end_ms: i64,
    ptb: Option<i64>,
    i: int,
)
    requires
        0 <= i < g.binance.len(),
        g.binance[i].1 > 0,
    ensures
        ({
            let n = next_venue(g, open_ms, end_ms, ptb);
            let p = g.binance[i];
            let is_last = p.0 <= open_ms && forall|j: int|
                0 <= j < g.binance.len() && (#[trigger] g.binance[j]).1 > 0 && g.binance[j].0
                    <= open_ms && j != i ==> g.binance[j].0 < p.0;
            &&& n.shares == g.shares && n.delay_ms == g.delay_ms
            &&& n.open_ms == open_ms && n.end_ms == end_ms && n.ptb == ptb
            &&& n.intents.commits.len() == 0 && n.intents.emitted.len() == 0
            &&& n.intents.pending.len() == 0
            &&& n.coinbase == next_venue(
                (VenueState { binance: g.coinbase, ..g }),
                open_ms,
                end_ms,
                ptb,
            ).binance
            &&& open_ms - 60_000 <= p.0 < end_ms || is_last ==> n.binance.contains(p)
            &&& n.binance.contains(p) && !(open_ms - 60_000 <= p.0 < end_ms) ==> p.0 <= open_ms
                && forall|j: int|
                0 <= j < g.binance.len() && (#[trigger] g.binance[j]).1 > 0 && g.binance[j].0
                    <= open_ms ==> g.binance[j].0 <= p.0
        }),
{
    let tape = g.binance;
    let len = tape.len() as int;
    let k = open_print(tape, open_ms as int, len);
    the_open_print_is_the_latest(tape, open_ms as int, len);
    kept_are_of_the_tape(tape, open_ms, end_ms, k, len);
    let kept = kept_prints(tape, open_ms, end_ms);
    assert(kept == kept_with(tape, open_ms, end_ms, k, len));
    let p = tape[i];
    if kept.contains(p) {
        let j = choose|j: int| 0 <= j < kept.len() && kept[j] == p;
        assert(kept[j] == p);
    }
}

} // verus!
