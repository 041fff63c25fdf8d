//! Fills of a dry run: they wait for the delay of an order, or for the end of
//! their window.
use vstd::prelude::*;
use crate::strategy::sides::PositionSide;
use crate::strategy::trades::Reason;
use crate::units::{ask_ok, magnitude, MAX_MS};

verus! {

/// What a fill does.
#[derive(Clone, Copy, Debug, PartialEq, Eq, Structural)]
pub enum FillKind {
    Entry,
    Pair,
    Flatten,
}

impl FillKind {
    /// Text of the kind.
    pub open spec fn text(self) -> Seq<char> {
        match self {
            FillKind::Entry => "ENTRY"@,
            FillKind::Pair => "PAIR"@,
            FillKind::Flatten => "SELL"@,
        }
    }

    /// Text of the kind.
    pub fn label(self) -> (r: &'static str)
        ensures
            r@ == self.text(),
    {
        match self {
            FillKind::Entry => "ENTRY",
            FillKind::Pair => "PAIR",
            FillKind::Flatten => "SELL",
        }
    }
}

/// A fill that waits.
#[derive(Clone, Copy, Debug, PartialEq, Eq, Structural)]
pub struct PendingDryFill {
    pub send_t: i64,
    pub start_ts: i64,
    pub side: PositionSide,
    pub kind: FillKind,
    pub worst_ask: i64,
    pub reason: Reason,
}

/// Whether a fill is in range.
pub open spec fn fill_ok(p: PendingDryFill) -> bool {
    magnitude(p.send_t as int) <= 4 * MAX_MS && ask_ok(p.worst_ask as int)
}

/// Whether all fills are in range.
pub open spec fn fills_ok(pending: Seq<PendingDryFill>) -> bool {
    forall|i: int| 0 <= i < pending.len() ==> fill_ok(#[trigger] pending[i])
}

/// What fills are taken out of the queue.
#[derive(Clone, Copy, Debug, PartialEq, Eq, Structural)]
pub enum Due {
    /// Those whose order was sent at least `delay_ms` before `now`.
    At { now: i64, delay_ms: i64 },
    /// Those of a window.
    Window { start_ts: i64 },
}

/// Whether a fill is taken out of the queue.
pub open spec fn is_due(due: Due, p: PendingDryFill) -> bool {
    match due {
        Due::At { now, delay_ms } => now >= p.send_t + delay_ms,
        Due::Window { start_ts } => p.start_ts == start_ts,
    }
}

/// The fills that are taken out of the queue, in their order.
pub open spec fn due_fills(due: Due, pending: Seq<PendingDryFill>) -> Seq<PendingDryFill> {
    pending.filter(|p: PendingDryFill| is_due(due, p))
}

/// The fills that stay in the queue, in their order.
pub open spec fn waiting_fills(due: Due, pending: Seq<PendingDryFill>) -> Seq<PendingDryFill> {
    pending.filter(|p: PendingDryFill| !is_due(due, p))
}

/// Takes the fills that are due out of the queue.
pub fn take_due(due: Due, pending: &mut Vec<PendingDryFill>) -> (r: Vec<PendingDryFill>)
    requires
        fills_ok(old(pending)@),
        due matches Due::At { delay_ms, .. } ==> 0 <= delay_ms <= MAX_MS,
    ensures
        r@ == due_fills(due, old(pending)@),
        final(pending)@ == waiting_fills(due, old(pending)@),
        fills_ok(r@),
        fills_ok(final(pending)@),
        r.len() <= old(pending).len(),
{
    let mut ready: Vec<PendingDryFill> = Vec::new();
    let mut rest: Vec<PendingDryFill> = Vec::new();
    let mut i: usize = 0;
    proof {
        reveal(Seq::filter);
    }
    while i < pending.len()
        invariant
            i <= pending.len(),
            pending@ == old(pending)@,
            fills_ok(pending@),
            due matches Due::At { delay_ms, .. } ==> 0 <= delay_ms <= MAX_MS,
            ready@ == due_fills(due, pending@.take(i as int)),
            rest@ == waiting_fills(due, pending@.take(i as int)),
            fills_ok(ready@),
            fills_ok(rest@),
            ready.len() <= i,
        decreases pending.len() - i,
    {
        let p: PendingDryFill = pending[i];
        assert(fill_ok(pending@[i as int]));
        proof {
            reveal(Seq::filter);
            assert(pending@.take(i + 1).drop_last() =~= pending@.take(i as int));
        }
        let taken: bool = match due {
            Due::At { now, delay_ms } => now >= p.send_t + delay_ms,
            Due::Window { start_ts } => p.start_ts == start_ts,
        };
        if taken {
            ready.push(p);
        } else {
            rest.push(p);
        }
        i = i + 1;
    }
    proof {
        assert(pending@.take(pending@.len() as int) =~= pending@);
    }
    *pending = rest;
    ready
}

/// A fill is filled once: it is either taken out of the queue or stays in it,
/// and what stays is not due.
pub proof fn a_fill_is_filled_once(due: Due, pending: Seq<PendingDryFill>)
    ensures
        due_fills(due, pending).to_multiset().add(waiting_fills(due, pending).to_multiset())
            == pending.to_multiset(),
        due_fills(due, waiting_fills(due, pending)).len() == 0,
    decreases pending.len(),
{
    reveal(Seq::filter);
    broadcast use vstd::seq_lib::group_to_multiset_ensures;

    if pending.len() > 0 {
        let init = pending.drop_last();
        let last = pending.last();
        a_fill_is_filled_once(due, init);
        assert(pending =~= init.push(last));
        let due_init = due_fills(due, init);
        let wait_init = waiting_fills(due, init);
        if is_due(due, last) {
            assert(due_fills(due, pending) == due_init.push(last));
            assert(waiting_fills(due, pending) == wait_init);
        } else {
            assert(due_fills(due, pending) == due_init);
            assert(waiting_fills(due, pending) == wait_init.push(last));
            assert(wait_init.push(last).drop_last() =~= wait_init);
        }
        assert(due_fills(due, pending).to_multiset().add(
            waiting_fills(due, pending).to_multiset(),
        ) =~= pending.to_multiset());
    } else {
        assert(due_fills(due, pending).to_multiset().add(
            waiting_fills(due, pending).to_multiset(),
        ) =~= pending.to_multiset());
    }
}

/// Kinds of fills are told apart by their texts.
pub proof fn kinds_have_their_own_texts(a: FillKind, b: FillKind)
    ensures
        a.text() == b.text() ==> a == b,
        FillKind::Entry.text() == "ENTRY"@,
        FillKind::Pair.text() == "PAIR"@,
        FillKind::Flatten.text() == "SELL"@,
{
    reveal_strlit("ENTRY");
    reveal_strlit("PAIR");
    reveal_strlit("SELL");
    assert("PAIR"@[0] == 'P' && "SELL"@[0] == 'S');
}

/// What is due comes out of the queue and nothing else does: by time once its delay is
/// over, by window if it is of the window.
pub proof fn what_is_due_comes_out(pending: Seq<PendingDryFill>, due: Due, p: PendingDryFill)
    ensures
        due_fills(due, pending).contains(p) <==> pending.contains(p) && match due {
            Due::At { now, delay_ms } => p.send_t + delay_ms <= now,
            Due::Window { start_ts } => p.start_ts == start_ts,
        },
{
    let keep = |x: PendingDryFill| is_due(due, x);
    let kept = pending.filter(keep);
    if kept.contains(p) {
        let i = choose|i: int| 0 <= i < kept.len() && kept[i] == p;
        pending.lemma_filter_pred(keep, i);
        pending.lemma_filter_contains_rev(keep, p);
    }
    if pending.contains(p) && is_due(due, p) {
        let i = choose|i: int| 0 <= i < pending.len() && pending[i] == p;
        assert(keep(pending[i]));
        pending.lemma_filter_contains(keep, i);
    }
}

} // verus!
