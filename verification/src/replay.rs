//! Tallies of windows that are played again from recorded ticks.
use vstd::prelude::*;
use crate::strategy::sides::PositionSide;
use crate::text::same;
use crate::units::magnitude;

verus! {

/// A loss over this counts: a cent.
pub const LOSS: i128 = 10_000_000_000_000_000;

/// Results farther apart than this differ: half a cent.
pub const TOLERANCE: i128 = 5_000_000_000_000_000;

/// A result over this is worth a note: five dollars.
pub const NOTABLE: i128 = 5_000_000_000_000_000_000;

/// How many windows are noted whatever they come to.
pub const FIRST_NOTES: u64 = 5;

/// How many windows that differ are noted.
pub const DIFFERENCE_NOTES: u64 = 10;

/// Largest magnitude of a result.
pub const MAX_RESULT: i128 = 20_000_000_000_000_000_000_000_000_000_000_000_000;

/// Largest magnitude of a sum that another result can be added to.
pub const MAX_SUM: i128 = 100_000_000_000_000_000_000_000_000_000_000_000_000;

/// The side that a record names as the winner.
pub fn winner_named(name: Option<&str>) -> (r: Option<PositionSide>)
    ensures
        r == match name {
            Some(s) => if s@ == "UP"@ {
                Some(PositionSide::Up)
            } else if s@ == "DOWN"@ {
                Some(PositionSide::Down)
            } else {
                None
            },
            None => None,
        },
{
    match name {
        Some(s) => if same(s, "UP") {
            Some(PositionSide::Up)
        } else if same(s, "DOWN") {
            Some(PositionSide::Down)
        } else {
            None
        },
        None => None,
    }
}

/// Result of a window, and what was expected of it.
#[derive(Clone, Copy, Debug, PartialEq, Eq, Structural)]
pub struct Replayed {
    pub pnl: i128,
    pub pairs: u64,
    pub expected: Option<i128>,
}

/// Whether a window came to something else than was expected.
pub open spec fn differs(w: Replayed) -> bool {
    w.expected matches Some(e) && magnitude(w.pnl - e) > TOLERANCE
}

/// What windows came to.
#[derive(Clone, Copy, Debug, PartialEq, Eq, Structural)]
pub struct Tally {
    pub n: u64,
    pub total: i128,
    pub expected: i128,
    pub pairs: u64,
    pub neg: u64,
    pub mismatches: u64,
}

/// What windows come to.
pub struct Sums {
    pub n: int,
    pub total: int,
    pub expected: int,
    pub pairs: int,
    pub neg: int,
    pub mismatches: int,
}

impl View for Tally {
    type V = Sums;

    open spec fn view(&self) -> Sums {
        Sums {
            n: self.n as int,
            total: self.total as int,
            expected: self.expected as int,
            pairs: self.pairs as int,
            neg: self.neg as int,
            mismatches: self.mismatches as int,
        }
    }
}

/// No windows.
pub open spec fn no_sums() -> Sums {
    Sums { n: 0, total: 0, expected: 0, pairs: 0, neg: 0, mismatches: 0 }
}

/// The sums with another window.
pub open spec fn tallied(s: Sums, w: Replayed) -> Sums {
    Sums {
        n: s.n + 1,
        total: s.total + w.pnl,
        expected: s.expected + (match w.expected {
            Some(e) => e as int,
            None => 0,
        }),
        pairs: s.pairs + w.pairs,
        neg: s.neg + (if w.pnl < -LOSS {
            1int
        } else {
            0
        }),
        mismatches: s.mismatches + (if differs(w) {
            1int
        } else {
            0
        }),
    }
}

/// The sums of the first `n` windows.
pub open spec fn sums_of(windows: Seq<Replayed>, n: int) -> Sums
    decreases n,
{
    if n <= 0 {
        no_sums()
    } else {
        tallied(sums_of(windows, n - 1), windows[n - 1])
    }
}

/// What is noted of a window.
#[derive(Clone, Copy, Debug, PartialEq, Eq, Structural)]
pub struct Notes {
    /// It is one of the first, or its result is large.
    pub notable: bool,
    /// It differs, and not many have before.
    pub difference: bool,
}

impl Tally {
    /// No windows.
    pub fn new() -> (r: Tally)
        ensures
            r@ == no_sums(),
    {
        Tally { n: 0, total: 0, expected: 0, pairs: 0, neg: 0, mismatches: 0 }
    }

    /// Adds a window and gives what is noted of it.
    pub fn add(&mut self, w: &Replayed) -> (r: Notes)
        requires
            old(self).n < u64::MAX,
            old(self).neg <= old(self).n,
            old(self).mismatches <= old(self).n,
            old(self).pairs + w.pairs <= u64::MAX,
            magnitude(old(self).total as int) <= MAX_SUM,
            magnitude(old(self).expected as int) <= MAX_SUM,
            magnitude(w.pnl as int) <= MAX_RESULT,
            w.expected matches Some(e) ==> magnitude(e as int) <= MAX_RESULT,
        ensures
            final(self)@ == tallied(old(self)@, *w),
            final(self).neg <= final(self).n,
            final(self).mismatches <= final(self).n,
            r == (Notes {
                notable: final(self).n <= FIRST_NOTES || magnitude(w.pnl as int) > NOTABLE,
                difference: differs(*w) && final(self).mismatches <= DIFFERENCE_NOTES,
            }),
            r.notable <==> final(self).n <= 5 || magnitude(w.pnl as int)
                > 5_000_000_000_000_000_000,
            r.difference <==> final(self).mismatches > old(self).mismatches
                && final(self).mismatches <= 10,
    {
        self.n = self.n + 1;
        self.total = self.total + w.pnl;
        self.pairs = self.pairs + w.pairs;
        if w.pnl < -LOSS {
            self.neg = self.neg + 1;
        }
        let mut difference: bool = false;
        match w.expected {
            Some(e) => {
                self.expected = self.expected + e;
                let apart: i128 = w.pnl - e;
                if apart > TOLERANCE || apart < -TOLERANCE {
                    self.mismatches = self.mismatches + 1;
                    difference = self.mismatches <= DIFFERENCE_NOTES;
                }
            },
            None => {},
        }
        Notes {
            notable: self.n <= FIRST_NOTES || w.pnl > NOTABLE || w.pnl < -NOTABLE,
            difference,
        }
    }

    /// Whether no window differs.
    pub fn agrees(&self) -> (r: bool)
        ensures
            r == (self@.mismatches == 0),
    {
        self.mismatches == 0
    }
}

/// A tally agrees exactly if every window came to what was expected of it.
pub proof fn agreement_is_of_every_window(windows: Seq<Replayed>, n: int)
    requires
        0 <= n <= windows.len(),
    ensures
        sums_of(windows, n).n == n,
        0 <= sums_of(windows, n).mismatches <= n,
        sums_of(windows, n).mismatches == 0 <==> forall|i: int|
            0 <= i < n ==> !differs(#[trigger] windows[i]),
    decreases n,
{
    if n > 0 {
        agreement_is_of_every_window(windows, n - 1);
        assert(differs(windows[n - 1]) || !differs(windows[n - 1]));
    }
}

/// A tally that agrees is off by no more than half a cent a window.
pub proof fn agreement_bounds_the_totals(windows: Seq<Replayed>, n: int)
    requires
        0 <= n <= windows.len(),
        sums_of(windows, n).mismatches == 0,
        forall|i: int| 0 <= i < n ==> (#[trigger] windows[i]).expected is Some,
    ensures
        magnitude(sums_of(windows, n).total - sums_of(windows, n).expected) <= n * TOLERANCE,
    decreases n,
{
    if n > 0 {
        agreement_is_of_every_window(windows, n);
        agreement_is_of_every_window(windows, n - 1);
        agreement_bounds_the_totals(windows, n - 1);
        assert(windows[n - 1].expected is Some);
        assert(!differs(windows[n - 1]));
        assert(n * TOLERANCE == (n - 1) * TOLERANCE + TOLERANCE) by (nonlinear_arith);
    }
}

/// Another window adds its result and pairs, is lost if it lost more than a cent, and
/// differs if it is more than half a cent from what was expected of it, if anything
/// was.
pub proof fn a_window_is_tallied(s: Sums, w: Replayed)
    ensures
        ({
            let after = tallied(s, w);
            &&& after.n == s.n + 1
            &&& after.total == s.total + w.pnl
            &&& after.pairs == s.pairs + w.pairs
            &&& w.expected is Some ==> after.expected == s.expected + w.expected->0
            &&& w.expected is None ==> after.expected == s.expected
            &&& w.pnl < -10_000_000_000_000_000 ==> after.neg == s.neg + 1
            &&& w.pnl >= -10_000_000_000_000_000 ==> after.neg == s.neg
            &&& w.expected is Some && magnitude(w.pnl - w.expected->0) > 5_000_000_000_000_000
                ==> after.mismatches == s.mismatches + 1
            &&& w.expected is None || magnitude(w.pnl - w.expected->0) <= 5_000_000_000_000_000
                ==> after.mismatches == s.mismatches
        }),
{
}

} // verus!
