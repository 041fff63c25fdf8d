//! Orders that a strategy asks for, and the fills they are taken to have.
//!
//! A window is played again on every tick.  What its trades ask for is asked
//! for once, and is committed at once, so that the next play starts from it.
use vstd::prelude::*;
use crate::fifo::{
    adding_a_holding, all_open, can_match, first_open, first_open_finds_the_first, has_open,
    match_size, matched, matched_once, matching_conserves_shares, one_match_closes_a_holding,
    open_count, open_means_an_open_holding, open_shares, open_shares_are_not_negative,
};
use crate::units::{
    abs, ask_ok, clamp, clamped, magnitude, round_div, rounded_quotient, shares_ok, time_ok, CENT,
    MAX_MS, MAX_SHARES,
};
use super::sides::PositionSide;
use super::sim::{known_delta_is_ok, trade_ok, MAX_COMMITS};
use super::sim_laws::count_of;
use super::swings::{delta_ok, delta_tape_ok};
use super::tape::{price_known, px_at};
use super::trades::{actions_ok, BotAction, Reason, SimTrade, TradeKind};
use super::window::{commit_book, commit_ok, commits_ok, CommittedLot};

verus! {

/// How far above its fill an order may be paid.
pub const CHASE: i64 = 20_000_000;

/// Highest price of an order.
pub const MAX_ORDER_PRICE: i64 = 990_000_000;

/// Deltas up to this magnitude count as not given.
pub const NO_ANCHOR: i64 = 1_000;

/// What makes an order that was asked for recognisable: its kind, its side,
/// its time unless it is an early opposite, and its reason.
#[derive(Clone, Copy, Debug, PartialEq, Eq, Structural)]
pub struct EmitKey {
    pub kind: TradeKind,
    pub side: PositionSide,
    pub t: Option<i64>,
    pub reason: Reason,
}

/// The fills in place, the orders asked for, and those not yet handed out.
pub struct Intents {
    pub commits: Seq<CommittedLot>,
    pub emitted: Seq<EmitKey>,
    pub pending: Seq<BotAction>,
}

/// A price rounded to cents and held between 1 and 99 cents.
pub open spec fn cent_price(n: int) -> int {
    clamped(rounded_quotient(n, CENT as int) * CENT, CENT as int, MAX_ORDER_PRICE as int)
}

/// Rounds a price to cents and holds it between 1 and 99 cents.
pub fn clamp_price(n: i64) -> (r: i64)
    requires
        magnitude(n as int) <= 4_000_000_000_000,
    ensures
        r == cent_price(n as int),
        CENT <= r <= MAX_ORDER_PRICE,
{
    let cents: i128 = round_div(n as i128, 10_000_000);
    proof {
        assert(magnitude(cents as int) <= 4_000_000_000_000) by {
            assert(magnitude(2 * cents * 10_000_000 - 2 * n) <= 10_000_000);
        }
    }
    clamp((cents * 10_000_000) as i64, CENT, MAX_ORDER_PRICE)
}

/// The delta that a fill's first leg is measured from: the one given, else the
/// one known when it was signalled, else when it was filled.
pub open spec fn anchor_of(
    tape: Seq<(i64, i64)>,
    open_ms: int,
    delay_ms: int,
    fill_t: int,
    anchor_d: i64,
) -> i64 {
    let signal_t = if fill_t - delay_ms >= open_ms {
        fill_t - delay_ms
    } else {
        open_ms
    };
    if magnitude(anchor_d as int) > NO_ANCHOR {
        anchor_d
    } else {
        match price_known(tape, signal_t) {
            Some(d) => d,
            None => match price_known(tape, fill_t) {
                Some(d) => d,
                None => 0,
            },
        }
    }
}

/// The fills after `q` shares of the one at `i` have been paired.
pub open spec fn commit_paired(commits: Seq<CommittedLot>, i: int, q: int) -> Seq<CommittedLot> {
    commits.update(i, CommittedLot { paired: (commits[i].paired + q) as i64, ..commits[i] })
}

/// The fills after the first open ones of the two sides have been paired.
pub open spec fn commits_paired_once(commits: Seq<CommittedLot>) -> Seq<CommittedLot> {
    let book = commit_book(commits);
    let q = match_size(book);
    commit_paired(
        commit_paired(commits, first_open(book, PositionSide::Up, 0), q),
        first_open(book, PositionSide::Down, 0),
        q,
    )
}

/// The fills after everything that can be paired has been.
pub open spec fn commits_paired(commits: Seq<CommittedLot>) -> Seq<CommittedLot>
    decreases open_count(commit_book(commits)),
{
    if can_match(commit_book(commits)) {
        proof {
            pairing_commits_matches_the_book(commits);
            one_match_closes_a_holding(commit_book(commits));
        }
        commits_paired(commits_paired_once(commits))
    } else {
        commits
    }
}

/// The fills after a buy.
pub open spec fn commits_bought(
    commits: Seq<CommittedLot>,
    side: PositionSide,
    shares: i64,
    fill: i64,
    fill_t: i64,
    is_pair: bool,
    anchor_d: i64,
) -> Seq<CommittedLot> {
    let added = commits.push(
        CommittedLot {
            side,
            shares,
            fill,
            fill_t,
            paired: 0,
            anchor_d,
            from_trough: side == PositionSide::Up,
        },
    );
    if is_pair {
        commits_paired(added)
    } else {
        added
    }
}

/// The fills after a side has been sold: all of it is closed.
pub open spec fn commits_sold(commits: Seq<CommittedLot>, side: PositionSide) -> Seq<
    CommittedLot,
> {
    commits.map_values(
        |c: CommittedLot|
            if c.side == side {
                CommittedLot { paired: c.shares, ..c }
            } else {
                c
            },
    )
}

/// Open shares of a side among fills.
pub open spec fn open_on(commits: Seq<CommittedLot>, side: PositionSide) -> int {
    open_shares(commit_book(commits), side)
}

/// Open shares among fills.
pub open spec fn open_in(commits: Seq<CommittedLot>) -> int {
    all_open(commit_book(commits))
}

/// The key of a trade.
pub open spec fn key_of(tr: SimTrade) -> EmitKey {
    EmitKey {
        kind: tr.kind,
        side: tr.side,
        t: if tr.reason == Reason::EarlyOpposite {
            None
        } else {
            Some(tr.t)
        },
        reason: tr.reason,
    }
}

/// The order that a trade asks for.
pub open spec fn action_of(tr: SimTrade, delay_ms: int) -> BotAction {
    let signal_t = (tr.t - delay_ms) as i64;
    let worst_ask = cent_price(tr.fill + CHASE) as i64;
    if tr.kind == TradeKind::Sell {
        BotAction::SellFlatten { side: tr.side, signal_t, worst_ask, reason: tr.reason }
    } else if tr.reason.completes_pair() {
        BotAction::BuyPair { side: tr.side, signal_t, worst_ask, reason: tr.reason }
    } else {
        BotAction::BuyEntry { side: tr.side, signal_t, worst_ask, reason: tr.reason }
    }
}

/// Whether the fills in place allow a trade: a first leg with nothing open, a
/// second leg against an open opposite, a sale of something open.
pub open spec fn inventory_allows(commits: Seq<CommittedLot>, tr: SimTrade) -> bool {
    match tr.kind {
        TradeKind::Buy => if tr.reason.completes_pair() {
            open_on(commits, tr.side.opposite_spec()) > 0
        } else {
            open_in(commits) <= 0
        },
        TradeKind::Sell => open_on(commits, tr.side) > 0,
        _ => false,
    }
}

/// Whether a trade is asked for now: its time has come, the fills allow it and
/// it has not been asked for.
pub open spec fn asks_for(b: Intents, now_ms: int, tr: SimTrade) -> bool {
    tr.t <= now_ms && inventory_allows(b.commits, tr) && !b.emitted.contains(key_of(tr))
}

/// The fills after a trade that is asked for.
pub open spec fn commits_after(
    commits: Seq<CommittedLot>,
    tape: Seq<(i64, i64)>,
    open_ms: int,
    delay_ms: int,
    tr: SimTrade,
) -> Seq<CommittedLot> {
    if tr.kind == TradeKind::Sell {
        commits_sold(commits, tr.side)
    } else {
        commits_bought(
            commits,
            tr.side,
            tr.shares,
            tr.fill,
            tr.t,
            tr.reason.completes_pair(),
            anchor_of(tape, open_ms, delay_ms, tr.t as int, tr.anchor_d),
        )
    }
}

/// What a trade leads to.
pub open spec fn emit_step(
    b: Intents,
    tape: Seq<(i64, i64)>,
    open_ms: int,
    delay_ms: int,
    now_ms: int,
    tr: SimTrade,
) -> Intents {
    if asks_for(b, now_ms, tr) {
        Intents {
            commits: commits_after(b.commits, tape, open_ms, delay_ms, tr),
            emitted: b.emitted.push(key_of(tr)),
            pending: b.pending.push(action_of(tr, delay_ms)),
        }
    } else {
        b
    }
}

/// What the first `n` trades lead to.
pub open spec fn emitted_through(
    b: Intents,
    tape: Seq<(i64, i64)>,
    open_ms: int,
    delay_ms: int,
    now_ms: int,
    trades: Seq<SimTrade>,
    n: int,
) -> Intents
    decreases n,
{
    if n <= 0 {
        b
    } else {
        emit_step(
            emitted_through(b, tape, open_ms, delay_ms, now_ms, trades, n - 1),
            tape,
            open_ms,
            delay_ms,
            now_ms,
            trades[n - 1],
        )
    }
}

/// The book after fills have been paired is the book with the open shares
/// reduced.
pub proof fn pairing_commits_matches_the_book(commits: Seq<CommittedLot>)
    requires
        can_match(commit_book(commits)),
    ensures
        commit_book(commits_paired_once(commits)) == matched_once(commit_book(commits)),
{
    let book = commit_book(commits);
    let u = first_open(book, PositionSide::Up, 0);
    let d = first_open(book, PositionSide::Down, 0);
    first_open_finds_the_first(book, PositionSide::Up, 0);
    first_open_finds_the_first(book, PositionSide::Down, 0);
    assert(book[u] == (commits[u].side, commits[u].shares - commits[u].paired));
    assert(book[d] == (commits[d].side, commits[d].shares - commits[d].paired));
    assert(u != d);
    assert(commit_book(commits_paired_once(commits)) =~= matched_once(book));
}

/// Pairing fills matches their book.
pub proof fn paired_commits_match_the_book(commits: Seq<CommittedLot>)
    ensures
        commit_book(commits_paired(commits)) == matched(commit_book(commits)),
        commits_paired(commits).len() == commits.len(),
    decreases open_count(commit_book(commits)),
{
    if can_match(commit_book(commits)) {
        pairing_commits_matches_the_book(commits);
        one_match_closes_a_holding(commit_book(commits));
        paired_commits_match_the_book(commits_paired_once(commits));
    }
}

/// The fills in place, the orders asked for, and those not yet handed out.
pub struct IntentBook {
    commits: Vec<CommittedLot>,
    emitted: Vec<EmitKey>,
    pending: Vec<BotAction>,
}

impl View for IntentBook {
    type V = Intents;

    closed spec fn view(&self) -> Intents {
        Intents {
            commits: self.commits@,
            emitted: self.emitted@,
            pending: self.pending@,
        }
    }
}

/// Nothing in place, nothing asked for.
pub open spec fn no_intents() -> Intents {
    Intents { commits: Seq::empty(), emitted: Seq::empty(), pending: Seq::empty() }
}

/// Position of the first open fill of a side.
fn first_open_commit(commits: &Vec<CommittedLot>, side: PositionSide) -> (r: usize)
    requires
        commits_ok(commits@),
    ensures
        r == first_open(commit_book(commits@), side, 0),
        r <= commits.len(),
{
    let ghost book = commit_book(commits@);
    let mut i: usize = 0;
    while i < commits.len() && !(commits[i].side == side && commits[i].shares > commits[i].paired)
        invariant
            i <= commits.len(),
            book == commit_book(commits@),
            first_open(book, side, 0) == first_open(book, side, i as int),
        decreases commits.len() - i,
    {
        proof {
            assert(book[i as int] == (commits[i as int].side, commits[i as int].shares
                - commits[i as int].paired));
        }
        i = i + 1;
    }
    proof {
        if i < commits.len() {
            assert(book[i as int] == (commits[i as int].side, commits[i as int].shares
                - commits[i as int].paired));
        }
    }
    i
}

/// Pairs everything among fills that can be paired.
fn pair_commits(commits: &mut Vec<CommittedLot>)
    requires
        commits_ok(old(commits)@),
    ensures
        final(commits)@ == commits_paired(old(commits)@),
        commits_ok(final(commits)@),
        final(commits).len() == old(commits).len(),
{
    let ghost target = commits_paired(commits@);
    let mut ui: usize = first_open_commit(commits, PositionSide::Up);
    let mut di: usize = first_open_commit(commits, PositionSide::Down);
    while ui < commits.len() && di < commits.len()
        invariant
            commits_ok(commits@),
            commits.len() == old(commits).len(),
            ui == first_open(commit_book(commits@), PositionSide::Up, 0),
            di == first_open(commit_book(commits@), PositionSide::Down, 0),
            target == commits_paired(commits@),
        decreases open_count(commit_book(commits@)),
    {
        let ghost before = commits@;
        let ghost book = commit_book(before);
        proof {
            first_open_finds_the_first(book, PositionSide::Up, 0);
            first_open_finds_the_first(book, PositionSide::Down, 0);
            one_match_closes_a_holding(book);
            pairing_commits_matches_the_book(before);
            assert(book[ui as int] == (before[ui as int].side, before[ui as int].shares
                - before[ui as int].paired));
            assert(book[di as int] == (before[di as int].side, before[di as int].shares
                - before[di as int].paired));
            assert(commit_ok(before[ui as int]) && commit_ok(before[di as int]));
        }
        let mut up: CommittedLot = commits[ui];
        let mut down: CommittedLot = commits[di];
        let up_open: i64 = up.shares - up.paired;
        let down_open: i64 = down.shares - down.paired;
        let q: i64 = if up_open <= down_open {
            up_open
        } else {
            down_open
        };
        up.paired = up.paired + q;
        down.paired = down.paired + q;
        commits.set(ui, up);
        commits.set(di, down);
        proof {
            assert(commits@ =~= commits_paired_once(before));
            assert forall|i: int| 0 <= i < commits@.len() implies commit_ok(
                #[trigger] commits@[i],
            ) by {
                assert(commit_ok(before[i]));
            }
        }
        ui = first_open_commit(commits, PositionSide::Up);
        di = first_open_commit(commits, PositionSide::Down);
    }
}

/// The delta that a fill's first leg is measured from.
pub fn recover_anchor(
    tape: &[(i64, i64)],
    open_ms: i64,
    delay_ms: i64,
    fill_t: i64,
    anchor_d: i64,
) -> (r: i64)
    requires
        delta_tape_ok(tape@),
        delta_ok(anchor_d as int),
        time_ok(open_ms as int),
        time_ok(delay_ms as int),
        magnitude(fill_t as int) <= 2 * MAX_MS,
    ensures
        r == anchor_of(tape@, open_ms as int, delay_ms as int, fill_t as int, anchor_d),
        delta_ok(r as int),
{
    if abs(anchor_d) > NO_ANCHOR {
        return anchor_d;
    }
    let at_signal: i64 = fill_t - delay_ms;
    let signal_t: i64 = if at_signal >= open_ms {
        at_signal
    } else {
        open_ms
    };
    proof {
        known_delta_is_ok(tape@, signal_t as int);
        known_delta_is_ok(tape@, fill_t as int);
    }
    match px_at(tape, signal_t) {
        Some(d) => d,
        None => match px_at(tape, fill_t) {
            Some(d) => d,
            None => 0,
        },
    }
}

impl IntentBook {
    /// A book with nothing in it.
    pub fn new() -> (r: IntentBook)
        ensures
            r@ == no_intents(),
            commits_ok(r@.commits),
    {
        let r: IntentBook = IntentBook {
            commits: Vec::new(),
            emitted: Vec::new(),
            pending: Vec::new(),
        };
        proof {
            assert(r@.commits =~= Seq::<CommittedLot>::empty());
            assert(r@.emitted =~= Seq::<EmitKey>::empty());
            assert(r@.pending =~= Seq::<BotAction>::empty());
        }
        r
    }

    /// The fills in place.
    pub fn commits(&self) -> (r: &Vec<CommittedLot>)
        ensures
            r@ == self@.commits,
    {
        &self.commits
    }

    /// Open shares of a side.
    pub fn unpaired_on(&self, side: PositionSide) -> (r: i128)
        requires
            commits_ok(self@.commits),
        ensures
            r == open_on(self@.commits, side),
            0 <= r <= MAX_COMMITS * MAX_SHARES,
    {
        let mut sum: i128 = 0;
        let mut i: usize = 0;
        while i < self.commits.len()
            invariant
                i <= self.commits.len() <= MAX_COMMITS,
                self.commits@ == self@.commits,
                commits_ok(self@.commits),
                sum == open_on(self@.commits.take(i as int), side),
                0 <= sum <= i * MAX_SHARES,
            decreases self.commits.len() - i,
        {
            let c: CommittedLot = self.commits[i];
            proof {
                let book = commit_book(self@.commits.take(i + 1));
                assert(commit_ok(self@.commits[i as int]));
                assert(book.drop_last() =~= commit_book(self@.commits.take(i as int)));
                assert(book.last() == (c.side, c.shares - c.paired));
            }
            if c.side == side && c.shares > c.paired {
                sum = sum + (c.shares - c.paired) as i128;
            }
            i = i + 1;
        }
        proof {
            assert(self@.commits.take(i as int) =~= self@.commits);
        }
        sum
    }

    /// Open shares of both sides.
    pub fn unpaired_shares(&self) -> (r: i128)
        requires
            commits_ok(self@.commits),
        ensures
            r == open_in(self@.commits),
            r >= 0,
    {
        self.unpaired_on(PositionSide::Up) + self.unpaired_on(PositionSide::Down)
    }

    /// Records a buy.
    pub fn commit_buy(
        &mut self,
        side: PositionSide,
        shares: i64,
        fill: i64,
        fill_t: i64,
        is_pair: bool,
        anchor_d: i64,
    )
        requires
            commits_ok(old(self)@.commits),
            old(self)@.commits.len() < MAX_COMMITS,
            shares_ok(shares as int),
            ask_ok(fill as int),
            delta_ok(anchor_d as int),
            magnitude(fill_t as int) <= 2 * MAX_MS,
        ensures
            final(self)@ == (Intents {
                commits: commits_bought(
                    old(self)@.commits,
                    side,
                    shares,
                    fill,
                    fill_t,
                    is_pair,
                    anchor_d,
                ),
                ..old(self)@
            }),
            commits_ok(final(self)@.commits),
            final(self)@.commits.len() == old(self)@.commits.len() + 1,
    {
        let ghost before = self@.commits;
        self.commits.push(
            CommittedLot {
                side,
                shares,
                fill,
                fill_t,
                paired: 0,
                anchor_d,
                from_trough: side == PositionSide::Up,
            },
        );
        proof {
            assert forall|i: int| 0 <= i < self.commits@.len() implies commit_ok(
                #[trigger] self.commits@[i],
            ) by {
                if i < before.len() {
                    assert(commit_ok(before[i]));
                }
            }
        }
        if is_pair {
            pair_commits(&mut self.commits);
        }
    }

    /// Records the sale of a side.
    pub fn commit_sell(&mut self, side: PositionSide)
        requires
            commits_ok(old(self)@.commits),
        ensures
            final(self)@ == (Intents {
                commits: commits_sold(old(self)@.commits, side),
                ..old(self)@
            }),
            commits_ok(final(self)@.commits),
    {
        let ghost before = self@.commits;
        let ghost target = commits_sold(before, side);
        let mut i: usize = 0;
        while i < self.commits.len()
            invariant
                i <= self.commits.len(),
                self.commits.len() == before.len(),
                self.emitted@ == old(self)@.emitted,
                self.pending@ == old(self)@.pending,
                target == commits_sold(before, side),
                forall|k: int| 0 <= k < i ==> #[trigger] self.commits@[k] == target[k],
                forall|k: int|
                    i <= k < before.len() ==> #[trigger] self.commits@[k] == before[k],
            decreases self.commits.len() - i,
        {
            let mut c: CommittedLot = self.commits[i];
            if c.side == side {
                c.paired = c.shares;
                self.commits.set(i, c);
            }
            i = i + 1;
        }
        proof {
            assert(self.commits@ =~= target);
            assert forall|k: int| 0 <= k < self.commits@.len() implies commit_ok(
                #[trigger] self.commits@[k],
            ) by {
                assert(commit_ok(before[k]));
            }
        }
    }

    /// Whether an order was asked for.
    fn was_emitted(&self, key: &EmitKey) -> (r: bool)
        ensures
            r == self@.emitted.contains(*key),
    {
        let mut i: usize = 0;
        while i < self.emitted.len()
            invariant
                i <= self.emitted.len(),
                forall|k: int| 0 <= k < i ==> self.emitted@[k] != *key,
            decreases self.emitted.len() - i,
        {
            if self.emitted[i] == *key {
                proof {
                    assert(self@.emitted[i as int] == *key);
                }
                return true;
            }
            i = i + 1;
        }
        false
    }

    /// Whether the fills in place allow a trade.
    fn allows(&self, tr: &SimTrade) -> (r: bool)
        requires
            commits_ok(self@.commits),
        ensures
            r == inventory_allows(self@.commits, *tr),
    {
        match tr.kind {
            TradeKind::Buy => if tr.reason.is_second_leg() {
                self.unpaired_on(tr.side.opposite()) > 0
            } else {
                self.unpaired_shares() <= 0
            },
            TradeKind::Sell => self.unpaired_on(tr.side) > 0,
            _ => false,
        }
    }

    /// Asks for a trade if it is due.
    fn emit_one(
        &mut self,
        tape: &[(i64, i64)],
        open_ms: i64,
        delay_ms: i64,
        now_ms: i64,
        tr: &SimTrade,
    )
        requires
            commits_ok(old(self)@.commits),
            old(self)@.commits.len() + (if tr.kind == TradeKind::Buy {
                1int
            } else {
                0int
            }) <= MAX_COMMITS,
            trade_ok(*tr),
            delta_tape_ok(tape@),
            time_ok(open_ms as int),
            time_ok(delay_ms as int),
        ensures
            final(self)@ == emit_step(
                old(self)@,
                tape@,
                open_ms as int,
                delay_ms as int,
                now_ms as int,
                *tr,
            ),
            commits_ok(final(self)@.commits),
            final(self)@.commits.len() <= old(self)@.commits.len() + (if tr.kind
                == TradeKind::Buy {
                1int
            } else {
                0int
            }),
            actions_ok(old(self)@.pending) ==> actions_ok(final(self)@.pending),
    {
        if tr.t > now_ms || !self.allows(tr) {
            return;
        }
        let key: EmitKey = EmitKey {
            kind: tr.kind,
            side: tr.side,
            t: if tr.reason == Reason::EarlyOpposite {
                None
            } else {
                Some(tr.t)
            },
            reason: tr.reason,
        };
        if self.was_emitted(&key) {
            return;
        }
        let signal_t: i64 = tr.t - delay_ms;
        let worst_ask: i64 = clamp_price(tr.fill + CHASE);
        let action: BotAction = if tr.kind == TradeKind::Sell {
            self.commit_sell(tr.side);
            BotAction::SellFlatten { side: tr.side, signal_t, worst_ask, reason: tr.reason }
        } else {
            let second: bool = tr.reason.is_second_leg();
            let anchor_d: i64 = recover_anchor(tape, open_ms, delay_ms, tr.t, tr.anchor_d);
            self.commit_buy(tr.side, tr.shares, tr.fill, tr.t, second, anchor_d);
            if second {
                BotAction::BuyPair { side: tr.side, signal_t, worst_ask, reason: tr.reason }
            } else {
                BotAction::BuyEntry { side: tr.side, signal_t, worst_ask, reason: tr.reason }
            }
        };
        self.emitted.push(key);
        self.pending.push(action);
    }

    /// Asks for the trades that are due.
    pub fn emit(
        &mut self,
        tape: &[(i64, i64)],
        open_ms: i64,
        delay_ms: i64,
        now_ms: i64,
        trades: &[SimTrade],
    )
        requires
            commits_ok(old(self)@.commits),
            old(self)@.commits.len() + count_of(trades@, TradeKind::Buy) <= MAX_COMMITS,
            forall|i: int| 0 <= i < trades.len() ==> trade_ok(#[trigger] trades[i]),
            delta_tape_ok(tape@),
            time_ok(open_ms as int),
            time_ok(delay_ms as int),
        ensures
            final(self)@ == emitted_through(
                old(self)@,
                tape@,
                open_ms as int,
                delay_ms as int,
                now_ms as int,
                trades@,
                trades.len() as int,
            ),
            commits_ok(final(self)@.commits),
            final(self)@.commits.len() <= old(self)@.commits.len() + count_of(
                trades@,
                TradeKind::Buy,
            ),
            actions_ok(old(self)@.pending) ==> actions_ok(final(self)@.pending),
    {
        let mut n: usize = 0;
        while n < trades.len()
            invariant
                n <= trades.len(),
                commits_ok(self@.commits),
                actions_ok(old(self)@.pending) ==> actions_ok(self@.pending),
                self@.commits.len() <= old(self)@.commits.len() + count_of(
                    trades@.take(n as int),
                    TradeKind::Buy,
                ),
                old(self)@.commits.len() + count_of(trades@, TradeKind::Buy) <= MAX_COMMITS,
                forall|i: int| 0 <= i < trades.len() ==> trade_ok(#[trigger] trades[i]),
                delta_tape_ok(tape@),
                time_ok(open_ms as int),
                time_ok(delay_ms as int),
                self@ == emitted_through(
                    old(self)@,
                    tape@,
                    open_ms as int,
                    delay_ms as int,
                    now_ms as int,
                    trades@,
                    n as int,
                ),
            decreases trades.len() - n,
        {
            let tr: SimTrade = trades[n];
            proof {
                assert(trades@.take(n + 1).drop_last() =~= trades@.take(n as int));
                counts_grow(trades@, n + 1, TradeKind::Buy);
                assert(trade_ok(trades[n as int]));
            }
            self.emit_one(tape, open_ms, delay_ms, now_ms, &tr);
            n = n + 1;
        }
        proof {
            assert(trades@.take(n as int) =~= trades@);
        }
    }

    /// Hands out the orders that were asked for.
    pub fn take_pending(&mut self) -> (r: Vec<BotAction>)
        ensures
            r@ == old(self)@.pending,
            final(self)@ == (Intents { pending: Seq::empty(), ..old(self)@ }),
    {
        let mut r: Vec<BotAction> = Vec::new();
        std::mem::swap(&mut r, &mut self.pending);
        proof {
            assert(self@.pending =~= Seq::<BotAction>::empty());
        }
        r
    }
}

proof fn counts_grow(trades: Seq<SimTrade>, n: int, kind: TradeKind)
    requires
        0 <= n <= trades.len(),
    ensures
        0 <= count_of(trades.take(n), kind) <= count_of(trades, kind),
    decreases trades.len(),
{
    if trades.len() == 0 {
    } else if n == trades.len() {
        assert(trades.take(n) =~= trades);
        counts_grow(trades.drop_last(), n - 1, kind);
    } else {
        assert(trades.drop_last().take(n) =~= trades.take(n));
        counts_grow(trades.drop_last(), n, kind);
    }
}

/// No order is asked for twice, and what is handed out is what was asked for:
/// the keys stay distinct, and one order is added for each key.
pub proof fn orders_are_asked_for_once(
    b: Intents,
    tape: Seq<(i64, i64)>,
    open_ms: int,
    delay_ms: int,
    now_ms: int,
    trades: Seq<SimTrade>,
    n: int,
)
    requires
        b.emitted.no_duplicates(),
        0 <= n <= trades.len(),
    ensures
        ({
            let after = emitted_through(b, tape, open_ms, delay_ms, now_ms, trades, n);
            &&& after.emitted.no_duplicates()
            &&& b.emitted.is_prefix_of(after.emitted)
            &&& b.pending.is_prefix_of(after.pending)
            &&& after.pending.len() - b.pending.len() == after.emitted.len() - b.emitted.len()
        }),
    decreases n,
{
    if n > 0 {
        orders_are_asked_for_once(b, tape, open_ms, delay_ms, now_ms, trades, n - 1);
    }
}

/// Whether two orders are the same: of one kind, side and reason, and signalled
/// at one time, which does not matter for early opposites.
pub open spec fn same_order(a: BotAction, b: BotAction) -> bool {
    match (a, b) {
        (
            BotAction::BuyEntry { side: s1, signal_t: t1, reason: r1, .. },
            BotAction::BuyEntry { side: s2, signal_t: t2, reason: r2, .. },
        ) => s1 == s2 && r1 == r2 && (t1 == t2 || r1 == Reason::EarlyOpposite),
        (
            BotAction::BuyPair { side: s1, signal_t: t1, reason: r1, .. },
            BotAction::BuyPair { side: s2, signal_t: t2, reason: r2, .. },
        ) => s1 == s2 && r1 == r2 && (t1 == t2 || r1 == Reason::EarlyOpposite),
        (
            BotAction::SellFlatten { side: s1, signal_t: t1, reason: r1, .. },
            BotAction::SellFlatten { side: s2, signal_t: t2, reason: r2, .. },
        ) => s1 == s2 && r1 == r2 && (t1 == t2 || r1 == Reason::EarlyOpposite),
        _ => false,
    }
}

/// Whether no two of some orders are the same.
pub open spec fn all_different(orders: Seq<BotAction>) -> bool {
    forall|i: int, j: int|
        #![trigger orders[i], orders[j]]
        0 <= i < j < orders.len() ==> !same_order(orders[i], orders[j])
}

/// The key of the trade that an order was asked for by.
pub open spec fn key_asked(a: BotAction, delay_ms: int) -> EmitKey {
    let (kind, side, signal_t, reason) = match a {
        BotAction::BuyEntry { side, signal_t, reason, .. } => (
            TradeKind::Buy,
            side,
            signal_t,
            reason,
        ),
        BotAction::BuyPair { side, signal_t, reason, .. } => (
            TradeKind::Buy,
            side,
            signal_t,
            reason,
        ),
        BotAction::SellFlatten { side, signal_t, reason, .. } => (
            TradeKind::Sell,
            side,
            signal_t,
            reason,
        ),
    };
    EmitKey {
        kind,
        side,
        t: if reason == Reason::EarlyOpposite {
            None
        } else {
            Some((signal_t + delay_ms) as i64)
        },
        reason,
    }
}

/// Whether orders are those that were asked for, one for each key.
pub open spec fn are_asked_for(orders: Seq<BotAction>, emitted: Seq<EmitKey>, delay_ms: int) -> bool {
    &&& orders.len() == emitted.len()
    &&& forall|k: int|
        0 <= k < orders.len() ==> key_asked(#[trigger] orders[k], delay_ms) == emitted[k]
}

proof fn an_order_keeps_its_key(tr: SimTrade, delay_ms: i64)
    requires
        tr.kind == TradeKind::Buy || tr.kind == TradeKind::Sell,
    ensures
        key_asked(action_of(tr, delay_ms as int), delay_ms as int) == key_of(tr),
{
    let t: i64 = tr.t;
    assert(((t - delay_ms) as i64 + delay_ms) as i64 == t) by (bit_vector);
}

/// Whether `orders` have been handed out from one state of affairs to another:
/// they are what has been asked for in between, each by a key of its own, and
/// nothing is left to hand out.
pub open spec fn hands_out(
    before: Intents,
    orders: Seq<BotAction>,
    after: Intents,
    delay_ms: int,
) -> bool {
    &&& before.pending.len() == 0
    &&& after.pending.len() == 0
    &&& before.emitted.is_prefix_of(after.emitted)
    &&& are_asked_for(orders, after.emitted.skip(before.emitted.len() as int), delay_ms)
    &&& before.emitted.no_duplicates() ==> after.emitted.no_duplicates()
}

proof fn orders_follow_their_keys(
    b: Intents,
    tape: Seq<(i64, i64)>,
    open_ms: int,
    delay_ms: i64,
    now_ms: int,
    trades: Seq<SimTrade>,
    n: int,
)
    requires
        b.pending.len() == 0,
        0 <= n <= trades.len(),
    ensures
        ({
            let after = emitted_through(b, tape, open_ms, delay_ms as int, now_ms, trades, n);
            &&& b.emitted.is_prefix_of(after.emitted)
            &&& are_asked_for(
                after.pending,
                after.emitted.skip(b.emitted.len() as int),
                delay_ms as int,
            )
        }),
    decreases n,
{
    let m = b.emitted.len() as int;
    if n > 0 {
        orders_follow_their_keys(b, tape, open_ms, delay_ms, now_ms, trades, n - 1);
        let prev = emitted_through(b, tape, open_ms, delay_ms as int, now_ms, trades, n - 1);
        let tr = trades[n - 1];
        if asks_for(prev, now_ms, tr) {
            an_order_keeps_its_key(tr, delay_ms);
            assert(prev.emitted.push(key_of(tr)).skip(m) =~= prev.emitted.skip(m).push(key_of(tr)));
        }
    } else {
        assert(b.emitted.skip(m).len() == 0);
    }
}

/// Playing a window hands out the orders that it asks for.
pub proof fn asking_hands_out(
    b: Intents,
    tape: Seq<(i64, i64)>,
    open_ms: int,
    delay_ms: i64,
    now_ms: int,
    trades: Seq<SimTrade>,
)
    requires
        b.pending.len() == 0,
    ensures
        ({
            let after = emitted_through(
                b,
                tape,
                open_ms,
                delay_ms as int,
                now_ms,
                trades,
                trades.len() as int,
            );
            hands_out(
                b,
                after.pending,
                Intents { pending: Seq::empty(), ..after },
                delay_ms as int,
            )
        }),
{
    let n = trades.len() as int;
    orders_follow_their_keys(b, tape, open_ms, delay_ms, now_ms, trades, n);
    if b.emitted.no_duplicates() {
        orders_are_asked_for_once(b, tape, open_ms, delay_ms as int, now_ms, trades, n);
    }
}

/// Where nothing is asked for, nothing is handed out.
pub proof fn nothing_is_handed_out(before: Intents, after: Intents, delay_ms: int)
    requires
        before.pending.len() == 0,
        after.pending == before.pending,
        after.emitted == before.emitted,
    ensures
        hands_out(before, Seq::empty(), after, delay_ms),
{
    assert(after.emitted.skip(before.emitted.len() as int).len() == 0);
}

/// What is handed out first and what is handed out next is handed out in all.
pub proof fn handing_out_adds_up(
    before: Intents,
    first: Seq<BotAction>,
    between: Intents,
    next: Seq<BotAction>,
    after: Intents,
    delay_ms: int,
)
    requires
        hands_out(before, first, between, delay_ms),
        hands_out(between, next, after, delay_ms),
    ensures
        hands_out(before, first + next, after, delay_ms),
{
    let all = first + next;
    let m = before.emitted.len() as int;
    let k = between.emitted.len() as int;
    let keys = after.emitted.skip(m);
    assert forall|i: int| 0 <= i < all.len() implies key_asked(#[trigger] all[i], delay_ms)
        == keys[i] by {
        if i < first.len() {
            assert(key_asked(first[i], delay_ms) == between.emitted.skip(m)[i]);
        } else {
            let j = i - first.len();
            assert(key_asked(next[j], delay_ms) == after.emitted.skip(k)[j]);
        }
    }
}

/// No two orders that have been handed out are the same.
pub proof fn what_is_handed_out_differs(
    before: Intents,
    orders: Seq<BotAction>,
    after: Intents,
    delay_ms: int,
)
    requires
        hands_out(before, orders, after, delay_ms),
        before.emitted.no_duplicates(),
    ensures
        all_different(orders),
{
    let keys = after.emitted.skip(before.emitted.len() as int);
    assert forall|i: int, j: int|
        #![trigger orders[i], orders[j]]
        0 <= i < j < orders.len() implies !same_order(orders[i], orders[j]) by {
        assert(key_asked(orders[i], delay_ms) == keys[i]);
        assert(key_asked(orders[j], delay_ms) == keys[j]);
        assert(keys[i] == after.emitted[before.emitted.len() + i]);
        assert(keys[j] == after.emitted[before.emitted.len() + j]);
    }
}

/// A sale leaves nothing open on its side and changes nothing on the other.
pub proof fn a_sale_closes_its_side(commits: Seq<CommittedLot>, side: PositionSide)
    ensures
        !has_open(commit_book(commits_sold(commits, side)), side),
        has_open(commit_book(commits_sold(commits, side)), side.opposite_spec()) == has_open(
            commit_book(commits),
            side.opposite_spec(),
        ),
{
    let sold = commits_sold(commits, side);
    let book = commit_book(commits);
    let after = commit_book(sold);
    let other = side.opposite_spec();
    open_means_an_open_holding(after, side);
    open_means_an_open_holding(after, other);
    open_means_an_open_holding(book, other);
    assert forall|k: int| 0 <= k < after.len() implies (#[trigger] after[k]).0 == book[k].0 && (
    if book[k].0 == side {
        after[k].1 == 0
    } else {
        after[k] == book[k]
    }) by {
        assert(after[k] == (sold[k].side, sold[k].shares - sold[k].paired));
        assert(book[k] == (commits[k].side, commits[k].shares - commits[k].paired));
    }
    if has_open(book, other) {
        let k = choose|k: int|
            0 <= k < book.len() && (#[trigger] book[k]).0 == other && book[k].1 > 0;
        assert(after[k] == book[k]);
    }
    if has_open(after, other) {
        let k = choose|k: int|
            0 <= k < after.len() && (#[trigger] after[k]).0 == other && after[k].1 > 0;
        assert(after[k] == book[k]);
    }
}

/// The fills in place are open on one side at most, whatever is asked for: a
/// first leg is bought with nothing open, a second leg is paired at once.
pub proof fn fills_are_open_on_one_side(
    b: Intents,
    tape: Seq<(i64, i64)>,
    open_ms: int,
    delay_ms: int,
    now_ms: int,
    trades: Seq<SimTrade>,
    n: int,
)
    requires
        !can_match(commit_book(b.commits)),
        0 <= n <= trades.len(),
    ensures
        !can_match(
            commit_book(
                emitted_through(b, tape, open_ms, delay_ms, now_ms, trades, n).commits,
            ),
        ),
    decreases n,
{
    if n > 0 {
        fills_are_open_on_one_side(b, tape, open_ms, delay_ms, now_ms, trades, n - 1);
        let prev = emitted_through(b, tape, open_ms, delay_ms, now_ms, trades, n - 1);
        let tr = trades[n - 1];
        if asks_for(prev, now_ms, tr) {
            if tr.kind == TradeKind::Sell {
                a_sale_closes_its_side(prev.commits, tr.side);
            } else {
                let c = CommittedLot {
                    side: tr.side,
                    shares: tr.shares,
                    fill: tr.fill,
                    fill_t: tr.t,
                    paired: 0,
                    anchor_d: anchor_of(tape, open_ms, delay_ms, tr.t as int, tr.anchor_d),
                    from_trough: tr.side == PositionSide::Up,
                };
                let book = commit_book(prev.commits);
                let added = prev.commits.push(c);
                let e = (tr.side, tr.shares as int);
                assert(commit_book(added) =~= book.push(e));
                adding_a_holding(book, e);
                if tr.reason.completes_pair() {
                    paired_commits_match_the_book(added);
                    matching_conserves_shares(commit_book(added));
                } else {
                    let other = tr.side.opposite_spec();
                    open_shares_are_not_negative(book, PositionSide::Up);
                    open_shares_are_not_negative(book, PositionSide::Down);
                    open_shares_are_not_negative(book.push(e), other);
                    assert(open_shares(book.push(e), other) == open_shares(book, other));
                }
            }
        }
    }
}

} // verus!
