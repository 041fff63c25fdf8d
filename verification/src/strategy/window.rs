//! A window played from the fills that are already in place.
use vstd::prelude::*;
use crate::fifo::{
    all_open, can_match, first_open, first_open_finds_the_first, matched, matched_once,
    one_match_closes_a_holding, open_count, open_count_is_bounded, open_shares,
};
use crate::pnl::taker_fee_usdc;
use crate::units::{ask_ok, magnitude, shares_ok, time_ok, MAX_MS, MAX_SHARES};
use super::sides::PositionSide;
use super::sim::{
    known_delta_is_ok, lot_book, lot_ok, net_sum, new_lot, played, sim_ok, sum_of_nets, terms_ok,
    trade_ok, Anchor, Lot, Sim, SimState, Terms, FIRST_COOLDOWN_MS, FIRST_TICK_MS, MAX_COMMITS,
    MAX_PAIRS, MAX_WINDOW_MS, PAIR_COOLDOWN_MS, TICK_MS,
};
use super::sim_laws::{
    books_balance, buys_keep_to_the_rules, buys_of_size, buys_start, buys_wait, count_of,
    every_buy_is_of_the_size, left_on, lot_sound, pair_earned, pairs_never_lose, sales_follow_buys, shares_left,
};
use super::swings::{
    delta_ok, delta_tape_ok, sample, sampled, samples_are_on_the_grid, swings_ok, ExtKind, Swing,
    MIN_LEFT_MS,
};
use super::tape::ask_tape_ok;
use super::trades::{SimTrade, TradeKind};

verus! {

/// A fill that is already in place.
#[derive(Clone, Copy, Debug, PartialEq, Eq, Structural)]
pub struct CommittedLot {
    pub side: PositionSide,
    pub shares: i64,
    pub fill: i64,
    pub fill_t: i64,
    pub paired: i64,
    pub anchor_d: i64,
    /// Whether the fill was made at a trough; else it was made at a peak.
    pub from_trough: bool,
}

/// What a window comes to.
#[derive(Debug)]
pub struct WindowResult {
    pub trades: Vec<SimTrade>,
    pub total_pnl: i128,
    pub pairs: u64,
    pub missed: u64,
}

/// What a window comes to.
pub struct Outcome {
    pub trades: Seq<SimTrade>,
    pub total_pnl: int,
    pub pairs: int,
    pub missed: int,
}

impl View for WindowResult {
    type V = Outcome;

    open spec fn view(&self) -> Outcome {
        Outcome {
            trades: self.trades@,
            total_pnl: self.total_pnl as int,
            pairs: self.pairs as int,
            missed: self.missed as int,
        }
    }
}

/// What a window in which nothing happens comes to.
pub open spec fn no_outcome() -> Outcome {
    Outcome { trades: Seq::empty(), total_pnl: 0, pairs: 0, missed: 0 }
}

impl Default for WindowResult {
    fn default() -> (r: WindowResult)
        ensures
            r@ == no_outcome(),
    {
        WindowResult { trades: Vec::new(), total_pnl: 0, pairs: 0, missed: 0 }
    }
}

/// Whether a fill is valid: its amounts are in range and what is paired lies
/// between nothing and all of it.
pub open spec fn commit_ok(c: CommittedLot) -> bool {
    &&& shares_ok(c.shares as int)
    &&& ask_ok(c.fill as int)
    &&& delta_ok(c.anchor_d as int)
    &&& magnitude(c.fill_t as int) <= 2 * MAX_MS
    &&& c.shares >= 0 ==> 0 <= c.paired <= c.shares
    &&& c.shares < 0 ==> c.shares <= c.paired <= 0
}

/// Whether fills are valid and few enough to start a window from.
pub open spec fn commits_ok(commits: Seq<CommittedLot>) -> bool {
    &&& commits.len() <= MAX_COMMITS
    &&& forall|i: int| 0 <= i < commits.len() ==> commit_ok(#[trigger] commits[i])
}

/// The kind of extreme that a fill was made at.
pub open spec fn kind_of(c: CommittedLot) -> ExtKind {
    if c.from_trough {
        ExtKind::Trough
    } else {
        ExtKind::Peak
    }
}

/// The lot of a fill.
pub open spec fn lot_of(c: CommittedLot) -> Lot {
    Lot {
        paired: c.paired,
        ..new_lot(c.side, c.shares, c.fill, c.fill_t as int, kind_of(c), c.anchor_d)
    }
}

/// The book of fills: the shares of each that are not paired.
pub open spec fn commit_book(commits: Seq<CommittedLot>) -> Seq<(PositionSide, int)> {
    commits.map_values(|c: CommittedLot| (c.side, c.shares - c.paired))
}

/// Paired shares of a side.
pub open spec fn paired_on(commits: Seq<CommittedLot>, side: PositionSide) -> int
    decreases commits.len(),
{
    if commits.len() == 0 {
        0
    } else {
        paired_on(commits.drop_last(), side) + (if commits.last().side == side {
            commits.last().paired as int
        } else {
            0
        })
    }
}

/// The pairs that the fills already make up, in whole orders.
pub open spec fn pairs_in(commits: Seq<CommittedLot>, shares: int) -> int {
    let up = paired_on(commits, PositionSide::Up);
    let down = paired_on(commits, PositionSide::Down);
    let both = if up <= down {
        up
    } else {
        down
    };
    if shares <= 0 || both <= 0 {
        0
    } else if both / shares > u32::MAX {
        u32::MAX as int
    } else {
        both / shares
    }
}

/// How many fills from `i` on are not later than `t`.
pub open spec fn rank(order: Seq<CommittedLot>, t: int, i: int) -> int
    decreases order.len() - i,
{
    if 0 <= i < order.len() && order[i].fill_t <= t {
        rank(order, t, i + 1)
    } else {
        i
    }
}

/// The first `n` fills in the order of their times; fills of one time keep
/// their order.
pub open spec fn fill_order(commits: Seq<CommittedLot>, n: int) -> Seq<CommittedLot>
    decreases n,
{
    if n <= 0 {
        Seq::empty()
    } else {
        let rest = fill_order(commits, n - 1);
        let c = commits[n - 1];
        rest.insert(rank(rest, c.fill_t as int, 0), c)
    }
}

/// The book after the first `n` fills of an order have been bought and matched.
pub open spec fn replayed(order: Seq<CommittedLot>, n: int) -> Seq<(PositionSide, int)>
    decreases n,
{
    if n <= 0 {
        Seq::empty()
    } else {
        matched(replayed(order, n - 1).push((order[n - 1].side, order[n - 1].shares as int)))
    }
}

/// The time of the next trade after the first `n` fills of an order.
pub open spec fn next_after(order: Seq<CommittedLot>, n: int, open_ms: int) -> int {
    if n <= 0 {
        open_ms
    } else {
        let c = order[n - 1];
        c.fill_t + (if can_match(replayed(order, n - 1).push((c.side, c.shares as int))) {
            PAIR_COOLDOWN_MS
        } else {
            FIRST_COOLDOWN_MS
        })
    }
}

/// The time of the next trade: after the last fill, longer if that fill
/// completed a pair.
pub open spec fn next_trade_t(commits: Seq<CommittedLot>, shares: int, open_ms: int) -> int {
    if shares <= 0 {
        open_ms
    } else {
        next_after(
            fill_order(commits, commits.len() as int),
            commits.len() as int,
            open_ms,
        )
    }
}

/// The anchor after the first `n` fills: the last of them that is open.
pub open spec fn anchor_in(commits: Seq<CommittedLot>, n: int) -> Option<Anchor>
    decreases n,
{
    if n <= 0 {
        None
    } else {
        let c = commits[n - 1];
        if c.shares > c.paired {
            Some(Anchor { t: c.fill_t, d: c.anchor_d, side: c.side, kind: kind_of(c) })
        } else {
            anchor_in(commits, n - 1)
        }
    }
}

/// The state that a window starts from.
pub open spec fn start_of(commits: Seq<CommittedLot>, w: Terms) -> Sim {
    Sim {
        lots: commits.map_values(|c: CommittedLot| lot_of(c)),
        trades: Seq::empty(),
        pairs: pairs_in(commits, w.shares as int),
        missed: 0,
        next_t: next_trade_t(commits, w.shares as int, w.open_ms as int),
        anchor: anchor_in(commits, commits.len() as int),
    }
}

/// Where the ticks of a window stop.
pub open spec fn ticks_end(w: Terms) -> int {
    if w.end_ms <= w.market_end - MIN_LEFT_MS {
        w.end_ms as int
    } else {
        w.market_end - MIN_LEFT_MS
    }
}

/// The ticks of a window.
pub open spec fn ticks_of(tape: Seq<(i64, i64)>, w: Terms) -> Seq<(i64, i64)> {
    sampled(tape, w.open_ms + FIRST_TICK_MS, ticks_end(w), TICK_MS as int)
}

/// What a window comes to that trades `swings`, with `tape` the deltas that
/// its ticks read.
pub open spec fn outcome_of(
    w: Terms,
    tape: Seq<(i64, i64)>,
    asks: Seq<(i64, i64, i64)>,
    swings: Seq<Swing>,
    winner: Option<PositionSide>,
    commits: Seq<CommittedLot>,
) -> Outcome {
    let end = played(start_of(commits, w), w, tape, asks, swings, ticks_of(tape, w), winner);
    Outcome {
        trades: end.trades,
        total_pnl: net_sum(end.trades),
        pairs: end.pairs,
        missed: end.missed,
    }
}

/// Fills in the order of their times.
fn in_fill_order(commits: &[CommittedLot]) -> (r: Vec<CommittedLot>)
    ensures
        r@ == fill_order(commits@, commits.len() as int),
        r.len() == commits.len(),
{
    let mut order: Vec<CommittedLot> = Vec::new();
    let mut n: usize = 0;
    while n < commits.len()
        invariant
            n <= commits.len(),
            order@ == fill_order(commits@, n as int),
            order.len() == n,
        decreases commits.len() - n,
    {
        let c: CommittedLot = commits[n];
        let mut i: usize = 0;
        while i < order.len() && order[i].fill_t <= c.fill_t
            invariant
                i <= order.len(),
                rank(order@, c.fill_t as int, 0) == rank(order@, c.fill_t as int, i as int),
            decreases order.len() - i,
        {
            i = i + 1;
        }
        order.insert(i, c);
        n = n + 1;
    }
    order
}

/// The view of a book.
pub open spec fn book_of(book: Seq<(PositionSide, i64)>) -> Seq<(PositionSide, int)> {
    book.map_values(|e: (PositionSide, i64)| (e.0, e.1 as int))
}

/// Position of the first open holding of a side.
fn first_open_in(book: &Vec<(PositionSide, i64)>, side: PositionSide) -> (r: usize)
    ensures
        r == first_open(book_of(book@), side, 0),
        r <= book.len(),
{
    let ghost view = book_of(book@);
    let mut i: usize = 0;
    while i < book.len() && !(book[i].0 == side && book[i].1 > 0)
        invariant
            i <= book.len(),
            view == book_of(book@),
            first_open(view, side, 0) == first_open(view, side, i as int),
        decreases book.len() - i,
    {
        proof {
            assert(view[i as int] == (book[i as int].0, book[i as int].1 as int));
        }
        i = i + 1;
    }
    proof {
        if i < book.len() {
            assert(view[i as int] == (book[i as int].0, book[i as int].1 as int));
        }
    }
    i
}

/// Matches everything in a book that can be matched, and says whether anything
/// was.
fn match_all(book: &mut Vec<(PositionSide, i64)>) -> (r: bool)
    ensures
        book_of(final(book)@) == matched(book_of(old(book)@)),
        r == can_match(book_of(old(book)@)),
        final(book).len() == old(book).len(),
{
    let ghost target = matched(book_of(book@));
    let mut any: bool = false;
    let mut ui: usize = first_open_in(book, PositionSide::Up);
    let mut di: usize = first_open_in(book, PositionSide::Down);
    while ui < book.len() && di < book.len()
        invariant
            book.len() == old(book).len(),
            ui == first_open(book_of(book@), PositionSide::Up, 0),
            di == first_open(book_of(book@), PositionSide::Down, 0),
            target == matched(book_of(book@)),
            any ==> can_match(book_of(old(book)@)),
            !any ==> book@ == old(book)@,
        decreases open_count(book_of(book@)),
    {
        let ghost view = book_of(book@);
        proof {
            first_open_finds_the_first(view, PositionSide::Up, 0);
            first_open_finds_the_first(view, PositionSide::Down, 0);
            one_match_closes_a_holding(view);
            assert(view[ui as int] == (book[ui as int].0, book[ui as int].1 as int));
            assert(view[di as int] == (book[di as int].0, book[di as int].1 as int));
        }
        let up: (PositionSide, i64) = book[ui];
        let down: (PositionSide, i64) = book[di];
        let q: i64 = if up.1 <= down.1 {
            up.1
        } else {
            down.1
        };
        book.set(ui, (up.0, up.1 - q));
        book.set(di, (down.0, down.1 - q));
        proof {
            assert(book_of(book@) =~= matched_once(view));
        }
        any = true;
        ui = first_open_in(book, PositionSide::Up);
        di = first_open_in(book, PositionSide::Down);
    }
    any
}

/// The time of the next trade after the fills that are in place.
pub fn next_trade_t_from_commits(commits: &[CommittedLot], shares: i64, open_ms: i64) -> (r: i64)
    requires
        commits_ok(commits@),
        time_ok(open_ms as int),
    ensures
        r == next_trade_t(commits@, shares as int, open_ms as int),
        magnitude(r as int) <= 3 * MAX_MS,
{
    if shares <= 0 {
        return open_ms;
    }
    let order: Vec<CommittedLot> = in_fill_order(commits);
    proof {
        ordered_fills_are_the_fills(commits@, commits.len() as int);
    }
    let mut book: Vec<(PositionSide, i64)> = Vec::new();
    let mut next_t: i64 = open_ms;
    let mut n: usize = 0;
    while n < order.len()
        invariant
            n <= order.len(),
            book_of(book@) == replayed(order@, n as int),
            next_t == next_after(order@, n as int, open_ms as int),
            magnitude(next_t as int) <= 3 * MAX_MS,
            forall|i: int| 0 <= i < order.len() ==> commit_ok(#[trigger] order[i]),
        decreases order.len() - n,
    {
        let c: CommittedLot = order[n];
        proof {
            assert(commit_ok(order[n as int]));
            assert(book_of(book@.push((c.side, c.shares))) =~= book_of(book@).push(
                (c.side, c.shares as int),
            ));
        }
        book.push((c.side, c.shares));
        next_t = if match_all(&mut book) {
            c.fill_t + PAIR_COOLDOWN_MS
        } else {
            c.fill_t + FIRST_COOLDOWN_MS
        };
        n = n + 1;
    }
    next_t
}

/// Ordering fills keeps each of them, and puts them in the order of their
/// times.
pub proof fn ordered_fills_are_the_fills(commits: Seq<CommittedLot>, n: int)
    requires
        0 <= n <= commits.len(),
    ensures
        fill_order(commits, n).len() == n,
        fill_order(commits, n).to_multiset() == commits.take(n).to_multiset(),
        forall|i: int, j: int|
            0 <= i < j < n ==> (#[trigger] fill_order(commits, n)[i]).fill_t <= (
            #[trigger] fill_order(commits, n)[j]).fill_t,
        forall|i: int| 0 <= i < n ==> commits.contains(#[trigger] fill_order(commits, n)[i]),
    decreases n,
{
    if n > 0 {
        ordered_fills_are_the_fills(commits, n - 1);
        let rest = fill_order(commits, n - 1);
        let c = commits[n - 1];
        let at = rank(rest, c.fill_t as int, 0);
        rank_is_a_position(rest, c.fill_t as int, 0);
        let order = fill_order(commits, n);
        assert(commits.take(n) =~= commits.take(n - 1).push(c));
        vstd::seq_lib::to_multiset_build(commits.take(n - 1), c);
        vstd::seq_lib::to_multiset_insert(rest, at, c);
        assert forall|i: int| 0 <= i < n implies commits.contains(#[trigger] order[i]) by {
            if i < at {
                assert(order[i] == rest[i]);
            } else if i == at {
                assert(commits[n - 1] == c);
            } else {
                assert(order[i] == rest[i - 1]);
            }
        }
        assert forall|i: int, j: int| 0 <= i < j < n implies (#[trigger] order[i]).fill_t <= (
        #[trigger] order[j]).fill_t by {
            let a = if i < at {
                i
            } else {
                i - 1
            };
            let b = if j < at {
                j
            } else {
                j - 1
            };
            if i != at {
                assert(order[i] == rest[a]);
            }
            if j != at {
                assert(order[j] == rest[b]);
            }
        }
    } else {
        assert(commits.take(0) =~= Seq::<CommittedLot>::empty());
    }
}

/// The rank of a time among fills in order is where the later ones start.
proof fn rank_is_a_position(order: Seq<CommittedLot>, t: int, i: int)
    requires
        0 <= i <= order.len(),
        forall|a: int, b: int|
            0 <= a < b < order.len() ==> (#[trigger] order[a]).fill_t <= (
            #[trigger] order[b]).fill_t,
    ensures
        i <= rank(order, t, i) <= order.len(),
        forall|k: int| i <= k < rank(order, t, i) ==> (#[trigger] order[k]).fill_t <= t,
        forall|k: int| rank(order, t, i) <= k < order.len() ==> (#[trigger] order[k]).fill_t > t,
    decreases order.len() - i,
{
    if i < order.len() && order[i].fill_t <= t {
        rank_is_a_position(order, t, i + 1);
    }
}

/// Paired shares of a side.
fn sum_of_paired(commits: &[CommittedLot], side: PositionSide) -> (r: i128)
    requires
        commits_ok(commits@),
    ensures
        r == paired_on(commits@, side),
        magnitude(r as int) <= MAX_COMMITS * MAX_SHARES,
{
    let mut sum: i128 = 0;
    let mut i: usize = 0;
    while i < commits.len()
        invariant
            i <= commits.len() <= MAX_COMMITS,
            sum == paired_on(commits@.take(i as int), side),
            magnitude(sum as int) <= i * MAX_SHARES,
            forall|k: int| 0 <= k < commits.len() ==> commit_ok(#[trigger] commits[k]),
        decreases commits.len() - i,
    {
        proof {
            assert(commits@.take(i + 1).drop_last() =~= commits@.take(i as int));
            assert(commit_ok(commits[i as int]));
        }
        if commits[i].side == side {
            sum = sum + commits[i].paired as i128;
        }
        i = i + 1;
    }
    proof {
        assert(commits@.take(i as int) =~= commits@);
    }
    sum
}

/// The pairs that the fills already make up.
fn pairs_in_commits(commits: &[CommittedLot], shares: i64) -> (r: u64)
    requires
        commits_ok(commits@),
    ensures
        r == pairs_in(commits@, shares as int),
        r <= u32::MAX,
{
    let up: i128 = sum_of_paired(commits, PositionSide::Up);
    let down: i128 = sum_of_paired(commits, PositionSide::Down);
    let both: i128 = if up <= down {
        up
    } else {
        down
    };
    if shares <= 0 || both <= 0 {
        return 0;
    }
    proof {
        assert(0 <= (both as int) / (shares as int)) by (nonlinear_arith)
            requires
                both > 0,
                shares > 0,
        ;
    }
    let n: i128 = both / shares as i128;
    if n > 4_294_967_295 {
        4_294_967_295
    } else {
        n as u64
    }
}

/// The last open fill.
fn last_open(commits: &[CommittedLot]) -> (r: Option<Anchor>)
    requires
        commits_ok(commits@),
    ensures
        r == anchor_in(commits@, commits.len() as int),
        r matches Some(a) ==> delta_ok(a.d as int),
{
    let mut n: usize = commits.len();
    while n > 0
        invariant
            n <= commits.len(),
            commits_ok(commits@),
            anchor_in(commits@, n as int) == anchor_in(commits@, commits.len() as int),
        decreases n,
    {
        let c: CommittedLot = commits[n - 1];
        proof {
            assert(commit_ok(commits@[n - 1]));
        }
        if c.shares > c.paired {
            let kind: ExtKind = if c.from_trough {
                ExtKind::Trough
            } else {
                ExtKind::Peak
            };
            return Some(Anchor { t: c.fill_t, d: c.anchor_d, side: c.side, kind });
        }
        n = n - 1;
    }
    None
}

/// The lot of a fill.
pub fn lot_from(c: &CommittedLot) -> (r: Lot)
    requires
        commit_ok(*c),
    ensures
        r == lot_of(*c),
        lot_ok(r),
{
    let ext_kind: ExtKind = if c.from_trough {
        ExtKind::Trough
    } else {
        ExtKind::Peak
    };
    Lot {
        side: c.side,
        shares: c.shares,
        fill: c.fill,
        fill_t: c.fill_t,
        fee: taker_fee_usdc(c.shares, c.fill),
        paired: c.paired,
        ext_kind,
        anchor_d: c.anchor_d,
    }
}

/// The lots of fills.
fn lots_of(commits: &[CommittedLot]) -> (r: Vec<Lot>)
    requires
        commits_ok(commits@),
    ensures
        r@ == commits@.map_values(|c: CommittedLot| lot_of(c)),
        forall|i: int| 0 <= i < r.len() ==> lot_ok(#[trigger] r[i]),
{
    let mut lots: Vec<Lot> = Vec::new();
    let mut i: usize = 0;
    while i < commits.len()
        invariant
            i <= commits.len(),
            lots.len() == i,
            commits_ok(commits@),
            forall|k: int| 0 <= k < i ==> #[trigger] lots[k] == lot_of(commits[k]),
            forall|k: int| 0 <= k < i ==> lot_ok(#[trigger] lots[k]),
        decreases commits.len() - i,
    {
        let c: CommittedLot = commits[i];
        proof {
            assert(commit_ok(commits@[i as int]));
        }
        lots.push(lot_from(&c));
        i = i + 1;
    }
    proof {
        assert(lots@ =~= commits@.map_values(|c: CommittedLot| lot_of(c)));
    }
    lots
}

/// The state that a window starts from.
fn start(commits: &[CommittedLot], w: &Terms) -> (r: SimState)
    requires
        commits_ok(commits@),
        terms_ok(*w),
    ensures
        r@ == start_of(commits@, *w),
        sim_ok(r@),
        r.lots.len() == commits.len(),
        r.missed == 0,
{
    let lots: Vec<Lot> = lots_of(commits);
    let r: SimState = SimState {
        lots,
        trades: Vec::new(),
        pairs: pairs_in_commits(commits, w.shares),
        missed: 0,
        next_t: next_trade_t_from_commits(commits, w.shares, w.open_ms),
        anchor: last_open(commits),
    };
    proof {
        open_count_is_bounded(lot_book(r.lots@));
        assert(r.trades@ =~= Seq::<SimTrade>::empty());
    }
    r
}

/// Plays a window that trades `swings`.
pub fn play_window(
    w: &Terms,
    tape: &[(i64, i64)],
    asks: &[(i64, i64, i64)],
    swings: &[Swing],
    winner: Option<PositionSide>,
    commits: &[CommittedLot],
) -> (r: WindowResult)
    requires
        terms_ok(*w),
        w.end_ms - w.open_ms <= MAX_WINDOW_MS,
        delta_tape_ok(tape@),
        ask_tape_ok(asks@),
        asks.len() > 0,
        swings_ok(swings@),
        swings.len() <= 2 * MAX_WINDOW_MS,
        commits_ok(commits@),
    ensures
        r@ == outcome_of(*w, tape@, asks@, swings@, winner, commits@),
        forall|i: int| 0 <= i < r.trades.len() ==> trade_ok(#[trigger] r.trades[i]),
        magnitude(r.total_pnl as int) <= 20_000_000_000_000_000_000_000_000_000_000_000_000,
        count_of(r.trades@, TradeKind::Buy) <= 3 * MAX_WINDOW_MS,
        buys_of_size(r.trades@, w.shares),
{
    let late: i64 = w.market_end - MIN_LEFT_MS;
    let until: i64 = if w.end_ms <= late {
        w.end_ms
    } else {
        late
    };
    let ticks: Vec<(i64, i64)> = sample(tape, w.open_ms + FIRST_TICK_MS, until, TICK_MS);
    proof {
        samples_are_on_the_grid(tape@, w.open_ms + FIRST_TICK_MS, until as int, TICK_MS as int);
        assert forall|i: int| 0 <= i < ticks@.len() implies delta_ok(
            (#[trigger] ticks@[i]).1 as int,
        ) && time_ok(ticks@[i].0 as int) by {
            known_delta_is_ok(tape@, ticks@[i].0 as int);
        }
    }
    let mut s: SimState = start(commits, w);
    proof {
        assert forall|i: int| 0 <= i < s@.lots.len() implies lot_sound(#[trigger] s@.lots[i]) by {
            assert(lot_ok(s@.lots[i]));
        }
        books_balance(s@, *w, tape@, asks@, swings@, ticks@, winner);
        every_buy_is_of_the_size(s@, *w, tape@, asks@, swings@, ticks@, winner);
    }
    s.play(w, tape, asks, swings, &ticks, winner);
    let total_pnl: i128 = sum_of_nets(&s.trades);
    WindowResult { trades: s.trades, total_pnl, pairs: s.pairs, missed: s.missed }
}

/// The books of a window balance: what was open in the fills it started from
/// and what it bought has been paired, sold or settled at its end, on each side
/// and on both together, and each pair it counts beyond those in the fills is a trade.
pub proof fn a_window_balances(
    w: Terms,
    tape: Seq<(i64, i64)>,
    asks: Seq<(i64, i64, i64)>,
    swings: Seq<Swing>,
    winner: Option<PositionSide>,
    commits: Seq<CommittedLot>,
)
    requires
        commits_ok(commits),
        shares_ok(w.shares as int),
    ensures
        ({
            let out = outcome_of(w, tape, asks, swings, winner, commits);
            &&& all_open(commit_book(commits)) + shares_left(out.trades) == 0
            &&& forall|side: PositionSide|
                open_shares(commit_book(commits), side) + #[trigger] left_on(out.trades, side) == 0
            &&& out.pairs == pairs_in(commits, w.shares as int) + count_of(
                out.trades,
                TradeKind::Pair,
            )
        }),
{
    let s = start_of(commits, w);
    assert forall|i: int| 0 <= i < s.lots.len() implies lot_sound(#[trigger] s.lots[i]) by {
        assert(commit_ok(commits[i]));
    }
    assert(lot_book(s.lots) =~= commit_book(commits));
    books_balance(s, w, tape, asks, swings, ticks_of(tape, w), winner);
}

/// A window without fills makes sixteen pairs at most, and each of them is
/// whole, costs a cent less than a dollar at least, and nets a cent a share but
/// for the rounding of its fees.
pub proof fn a_fresh_window_never_pairs_at_a_loss(
    w: Terms,
    tape: Seq<(i64, i64)>,
    asks: Seq<(i64, i64, i64)>,
    swings: Seq<Swing>,
    winner: Option<PositionSide>,
)
    requires
        w.shares >= 1_000_000,
        shares_ok(w.shares as int),
    ensures
        ({
            let out = outcome_of(w, tape, asks, swings, winner, Seq::empty());
            &&& out.pairs <= MAX_PAIRS
            &&& forall|k: int|
                0 <= k < out.trades.len() && (#[trigger] out.trades[k]).kind == TradeKind::Pair
                    ==> pair_earned(out.trades[k], w)
        }),
{
    let none = Seq::<CommittedLot>::empty();
    pairs_never_lose(start_of(none, w), w, tape, asks, swings, ticks_of(tape, w), winner);
}

/// A window without fills sells only what it has bought: no buy before a sale is
/// later than it.
pub proof fn a_fresh_window_sells_what_it_has_bought(
    w: Terms,
    tape: Seq<(i64, i64)>,
    asks: Seq<(i64, i64, i64)>,
    swings: Seq<Swing>,
    winner: Option<PositionSide>,
)
    requires
        terms_ok(w),
        w.shares >= 1_000_000,
        w.delay_ms >= 0,
    ensures
        ({
            let trades = outcome_of(w, tape, asks, swings, winner, Seq::empty()).trades;
            forall|j: int, k: int|
                #![trigger trades[j], trades[k]]
                0 <= j < k < trades.len() && trades[j].kind == TradeKind::Buy && trades[k].kind
                    == TradeKind::Sell ==> trades[j].t <= trades[k].t
        }),
{
    let none = Seq::<CommittedLot>::empty();
    let s = start_of(none, w);
    let ticks = ticks_of(tape, w);
    sales_follow_buys(s, w, tape, asks, swings, ticks, winner);
    let trades = outcome_of(w, tape, asks, swings, winner, none).trades;
    assert(trades == played(s, w, tape, asks, swings, ticks, winner).trades);
}

/// The buys of a window keep to the rules and wait: for the cooldown after the
/// last fill that the window started from, and for that of every buy and pair
/// before them.
pub proof fn buys_of_a_window_wait(
    w: Terms,
    tape: Seq<(i64, i64)>,
    asks: Seq<(i64, i64, i64)>,
    swings: Seq<Swing>,
    winner: Option<PositionSide>,
    commits: Seq<CommittedLot>,
)
    requires
        commits_ok(commits),
        terms_ok(w),
        w.delay_ms >= 0,
    ensures
        ({
            let out = outcome_of(w, tape, asks, swings, winner, commits);
            &&& buys_wait(out.trades, w)
            &&& buys_start(
                out.trades,
                w,
                next_trade_t(commits, w.shares as int, w.open_ms as int),
            )
        }),
{
    ordered_fills_are_the_fills(commits, commits.len() as int);
    let order = fill_order(commits, commits.len() as int);
    if commits.len() > 0 {
        let last = order[commits.len() - 1];
        let k = choose|k: int| 0 <= k < commits.len() && commits[k] == last;
        assert(commit_ok(commits[k]));
    }
    buys_keep_to_the_rules(
        start_of(commits, w),
        w,
        tape,
        asks,
        swings,
        ticks_of(tape, w),
        winner,
    );
}

} // verus!
