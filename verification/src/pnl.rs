//! Fees, settlement and the profit-and-loss ledger.
use vstd::prelude::*;
use crate::fifo::{
    adding_a_holding, can_match, first_open, first_open_finds_the_first, has_open, match_size,
    matched, matched_once, matched_shares, matching_conserves_shares, one_match_closes_a_holding,
    open_count,
};
use crate::strategy::sides::PositionSide;
use crate::units::{
    ask_ok, clamp, clamped, magnitude, round_div, rounded_quotient, shares_ok, CENT, MAX_ASK,
    MAX_SHARES, NANO,
};

verus! {

/// Taker fee coefficient, in hundredths.
pub const CRYPTO_TAKER_FEE_PERCENT: i64 = 7;

/// Highest price that a fee is charged on.
pub const MAX_FEE_PRICE: i64 = 990_000_000;

/// One hundred-thousandth of a dollar, which fees are rounded to.
pub const FEE_STEP: i64 = 10_000;

/// Largest magnitude of a session total that another window can be added to.
pub const MAX_TOTAL: i128 = 100_000_000_000_000_000_000_000_000_000_000_000_000;

/// The price that a fee is charged on: the fill held between 1 and 99 cents.
pub open spec fn fee_price(price: int) -> int {
    clamped(price, CENT as int, MAX_FEE_PRICE as int)
}

/// `shares * 0.07 * p * (1 - p)` rounded to a hundred-thousandth of a dollar.
pub open spec fn fee_of(shares: int, price: int) -> int {
    let p = fee_price(price);
    rounded_quotient(
        shares * CRYPTO_TAKER_FEE_PERCENT * p * (NANO - p),
        1_000_000_000_000_000_000_000_000,
    ) * FEE_STEP
}

/// Taker fee of a fill, in billionths of a dollar.
pub fn taker_fee_usdc(shares: i64, price: i64) -> (fee: i64)
    ensures
        fee == fee_of(shares as int, price as int),
        shares >= 0 ==> fee >= 0,
        shares_ok(shares as int) ==> magnitude(fee as int) <= 20_000_000_000_000,
{
    let p: i64 = clamp(price, CENT, MAX_FEE_PRICE);
    proof {
        fee_per_share_is_small(p as int);
        assert(CRYPTO_TAKER_FEE_PERCENT * p <= 7_000_000_000);
    }
    let per_share: i128 = CRYPTO_TAKER_FEE_PERCENT as i128 * p as i128 * (NANO - p) as i128;
    proof {
        assert(magnitude(shares * per_share) <= magnitude(shares as int) * per_share)
            by (nonlinear_arith)
            requires
                per_share >= 0,
        ;
        assert(magnitude(shares as int) * per_share <= 9_223_372_036_854_775_808
            * 1_750_000_000_000_000_000) by (nonlinear_arith)
            requires
                0 <= magnitude(shares as int) <= 9_223_372_036_854_775_808,
                0 <= per_share <= 1_750_000_000_000_000_000,
        ;
        assert(shares_ok(shares as int) ==> magnitude(shares as int) * per_share
            <= 1_000_000_000_000_000 * 1_750_000_000_000_000_000) by (nonlinear_arith)
            requires
                shares_ok(shares as int) ==> 0 <= magnitude(shares as int)
                    <= 1_000_000_000_000_000,
                0 <= per_share <= 1_750_000_000_000_000_000,
        ;
        assert(shares * CRYPTO_TAKER_FEE_PERCENT * p * (NANO - p) == shares * per_share)
            by (nonlinear_arith)
            requires
                per_share == CRYPTO_TAKER_FEE_PERCENT * p * (NANO - p),
        ;
    }
    let raw: i128 = shares as i128 * per_share;
    let steps: i128 = round_div(raw, 1_000_000_000_000_000_000_000_000);
    proof {
        assert(shares >= 0 ==> raw >= 0) by (nonlinear_arith)
            requires
                raw == shares * per_share,
                per_share >= 0,
        ;
    }
    proof {
        let unit = 1_000_000_000_000_000_000_000_000int;
        assert(magnitude(2 * steps * unit - 2 * raw) <= unit);
        assert(2 * steps * unit == 2 * unit * steps) by (nonlinear_arith);
        assert(magnitude(raw as int) <= 9_223_372_036_854_775_808 * 1_750_000_000_000_000_000);
        assert(2_000_000_000_000_000_000_000_000 * magnitude(steps as int) <= 2 * magnitude(
            raw as int,
        ) + unit);
        assert(magnitude(steps as int) <= 17_000_000_000_000);
    }
    let fee: i128 = steps * 10_000;
    fee as i64
}

/// The fee on one share at price `p` is at most that at 50 cents.
pub proof fn fee_per_share_is_small(p: int)
    requires
        CENT <= p <= MAX_FEE_PRICE,
    ensures
        0 <= CRYPTO_TAKER_FEE_PERCENT * p * (NANO - p) <= 1_750_000_000_000_000_000,
{
    assert(0 <= p * (NANO - p) <= 250_000_000_000_000_000) by (nonlinear_arith)
        requires
            0 <= p <= NANO,
            NANO == 1_000_000_000,
    ;
    assert(CRYPTO_TAKER_FEE_PERCENT * p * (NANO - p) == 7 * (p * (NANO - p))) by (nonlinear_arith)
        requires
            CRYPTO_TAKER_FEE_PERCENT == 7,
    ;
}

/// The outcome of a window: the side whose token trades at 55 cents or more
/// against 45 cents or less, else UP if bitcoin ended above the strike and DOWN
/// if it did not.
pub open spec fn winner_of(
    up_ask: int,
    down_ask: int,
    last_btc: Option<i64>,
    ptb: Option<i64>,
) -> Option<PositionSide> {
    if up_ask >= 55 * CENT && down_ask <= 45 * CENT {
        Some(PositionSide::Up)
    } else if down_ask >= 55 * CENT && up_ask <= 45 * CENT {
        Some(PositionSide::Down)
    } else {
        match (last_btc, ptb) {
            (Some(last), Some(strike)) => if last > strike {
                Some(PositionSide::Up)
            } else {
                Some(PositionSide::Down)
            },
            _ => None,
        }
    }
}

/// The outcome of a window.
pub fn resolve_winner(
    up_ask: i64,
    down_ask: i64,
    last_btc: Option<i64>,
    ptb: Option<i64>,
) -> (r: Option<PositionSide>)
    ensures
        r == winner_of(up_ask as int, down_ask as int, last_btc, ptb),
{
    if up_ask >= 55 * CENT && down_ask <= 45 * CENT {
        return Some(PositionSide::Up);
    }
    if down_ask >= 55 * CENT && up_ask <= 45 * CENT {
        return Some(PositionSide::Down);
    }
    match (last_btc, ptb) {
        (Some(last), Some(strike)) => {
            if last > strike {
                Some(PositionSide::Up)
            } else {
                Some(PositionSide::Down)
            }
        },
        _ => None,
    }
}

/// Session totals, in billionths of billionths of a dollar.
#[derive(Clone, Copy, Debug, PartialEq, Eq, Structural)]
pub struct Totals {
    pub net: i128,
    pub gross: i128,
    pub fees: i128,
}

/// Result of a closed window, in billionths of billionths of a dollar.
#[derive(Debug)]
pub struct WindowClose {
    pub slug: String,
    pub net: i128,
    pub gross: i128,
    pub fees: i128,
    pub legs: u32,
}

/// A holding of the current window and what is left of it.
#[derive(Clone, Copy, Debug, PartialEq, Eq, Structural)]
pub struct OpenLot {
    pub side: PositionSide,
    pub remaining: i64,
}

/// Cash flows and holdings of the current window.
pub struct WindowLedger {
    pub slug: String,
    pub fees: i128,
    pub buy_cost: i128,
    pub sell_proceeds: i128,
    pub paired_payout: i128,
    pub legs: u32,
    pub lots: Vec<OpenLot>,
}

/// The book of holdings.
pub open spec fn lots_book(lots: Seq<OpenLot>) -> Seq<(PositionSide, int)> {
    lots.map_values(|l: OpenLot| (l.side, l.remaining as int))
}

/// Shares of a side that are left, at a dollar each.
pub open spec fn settle_value(lots: Seq<OpenLot>, winner: Option<PositionSide>) -> int
    decreases lots.len(),
{
    if lots.len() == 0 {
        0
    } else {
        settle_value(lots.drop_last(), winner) + (if winner == Some(lots.last().side) {
            lots.last().remaining * NANO
        } else {
            0
        })
    }
}

/// The book after `shares` of a side have been sold from its holdings from
/// `i` on, oldest first.
pub open spec fn book_sold(
    book: Seq<(PositionSide, int)>,
    side: PositionSide,
    shares: int,
    i: int,
) -> Seq<(PositionSide, int)>
    decreases book.len() - i,
{
    if !(0 <= i < book.len()) {
        book
    } else if book[i].0 != side || shares <= 0 {
        book_sold(book, side, shares, i + 1)
    } else {
        let q = if book[i].1 <= shares {
            book[i].1
        } else {
            shares
        };
        book_sold(book.update(i, (side, book[i].1 - q)), side, shares - q, i + 1)
    }
}

/// Most that one leg moves in cash.
pub open spec fn leg_cash() -> int {
    1_000_000_000_000_000_000_000_000_000
}

impl WindowLedger {
    /// The amounts are no more than the legs can have moved.
    pub open spec fn wf(&self) -> bool {
        &&& magnitude(self.fees as int) <= self.legs * leg_cash()
        &&& magnitude(self.buy_cost as int) <= self.legs * leg_cash()
        &&& magnitude(self.sell_proceeds as int) <= self.legs * leg_cash()
        &&& magnitude(self.paired_payout as int) <= self.legs * leg_cash()
        &&& self.lots.len() <= self.legs
        &&& forall|i: int|
            0 <= i < self.lots.len() ==> shares_ok((#[trigger] self.lots[i]).remaining as int)
    }
}

/// Cash flows and holdings of a window.
pub struct Ledger {
    pub fees: int,
    pub buy_cost: int,
    pub sell_proceeds: int,
    pub paired_payout: int,
    pub legs: int,
    pub book: Seq<(PositionSide, int)>,
}

impl View for WindowLedger {
    type V = Ledger;

    open spec fn view(&self) -> Ledger {
        Ledger {
            fees: self.fees as int,
            buy_cost: self.buy_cost as int,
            sell_proceeds: self.sell_proceeds as int,
            paired_payout: self.paired_payout as int,
            legs: self.legs as int,
            book: lots_book(self.lots@),
        }
    }
}

/// A ledger in which nothing has happened.
pub open spec fn fresh_ledger() -> Ledger {
    Ledger {
        fees: 0,
        buy_cost: 0,
        sell_proceeds: 0,
        paired_payout: 0,
        legs: 0,
        book: Seq::empty(),
    }
}

/// The ledger after a bought leg: its cost and fee are paid, and each share
/// that it pairs pays a dollar.
pub open spec fn leg_bought(l: Ledger, side: PositionSide, fill_px: int, shares: int) -> Ledger {
    let book = l.book.push((side, shares));
    Ledger {
        fees: l.fees + fee_of(shares, fill_px) * NANO,
        buy_cost: l.buy_cost + shares * fill_px,
        sell_proceeds: l.sell_proceeds,
        paired_payout: l.paired_payout + matched_shares(book) * NANO,
        legs: l.legs + 1,
        book: matched(book),
    }
}

/// The ledger after a sold leg: it pays its price less a fee, and closes
/// holdings of its side, oldest first.
pub open spec fn leg_sold(l: Ledger, side: PositionSide, fill_px: int, shares: int) -> Ledger {
    Ledger {
        fees: l.fees + fee_of(shares, fill_px) * NANO,
        sell_proceeds: l.sell_proceeds + shares * fill_px,
        legs: l.legs + 1,
        book: book_sold(l.book, side, shares, 0),
        ..l
    }
}

/// Shares that are left of the winning side, at a dollar each.
pub open spec fn settled_book(
    book: Seq<(PositionSide, int)>,
    winner: Option<PositionSide>,
) -> int
    decreases book.len(),
{
    if book.len() == 0 {
        0
    } else {
        settled_book(book.drop_last(), winner) + (if winner == Some(book.last().0) {
            book.last().1 * NANO
        } else {
            0
        })
    }
}

/// What a ledger comes to before fees if `winner` wins.
pub open spec fn ledger_gross(l: Ledger, winner: Option<PositionSide>) -> int {
    l.paired_payout + l.sell_proceeds + settled_book(l.book, winner) - l.buy_cost
}

proof fn settling_the_book(lots: Seq<OpenLot>, winner: Option<PositionSide>)
    ensures
        settle_value(lots, winner) == settled_book(lots_book(lots), winner),
    decreases lots.len(),
{
    if lots.len() > 0 {
        settling_the_book(lots.drop_last(), winner);
        assert(lots_book(lots).drop_last() =~= lots_book(lots.drop_last()));
    }
}

/// A window whose shares are all paired or sold comes to the same whoever
/// wins.
pub proof fn a_closed_book_bears_no_risk(
    l: Ledger,
    a: Option<PositionSide>,
    b: Option<PositionSide>,
)
    requires
        forall|i: int| 0 <= i < l.book.len() ==> (#[trigger] l.book[i]).1 == 0,
    ensures
        ledger_gross(l, a) == ledger_gross(l, b),
        ledger_gross(l, a) == l.paired_payout + l.sell_proceeds - l.buy_cost,
{
    nothing_settles(l.book, a);
    nothing_settles(l.book, b);
}

proof fn nothing_settles(book: Seq<(PositionSide, int)>, winner: Option<PositionSide>)
    requires
        forall|i: int| 0 <= i < book.len() ==> (#[trigger] book[i]).1 == 0,
    ensures
        settled_book(book, winner) == 0,
    decreases book.len(),
{
    if book.len() > 0 {
        let init = book.drop_last();
        assert forall|i: int| 0 <= i < init.len() implies (#[trigger] init[i]).1 == 0 by {
            assert(init[i] == book[i]);
        }
        assert(book[book.len() - 1].1 == 0);
        nothing_settles(init, winner);
    }
}

/// A share of each token, bought at `a` and `b`, pays a dollar: the pair earns
/// what its asks leave of it, less both fees, whoever wins.
pub proof fn a_pair_pays_a_dollar(
    side: PositionSide,
    a: int,
    b: int,
    shares: int,
    winner: Option<PositionSide>,
)
    requires
        shares > 0,
    ensures
        ({
            let l = leg_bought(leg_bought(fresh_ledger(), side, a, shares), side.opposite_spec(), b, shares);
            &&& ledger_gross(l, winner) == shares * (NANO - a - b)
            &&& l.fees == (fee_of(shares, a) + fee_of(shares, b)) * NANO
        }),
{
    let first = fresh_ledger().book.push((side, shares));
    assert(first =~= seq![(side, shares)]);
    crate::fifo::open_means_an_open_holding(first, side.opposite_spec());
    assert(!can_match(first));
    assert(matched(first) == first);
    let both = first.push((side.opposite_spec(), shares));
    assert(both =~= seq![(side, shares), (side.opposite_spec(), shares)]);
    first_open_finds_the_first(both, PositionSide::Up, 0);
    first_open_finds_the_first(both, PositionSide::Down, 0);
    crate::fifo::open_means_an_open_holding(both, PositionSide::Up);
    crate::fifo::open_means_an_open_holding(both, PositionSide::Down);
    assert(both[0].0 == side && both[1].0 == side.opposite_spec());
    assert(can_match(both));
    assert(match_size(both) == shares);
    let done = matched_once(both);
    assert(done =~= seq![(side, 0int), (side.opposite_spec(), 0int)]);
    crate::fifo::open_means_an_open_holding(done, PositionSide::Up);
    crate::fifo::open_means_an_open_holding(done, PositionSide::Down);
    assert(!can_match(done));
    one_match_closes_a_holding(both);
    assert(matched(done) == done);
    assert(matched(both) == matched(done));
    assert(matched_shares(done) == 0);
    assert(matched_shares(both) == shares);
    let l = leg_bought(
        leg_bought(fresh_ledger(), side, a, shares),
        side.opposite_spec(),
        b,
        shares,
    );
    assert(l.book == done);
    nothing_settles(done, winner);
    assert(matched_shares(first) == 0);
    assert(shares * NANO - (shares * a + shares * b) == shares * (NANO - a - b))
        by (nonlinear_arith);
}

proof fn book_of_an_update(lots: Seq<OpenLot>, i: int, lot: OpenLot)
    requires
        0 <= i < lots.len(),
    ensures
        lots_book(lots.update(i, lot)) == lots_book(lots).update(
            i,
            (lot.side, lot.remaining as int),
        ),
{
    assert(lots_book(lots.update(i, lot)) =~= lots_book(lots).update(
        i,
        (lot.side, lot.remaining as int),
    ));
}

fn find_open(lots: &Vec<OpenLot>, side: PositionSide) -> (r: usize)
    ensures
        r == first_open(lots_book(lots@), side, 0),
        r <= lots.len(),
{
    let mut i: usize = 0;
    while i < lots.len() && !(lots[i].side == side && lots[i].remaining > 0)
        invariant
            i <= lots.len(),
            first_open(lots_book(lots@), side, i as int) == first_open(lots_book(lots@), side, 0),
        decreases lots.len() - i,
    {
        assert(lots_book(lots@)[i as int] == (lots[i as int].side, lots[i as int].remaining as int));
        i = i + 1;
    }
    proof {
        if i < lots.len() {
            assert(lots_book(lots@)[i as int] == (
                lots[i as int].side,
                lots[i as int].remaining as int,
            ));
        }
    }
    i
}

/// Pairs open UP shares with open DOWN shares, oldest first, and gives the
/// number of shares paired.
fn pair_open_lots(lots: &mut Vec<OpenLot>) -> (paid: i64)
    requires
        old(lots).len() <= u32::MAX,
        forall|i: int|
            0 <= i < old(lots).len() ==> shares_ok((#[trigger] old(lots)[i]).remaining as int),
        crate::fifo::open_shares(lots_book(old(lots)@), PositionSide::Up) <= MAX_SHARES
            || crate::fifo::open_shares(lots_book(old(lots)@), PositionSide::Down) <= MAX_SHARES,
    ensures
        lots_book(final(lots)@) == matched(lots_book(old(lots)@)),
        paid == matched_shares(lots_book(old(lots)@)),
        0 <= paid <= MAX_SHARES,
        final(lots).len() == old(lots).len(),
        forall|i: int|
            0 <= i < final(lots).len() ==> shares_ok((#[trigger] final(lots)[i]).remaining as int),
{
    let ghost book0 = lots_book(lots@);
    proof {
        matching_conserves_shares(book0);
        crate::fifo::open_shares_are_not_negative(book0, PositionSide::Up);
        crate::fifo::open_shares_are_not_negative(book0, PositionSide::Down);
    }
    let mut paid: i64 = 0;
    loop
        invariant
            lots.len() == old(lots).len(),
            0 <= matched_shares(book0) <= MAX_SHARES,
            0 <= paid,
            matched(lots_book(lots@)) == matched(book0),
            paid + matched_shares(lots_book(lots@)) == matched_shares(book0),
            forall|i: int|
                0 <= i < lots.len() ==> shares_ok((#[trigger] lots[i]).remaining as int),
        ensures
            lots_book(lots@) == matched(book0),
            paid == matched_shares(book0),
        decreases open_count(lots_book(lots@)),
    {
        let ghost book = lots_book(lots@);
        let up: usize = find_open(lots, PositionSide::Up);
        let down: usize = find_open(lots, PositionSide::Down);
        proof {
            first_open_finds_the_first(book, PositionSide::Up, 0);
            first_open_finds_the_first(book, PositionSide::Down, 0);
        }
        if up == lots.len() || down == lots.len() {
            break;
        }
        proof {
            one_match_closes_a_holding(book);
            matching_conserves_shares(matched_once(book));
            crate::fifo::open_shares_are_not_negative(matched_once(book), PositionSide::Up);
            crate::fifo::open_shares_are_not_negative(matched_once(book), PositionSide::Down);
        }
        let u: OpenLot = lots[up];
        let d: OpenLot = lots[down];
        assert(book[up as int] == (u.side, u.remaining as int));
        assert(book[down as int] == (d.side, d.remaining as int));
        let q: i64 = if u.remaining <= d.remaining {
            u.remaining
        } else {
            d.remaining
        };
        let u2: OpenLot = OpenLot { side: u.side, remaining: u.remaining - q };
        let d2: OpenLot = OpenLot { side: d.side, remaining: d.remaining - q };
        proof {
            book_of_an_update(lots@, up as int, u2);
            book_of_an_update(lots@.update(up as int, u2), down as int, d2);
        }
        lots.set(up, u2);
        lots.set(down, d2);
        assert(lots_book(lots@) == matched_once(book));
        paid = paid + q;
    }
    paid
}

/// Sells `shares` of a side, oldest first.
fn close_lots(lots: &mut Vec<OpenLot>, side: PositionSide, shares: i64)
    requires
        old(lots).len() <= u32::MAX,
        shares_ok(shares as int),
        forall|i: int|
            0 <= i < old(lots).len() ==> shares_ok((#[trigger] old(lots)[i]).remaining as int),
    ensures
        lots_book(final(lots)@) == book_sold(lots_book(old(lots)@), side, shares as int, 0),
        final(lots).len() == old(lots).len(),
        forall|i: int|
            0 <= i < final(lots).len() ==> shares_ok((#[trigger] final(lots)[i]).remaining as int),
{
    let mut left: i128 = shares as i128;
    let mut i: usize = 0;
    while i < lots.len()
        invariant
            i <= lots.len(),
            lots.len() == old(lots).len(),
            lots.len() <= u32::MAX,
            magnitude(left as int) <= (i + 1) * MAX_SHARES,
            book_sold(lots_book(lots@), side, left as int, i as int) == book_sold(
                lots_book(old(lots)@),
                side,
                shares as int,
                0,
            ),
            forall|k: int|
                0 <= k < lots.len() ==> shares_ok((#[trigger] lots[k]).remaining as int),
        decreases lots.len() - i,
    {
        let lot: OpenLot = lots[i];
        if lot.side == side && left > 0 {
            let q: i128 = if lot.remaining as i128 <= left {
                lot.remaining as i128
            } else {
                left
            };
            let rest: OpenLot = OpenLot { side, remaining: (lot.remaining as i128 - q) as i64 };
            proof {
                book_of_an_update(lots@, i as int, rest);
            }
            lots.set(i, rest);
            left = left - q;
        }
        i = i + 1;
    }
}

/// Profit and loss of the session and of its current window.
pub struct PnlTracker {
    pub totals: Totals,
    pub window: Option<WindowLedger>,
}

/// The ledger of a window and the window's name.
pub struct Statement {
    pub slug: Seq<char>,
    pub ledger: Ledger,
}

/// Totals of a session and the statement of its current window.
pub struct Accounts {
    pub totals: Totals,
    pub window: Option<Statement>,
}

impl View for PnlTracker {
    type V = Accounts;

    open spec fn view(&self) -> Accounts {
        Accounts {
            totals: self.totals,
            window: match self.window {
                Some(w) => Some(Statement { slug: w.slug@, ledger: w@ }),
                None => None,
            },
        }
    }
}

/// The accounts with another ledger for the current window.
pub open spec fn with_ledger(a: Accounts, ledger: Ledger) -> Accounts {
    Accounts { window: Some(Statement { slug: a.window->0.slug, ledger }), ..a }
}

/// The accounts after a bought leg.
pub open spec fn buy_booked(a: Accounts, side: PositionSide, fill_px: int, shares: int) -> Accounts {
    with_ledger(a, leg_bought(a.window->0.ledger, side, fill_px, shares))
}

/// The accounts after a sold leg.
pub open spec fn sale_booked(a: Accounts, side: PositionSide, fill_px: int, shares: int) -> Accounts {
    with_ledger(a, leg_sold(a.window->0.ledger, side, fill_px, shares))
}

/// The accounts after a window in which `winner` won: a window without a leg
/// changes nothing.
pub open spec fn window_booked(a: Accounts, winner: Option<PositionSide>) -> Accounts {
    match a.window {
        Some(w) if w.ledger.legs > 0 => {
            let gross = ledger_gross(w.ledger, winner);
            Accounts {
                totals: Totals {
                    net: (a.totals.net + gross - w.ledger.fees) as i128,
                    gross: (a.totals.gross + gross) as i128,
                    fees: (a.totals.fees + w.ledger.fees) as i128,
                },
                window: None,
            }
        },
        _ => Accounts { window: None, ..a },
    }
}

/// The accounts after a window that was settled elsewhere.
pub open spec fn net_booked(a: Accounts, net: int) -> Accounts {
    Accounts {
        totals: Totals {
            net: (a.totals.net + net) as i128,
            gross: (a.totals.gross + net) as i128,
            fees: a.totals.fees,
        },
        window: None,
    }
}

/// At most one side of a ledger is open.
pub open spec fn one_sided(w: WindowLedger) -> bool {
    !can_match(lots_book(w.lots@))
}

impl PnlTracker {
    /// The ledger of the current window is in order, and its UP and DOWN
    /// shares have been paired as far as they go.
    pub open spec fn wf(&self) -> bool {
        self.window matches Some(w) ==> w.wf() && one_sided(w)
    }

    /// Another window can be added to the totals.
    pub open spec fn totals_have_room(&self) -> bool {
        &&& magnitude(self.totals.net as int) <= MAX_TOTAL
        &&& magnitude(self.totals.gross as int) <= MAX_TOTAL
        &&& magnitude(self.totals.fees as int) <= MAX_TOTAL
    }

    /// A session without a window.
    pub fn new() -> (r: Self)
        ensures
            r@ == (Accounts { totals: Totals { net: 0, gross: 0, fees: 0 }, window: None }),
            r.wf(),
    {
        PnlTracker { totals: Totals { net: 0, gross: 0, fees: 0 }, window: None }
    }

    /// Session totals.
    pub fn totals(&self) -> (r: &Totals)
        ensures
            *r == self.totals,
    {
        &self.totals
    }

    /// Opens the ledger of a window; what an earlier window left is dropped.
    pub fn open_window(&mut self, slug: String, _shares: i64)
        ensures
            final(self)@ == (Accounts {
                window: Some(Statement { slug: slug@, ledger: fresh_ledger() }),
                ..old(self)@
            }),
            final(self).wf(),
    {
        self.window = Some(
            WindowLedger {
                slug,
                fees: 0,
                buy_cost: 0,
                sell_proceeds: 0,
                paired_payout: 0,
                legs: 0,
                lots: Vec::new(),
            },
        );
        proof {
            assert(lots_book(self.window->0.lots@) =~= Seq::<(PositionSide, int)>::empty());
        }
    }

    /// Books a bought leg and pairs what can be paired.
    pub fn record_buy(&mut self, side: PositionSide, fill_px: i64, shares: i64, _is_pair: bool)
        requires
            old(self).wf(),
            old(self).window is Some,
            old(self).window->0.legs < u32::MAX,
            shares_ok(shares as int),
            ask_ok(fill_px as int),
        ensures
            final(self).wf(),
            final(self)@ == buy_booked(old(self)@, side, fill_px as int, shares as int),
    {
        match self.window.take() {
            Some(w) => {
                let mut lots: Vec<OpenLot> = w.lots;
                let ghost book0 = lots_book(lots@);
                let fee: i64 = taker_fee_usdc(shares, fill_px);
                proof {
                    cash_fits(shares as int, fill_px as int, w.legs as int);
                    adding_a_holding(book0, (side, shares as int));
                    crate::fifo::open_shares_are_not_negative(book0, PositionSide::Up);
                    crate::fifo::open_shares_are_not_negative(book0, PositionSide::Down);
                    assert(lots_book(lots@.push(OpenLot { side, remaining: shares })) =~= book0.push(
                        (side, shares as int),
                    ));
                    assert(crate::fifo::open_shares(book0.push((side, shares as int)), side)
                        <= MAX_SHARES || crate::fifo::open_shares(
                        book0.push((side, shares as int)),
                        side.opposite_spec(),
                    ) <= MAX_SHARES);
                }
                lots.push(OpenLot { side, remaining: shares });
                let paid: i64 = pair_open_lots(&mut lots);
                proof {
                    matching_conserves_shares(book0.push((side, shares as int)));
                }
                self.window = Some(
                    WindowLedger {
                        slug: w.slug,
                        fees: w.fees + fee as i128 * 1_000_000_000,
                        buy_cost: w.buy_cost + shares as i128 * fill_px as i128,
                        sell_proceeds: w.sell_proceeds,
                        paired_payout: w.paired_payout + paid as i128 * 1_000_000_000,
                        legs: w.legs + 1,
                        lots,
                    },
                );
            },
            None => {},
        }
    }

    /// Books a sold leg.
    pub fn record_sell(&mut self, side: PositionSide, fill_px: i64, shares: i64)
        requires
            old(self).wf(),
            old(self).window is Some,
            old(self).window->0.legs < u32::MAX,
            shares_ok(shares as int),
            ask_ok(fill_px as int),
        ensures
            final(self).wf(),
            final(self)@ == sale_booked(old(self)@, side, fill_px as int, shares as int),
    {
        match self.window.take() {
            Some(w) => {
                let mut lots: Vec<OpenLot> = w.lots;
                let fee: i64 = taker_fee_usdc(shares, fill_px);
                proof {
                    cash_fits(shares as int, fill_px as int, w.legs as int);
                    selling_opens_nothing(lots_book(lots@), side, shares as int, 0);
                }
                close_lots(&mut lots, side, shares);
                self.window = Some(
                    WindowLedger {
                        slug: w.slug,
                        fees: w.fees + fee as i128 * 1_000_000_000,
                        buy_cost: w.buy_cost,
                        sell_proceeds: w.sell_proceeds + shares as i128 * fill_px as i128,
                        paired_payout: w.paired_payout,
                        legs: w.legs + 1,
                        lots,
                    },
                );
            },
            None => {},
        }
    }

    /// Closes the window: pairs and sales have paid, what is left pays a
    /// dollar a share if its side won.  A window without a leg gives nothing.
    pub fn close_window(&mut self, winner: Option<PositionSide>) -> (r: Option<WindowClose>)
        requires
            old(self).wf(),
            old(self).totals_have_room(),
        ensures
            final(self).wf(),
            final(self)@ == window_booked(old(self)@, winner),
            match (r, old(self)@.window) {
                (Some(c), Some(w)) => {
                    let gross = ledger_gross(w.ledger, winner);
                    &&& w.ledger.legs > 0
                    &&& c.slug@ == w.slug
                    &&& c.gross == gross
                    &&& c.net == gross - w.ledger.fees
                    &&& c.fees == w.ledger.fees
                    &&& c.legs == w.ledger.legs
                    &&& c.net == c.gross - c.fees
                    &&& final(self).totals.net == old(self).totals.net + c.net
                    &&& final(self).totals.gross == old(self).totals.gross + c.gross
                    &&& final(self).totals.fees == old(self).totals.fees + c.fees
                },
                (None, Some(w)) => w.ledger.legs == 0 && final(self).totals == old(self).totals,
                (None, None) => final(self).totals == old(self).totals,
                (Some(_), None) => false,
            },
    {
        match self.window.take() {
            Some(w) => {
                if w.legs == 0 {
                    return None;
                }
                let mut settle: i128 = 0;
                let mut i: usize = 0;
                while i < w.lots.len()
                    invariant
                        i <= w.lots.len(),
                        w.wf(),
                        settle == settle_value(w.lots@.take(i as int), winner),
                        magnitude(settle as int) <= i * 1_000_000_000_000_000_000_000_000,
                    decreases w.lots.len() - i,
                {
                    let lot: OpenLot = w.lots[i];
                    assert(w.lots@.take(i + 1).drop_last() =~= w.lots@.take(i as int));
                    assert(shares_ok(lot.remaining as int));
                    assert(magnitude(lot.remaining * NANO) <= 1_000_000_000_000_000_000_000_000);
                    let wins: bool = match winner {
                        Some(side) => side == lot.side,
                        None => false,
                    };
                    if wins {
                        settle = settle + lot.remaining as i128 * 1_000_000_000;
                    }
                    i = i + 1;
                }
                proof {
                    assert(w.lots@.take(w.lots@.len() as int) =~= w.lots@);
                    settling_the_book(w.lots@, winner);
                }
                let gross: i128 = w.paired_payout + w.sell_proceeds + settle - w.buy_cost;
                let net: i128 = gross - w.fees;
                self.totals = Totals {
                    net: self.totals.net + net,
                    gross: self.totals.gross + gross,
                    fees: self.totals.fees + w.fees,
                };
                Some(WindowClose { slug: w.slug, net, gross, fees: w.fees, legs: w.legs })
            },
            None => None,
        }
    }

    /// Adds the result of a window that was settled elsewhere.
    pub fn add_window_net(&mut self, net: i128)
        requires
            magnitude(old(self).totals.net as int) <= MAX_TOTAL,
            magnitude(old(self).totals.gross as int) <= MAX_TOTAL,
            magnitude(net as int) <= MAX_TOTAL / 2,
        ensures
            final(self).wf(),
            final(self)@ == net_booked(old(self)@, net as int),
            final(self).totals.net == old(self).totals.net + net,
            final(self).totals.gross == old(self).totals.gross + net,
            final(self).totals.fees == old(self).totals.fees,
    {
        self.window = None;
        self.totals = Totals {
            net: self.totals.net + net,
            gross: self.totals.gross + net,
            fees: self.totals.fees,
        };
    }
}

proof fn cash_fits(shares: int, px: int, legs: int)
    requires
        shares_ok(shares),
        ask_ok(px),
        0 <= legs,
    ensures
        magnitude(shares * px) <= leg_cash(),
        (legs + 1) * leg_cash() == legs * leg_cash() + leg_cash(),
{
    assert(magnitude(shares * px) <= MAX_SHARES * MAX_ASK) by (nonlinear_arith)
        requires
            -MAX_SHARES <= shares <= MAX_SHARES,
            -MAX_ASK <= px <= MAX_ASK,
            MAX_SHARES > 0,
            MAX_ASK > 0,
    ;
    assert((legs + 1) * leg_cash() == legs * leg_cash() + leg_cash()) by (nonlinear_arith);
}

/// Selling opens no holding: a side that had no open shares has none after.
proof fn selling_opens_nothing(
    book: Seq<(PositionSide, int)>,
    side: PositionSide,
    shares: int,
    i: int,
)
    requires
        0 <= i <= book.len(),
    ensures
        ({
            let after = book_sold(book, side, shares, i);
            &&& after.len() == book.len()
            &&& forall|k: int|
                #![trigger after[k]]
                0 <= k < book.len() ==> after[k].0 == book[k].0 && (book[k].1 <= 0 ==> after[k].1
                    <= 0)
            &&& !can_match(book) ==> !can_match(after)
        }),
    decreases book.len() - i,
{
    let after = book_sold(book, side, shares, i);
    if i < book.len() {
        if book[i].0 != side || shares <= 0 {
            selling_opens_nothing(book, side, shares, i + 1);
        } else {
            let q = if book[i].1 <= shares {
                book[i].1
            } else {
                shares
            };
            let next = book.update(i, (side, book[i].1 - q));
            selling_opens_nothing(next, side, shares - q, i + 1);
            assert forall|k: int| #![trigger after[k]] 0 <= k < book.len() implies after[k].0
                == book[k].0 && (book[k].1 <= 0 ==> after[k].1 <= 0) by {
                assert(next[k].0 == book[k].0);
            }
        }
    }
    if !can_match(book) {
        let shut = if has_open(book, PositionSide::Up) {
            PositionSide::Down
        } else {
            PositionSide::Up
        };
        crate::fifo::open_means_an_open_holding(book, shut);
        crate::fifo::open_means_an_open_holding(after, shut);
        if has_open(after, shut) {
            let k = choose|k: int|
                0 <= k < after.len() && (#[trigger] after[k]).0 == shut && after[k].1 > 0;
            assert(after[k].0 == book[k].0);
            assert(book[k].0 == shut && book[k].1 > 0);
        }
    }
}

} // verus!
