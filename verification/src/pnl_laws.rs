//! What fees, outcomes and books come to.
use vstd::prelude::*;
use crate::fifo::{
    adding_a_holding, can_match, matched, matched_shares, matching_conserves_shares, open_shares,
    open_shares_are_not_negative, open_shares_of_an_update,
};
use crate::pnl::{
    book_sold, fee_of, ledger_gross, leg_bought, leg_sold, net_booked, settled_book, window_booked,
    winner_of, Accounts, Ledger,
};
use crate::strategy::sides::PositionSide;
use crate::units::{clamped, magnitude, rounded_quotient, truncated_quotient};

verus! {

/// A rounded quotient is the nearest whole number, the one further from zero of two
/// that are as near.
pub proof fn quotients_are_rounded_to_the_nearest(x: int, d: int)
    requires
        d > 0,
    ensures
        magnitude(2 * (rounded_quotient(x, d) * d) - 2 * x) <= d,
        x >= 0 ==> 2 * (rounded_quotient(x, d) * d) > 2 * x - d,
        rounded_quotient(-x, d) == -rounded_quotient(x, d),
{
    let whole = magnitude(x);
    let n = 2 * whole + d;
    let m = 2 * d;
    let q = n / m;
    vstd::arithmetic::div_mod::lemma_fundamental_div_mod(n, m);
    vstd::arithmetic::div_mod::lemma_mod_bound(n, m);
    assert(m * q == 2 * (q * d)) by (nonlinear_arith)
        requires
            m == 2 * d,
    ;
    assert((-q) * d == -(q * d)) by (nonlinear_arith);
    if x == 0 {
        assert(q == 0) by (nonlinear_arith)
            requires
                n == d,
                m == 2 * d,
                n == m * q + n % m,
                0 <= n % m < m,
                d > 0,
        ;
    }
}

/// A truncated quotient is the nearest whole number towards zero.
pub proof fn fractions_are_dropped(x: int, d: int)
    requires
        d > 0,
    ensures
        x >= 0 ==> truncated_quotient(x, d) * d <= x < truncated_quotient(x, d) * d + d,
        truncated_quotient(-x, d) == -truncated_quotient(x, d),
{
    let whole = magnitude(x);
    vstd::arithmetic::div_mod::lemma_fundamental_div_mod(whole, d);
    vstd::arithmetic::div_mod::lemma_mod_bound(whole, d);
    assert(d * (whole / d) == (whole / d) * d) by (nonlinear_arith);
    if x == 0 {
        vstd::arithmetic::div_mod::lemma_div_of0(d);
    }
}

/// A number that is held between two bounds is the nearest one to it between them.
pub proof fn a_held_number_is_the_nearest(x: int, lo: int, hi: int)
    requires
        lo <= hi,
    ensures
        lo <= clamped(x, lo, hi) <= hi,
        lo <= x <= hi ==> clamped(x, lo, hi) == x,
        x <= lo ==> clamped(x, lo, hi) == lo,
        x >= hi ==> clamped(x, lo, hi) == hi,
{
}

/// The fee of a fill is in hundred-thousandths of a dollar, the nearest to
/// `shares * 0.07 * p * (1 - p)`, where `p` is the price held between 1 and 99
/// cents.
pub proof fn a_fee_is_seven_percent_of_the_risk(shares: int, price: int)
    requires
        shares >= 0,
    ensures
        ({
            let p = if price < 10_000_000 {
                10_000_000
            } else if price > 990_000_000 {
                990_000_000
            } else {
                price
            };
            let exact = shares * 7 * p * (1_000_000_000 - p);
            let steps = fee_of(shares, price) / 10_000;
            &&& fee_of(shares, price) == steps * 10_000
            &&& 2 * exact - 1_000_000_000_000_000_000_000_000 < 2
                * (steps * 1_000_000_000_000_000_000_000_000) <= 2 * exact
                + 1_000_000_000_000_000_000_000_000
        }),
{
    let p = clamped(price, 10_000_000, 990_000_000);
    let d = 1_000_000_000_000_000_000_000_000;
    let exact = shares * 7 * p * (1_000_000_000 - p);
    quotients_are_rounded_to_the_nearest(exact, d);
    assert(exact >= 0) by (nonlinear_arith)
        requires
            exact == shares * 7 * p * (1_000_000_000 - p),
            shares >= 0,
            10_000_000 <= p <= 990_000_000,
    ;
    assert(fee_of(shares, price) == rounded_quotient(exact, d) * 10_000);
}

/// Both sides pay the same fee for a share: the fee at a price is that at what the
/// price leaves of a dollar.
pub proof fn the_fee_is_the_same_on_both_sides(shares: int, price: int)
    ensures
        fee_of(shares, 1_000_000_000 - price) == fee_of(shares, price),
{
    let p = clamped(price, 10_000_000, 990_000_000);
    let q = clamped(1_000_000_000 - price, 10_000_000, 990_000_000);
    assert(q == 1_000_000_000 - p);
    assert(shares * 7 * p * (1_000_000_000 - p) == shares * 7 * q * (1_000_000_000 - q))
        by (nonlinear_arith)
        requires
            q == 1_000_000_000 - p,
    ;
}

/// The side wins whose token trades at 55 cents or more against 45 or less;
/// between them bitcoin decides, and UP needs it above the strike.  Without a price
/// or a strike nobody is known to have won.
pub proof fn the_dear_token_has_won(up: int, down: int, last: Option<i64>, ptb: Option<i64>)
    ensures
        up >= 550_000_000 && down <= 450_000_000 ==> winner_of(up, down, last, ptb) == Some(
            PositionSide::Up,
        ),
        down >= 550_000_000 && up <= 450_000_000 ==> winner_of(up, down, last, ptb) == Some(
            PositionSide::Down,
        ),
        !(up >= 550_000_000 && down <= 450_000_000) && !(down >= 550_000_000 && up <= 450_000_000)
            ==> {
            &&& last is None || ptb is None ==> winner_of(up, down, last, ptb) is None
            &&& last is Some && ptb is Some && last->0 > ptb->0 ==> winner_of(up, down, last, ptb)
                == Some(PositionSide::Up)
            &&& last is Some && ptb is Some && last->0 <= ptb->0 ==> winner_of(up, down, last, ptb)
                == Some(PositionSide::Down)
        },
{
}

/// A bought leg costs its price and fee; as many of its shares as the other side has
/// open are paired and pay a dollar each, and the rest is open.
pub proof fn a_bought_leg_is_paired_as_far_as_it_goes(
    l: Ledger,
    side: PositionSide,
    price: int,
    shares: int,
)
    requires
        shares >= 0,
        !can_match(l.book),
    ensures
        ({
            let other = side.opposite_spec();
            let after = leg_bought(l, side, price, shares);
            let there = open_shares(l.book, other);
            let paired = if shares <= there {
                shares
            } else {
                there
            };
            &&& after.fees == l.fees + fee_of(shares, price) * 1_000_000_000
            &&& after.buy_cost == l.buy_cost + shares * price
            &&& after.sell_proceeds == l.sell_proceeds
            &&& after.legs == l.legs + 1
            &&& after.paired_payout == l.paired_payout + paired * 1_000_000_000
            &&& open_shares(after.book, side) == open_shares(l.book, side) + shares - paired
            &&& open_shares(after.book, other) == there - paired
            &&& !can_match(after.book)
        }),
{
    let other = side.opposite_spec();
    let book = l.book.push((side, shares));
    adding_a_holding(l.book, (side, shares));
    matching_conserves_shares(book);
    open_shares_are_not_negative(l.book, PositionSide::Up);
    open_shares_are_not_negative(l.book, PositionSide::Down);
    assert(open_shares(book, other) == open_shares(l.book, other));
    assert(leg_bought(l, side, price, shares).book == matched(book));
    assert(matched_shares(book) >= 0);
}

proof fn selling_takes_the_oldest(
    book: Seq<(PositionSide, int)>,
    side: PositionSide,
    shares: int,
    i: int,
)
    requires
        0 <= i <= book.len(),
        shares >= 0,
        forall|k: int| 0 <= k < book.len() ==> (#[trigger] book[k]).1 >= 0,
    ensures
        ({
            let after = book_sold(book, side, shares, i);
            let sold = open_shares(book, side) - open_shares(after, side);
            &&& after.len() == book.len()
            &&& forall|k: int|
                #![trigger after[k]]
                0 <= k < book.len() ==> after[k].0 == book[k].0 && 0 <= after[k].1 <= book[k].1
                    && (k < i || book[k].0 != side ==> after[k] == book[k])
            &&& open_shares(after, side.opposite_spec()) == open_shares(book, side.opposite_spec())
            &&& 0 <= sold <= shares
            &&& sold < shares ==> forall|k: int|
                i <= k < book.len() && (#[trigger] after[k]).0 == side ==> after[k].1 == 0
            &&& forall|j: int, k: int|
                i <= j < k < book.len() && (#[trigger] after[j]).0 == side && (
                #[trigger] after[k]).1 < book[k].1 ==> after[j].1 == 0
        }),
    decreases book.len() - i,
{
    if i < book.len() {
        if book[i].0 != side || shares <= 0 {
            selling_takes_the_oldest(book, side, shares, i + 1);
            let after = book_sold(book, side, shares, i);
            if shares <= 0 {
                selling_nothing(book, side, shares, i);
            }
        } else {
            let q = if book[i].1 <= shares {
                book[i].1
            } else {
                shares
            };
            let next = book.update(i, (side, book[i].1 - q));
            assert(forall|k: int| 0 <= k < next.len() ==> (#[trigger] next[k]).1 >= 0);
            selling_takes_the_oldest(next, side, shares - q, i + 1);
            open_shares_of_an_update(book, i, (side, book[i].1 - q), side);
            open_shares_of_an_update(book, i, (side, book[i].1 - q), side.opposite_spec());
            let after = book_sold(book, side, shares, i);
            assert(after == book_sold(next, side, shares - q, i + 1));
            assert(after[i] == next[i]);
            if q < book[i].1 {
                selling_nothing(next, side, shares - q, i + 1);
            }
        }
    }
}

proof fn selling_nothing(book: Seq<(PositionSide, int)>, side: PositionSide, shares: int, i: int)
    requires
        0 <= i <= book.len(),
        shares <= 0,
    ensures
        book_sold(book, side, shares, i) == book,
    decreases book.len() - i,
{
    if i < book.len() {
        selling_nothing(book, side, shares, i + 1);
    }
}

/// A sold leg pays its price and costs its fee.  It closes as many shares of its side
/// as it sells, or all there are, from the oldest on; the other side stays.
pub proof fn a_sold_leg_closes_the_oldest(l: Ledger, side: PositionSide, price: int, shares: int)
    requires
        shares >= 0,
        forall|k: int| 0 <= k < l.book.len() ==> (#[trigger] l.book[k]).1 >= 0,
    ensures
        ({
            let after = leg_sold(l, side, price, shares);
            let there = open_shares(l.book, side);
            &&& after.fees == l.fees + fee_of(shares, price) * 1_000_000_000
            &&& after.sell_proceeds == l.sell_proceeds + shares * price
            &&& after.buy_cost == l.buy_cost
            &&& after.paired_payout == l.paired_payout
            &&& after.legs == l.legs + 1
            &&& open_shares(after.book, side) == (if shares <= there {
                there - shares
            } else {
                0
            })
            &&& open_shares(after.book, side.opposite_spec()) == open_shares(
                l.book,
                side.opposite_spec(),
            )
            &&& after.book.len() == l.book.len()
            &&& forall|j: int, k: int|
                0 <= j < k < l.book.len() && (#[trigger] after.book[j]).0 == side && (
                #[trigger] after.book[k]).1 < l.book[k].1 ==> after.book[j].1 == 0
        }),
{
    selling_takes_the_oldest(l.book, side, shares, 0);
    let after = leg_sold(l, side, price, shares);
    open_shares_are_not_negative(after.book, side);
    let sold = open_shares(l.book, side) - open_shares(after.book, side);
    if sold < shares {
        nothing_is_open(after.book, side);
    }
}

proof fn nothing_is_open(book: Seq<(PositionSide, int)>, side: PositionSide)
    requires
        forall|k: int| 0 <= k < book.len() && (#[trigger] book[k]).0 == side ==> book[k].1 == 0,
    ensures
        open_shares(book, side) == 0,
    decreases book.len(),
{
    if book.len() > 0 {
        let init = book.drop_last();
        assert forall|k: int| 0 <= k < init.len() && (#[trigger] init[k]).0 == side implies init[k].1
            == 0 by {
            assert(init[k] == book[k]);
        }
        assert(book[book.len() - 1] == book.last());
        nothing_is_open(init, side);
    }
}

/// At the end each open share of the winning side pays a dollar, and nothing else
/// does; the result is what came in less what went out.
pub proof fn the_winner_is_paid_a_dollar(l: Ledger, side: PositionSide)
    requires
        forall|k: int| 0 <= k < l.book.len() ==> (#[trigger] l.book[k]).1 >= 0,
    ensures
        ledger_gross(l, Some(side)) == l.paired_payout + l.sell_proceeds + open_shares(l.book, side)
            * 1_000_000_000 - l.buy_cost,
        ledger_gross(l, None) == l.paired_payout + l.sell_proceeds - l.buy_cost,
{
    settling_pays_the_open(l.book, side);
}

proof fn settling_pays_the_open(book: Seq<(PositionSide, int)>, side: PositionSide)
    requires
        forall|k: int| 0 <= k < book.len() ==> (#[trigger] book[k]).1 >= 0,
    ensures
        settled_book(book, Some(side)) == open_shares(book, side) * 1_000_000_000,
        settled_book(book, None) == 0,
    decreases book.len(),
{
    if book.len() > 0 {
        let init = book.drop_last();
        assert forall|k: int| 0 <= k < init.len() implies (#[trigger] init[k]).1 >= 0 by {
            assert(init[k] == book[k]);
        }
        assert(book[book.len() - 1].1 >= 0);
        settling_pays_the_open(init, side);
    }
}

/// A closed window adds its result and its fees to the totals, and the net is the
/// result less the fees; one without a leg adds nothing.  Either way no window is
/// open after it.
pub proof fn a_closed_window_is_added(a: Accounts, winner: Option<PositionSide>)
    requires
        a.window matches Some(w) ==> {
            let gross = ledger_gross(w.ledger, winner);
            &&& i128::MIN <= a.totals.net + gross - w.ledger.fees <= i128::MAX
            &&& i128::MIN <= a.totals.gross + gross <= i128::MAX
            &&& i128::MIN <= a.totals.fees + w.ledger.fees <= i128::MAX
        },
    ensures
        ({
            let after = window_booked(a, winner);
            &&& after.window is None
            &&& a.window is None || a.window->0.ledger.legs <= 0 ==> after.totals == a.totals
            &&& a.window is Some && a.window->0.ledger.legs > 0 ==> {
                let l = a.window->0.ledger;
                &&& after.totals.gross - a.totals.gross == l.paired_payout + l.sell_proceeds
                    - l.buy_cost + settled_book(l.book, winner)
                &&& after.totals.fees - a.totals.fees == l.fees
                &&& after.totals.net - a.totals.net == after.totals.gross - a.totals.gross - l.fees
            }
        }),
{
}

/// A window that was settled elsewhere adds its net to net and gross alike.
pub proof fn a_settled_window_is_added(a: Accounts, net: int)
    requires
        i128::MIN <= a.totals.net + net <= i128::MAX,
        i128::MIN <= a.totals.gross + net <= i128::MAX,
    ensures
        ({
            let after = net_booked(a, net);
            &&& after.window is None
            &&& after.totals.net == a.totals.net + net
            &&& after.totals.gross == a.totals.gross + net
            &&& after.totals.fees == a.totals.fees
        }),
{
}

} // verus!
