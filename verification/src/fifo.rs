//! First-in-first-out matching of UP holdings with DOWN holdings.
//!
//! A book is the list of holdings in the order in which they were bought, each
//! with the number of shares that is still open.  One UP share and one DOWN
//! share make a pair that pays one dollar whatever the outcome.
use vstd::prelude::*;
use crate::strategy::sides::PositionSide;

verus! {

/// Position of the first holding of a side at or after `i` with open shares,
/// or the length of the book.
pub open spec fn first_open(book: Seq<(PositionSide, int)>, side: PositionSide, i: int) -> int
    decreases book.len() - i,
{
    if 0 <= i < book.len() && !(book[i].0 == side && book[i].1 > 0) {
        first_open(book, side, i + 1)
    } else {
        i
    }
}

/// Whether a side has open shares.
pub open spec fn has_open(book: Seq<(PositionSide, int)>, side: PositionSide) -> bool {
    first_open(book, side, 0) < book.len()
}

/// Number of holdings with open shares.
pub open spec fn open_count(book: Seq<(PositionSide, int)>) -> nat
    decreases book.len(),
{
    if book.len() == 0 {
        0
    } else {
        open_count(book.drop_last()) + (if book.last().1 > 0 {
            1nat
        } else {
            0nat
        })
    }
}

/// Open shares of a side.
pub open spec fn open_shares(book: Seq<(PositionSide, int)>, side: PositionSide) -> int
    decreases book.len(),
{
    if book.len() == 0 {
        0
    } else {
        open_shares(book.drop_last(), side) + (if book.last().0 == side && book.last().1 > 0 {
            book.last().1
        } else {
            0
        })
    }
}

/// Open shares of both sides.
pub open spec fn all_open(book: Seq<(PositionSide, int)>) -> int {
    open_shares(book, PositionSide::Up) + open_shares(book, PositionSide::Down)
}

/// Whether both sides have open shares.
pub open spec fn can_match(book: Seq<(PositionSide, int)>) -> bool {
    has_open(book, PositionSide::Up) && has_open(book, PositionSide::Down)
}

/// Shares that the first open holdings of the two sides have in common.
pub open spec fn match_size(book: Seq<(PositionSide, int)>) -> int {
    let up = book[first_open(book, PositionSide::Up, 0)].1;
    let down = book[first_open(book, PositionSide::Down, 0)].1;
    if up <= down {
        up
    } else {
        down
    }
}

/// The book with `q` shares fewer at position `i`.
pub open spec fn reduced(book: Seq<(PositionSide, int)>, i: int, q: int) -> Seq<
    (PositionSide, int),
> {
    book.update(i, (book[i].0, book[i].1 - q))
}

/// The book after the first open holdings of the two sides have been matched.
pub open spec fn matched_once(book: Seq<(PositionSide, int)>) -> Seq<(PositionSide, int)> {
    let u = first_open(book, PositionSide::Up, 0);
    let d = first_open(book, PositionSide::Down, 0);
    let q = match_size(book);
    reduced(reduced(book, u, q), d, q)
}

/// The book after everything that can be matched has been.
pub open spec fn matched(book: Seq<(PositionSide, int)>) -> Seq<(PositionSide, int)>
    decreases open_count(book),
{
    if can_match(book) {
        proof {
            one_match_closes_a_holding(book);
        }
        matched(matched_once(book))
    } else {
        book
    }
}

/// Number of matches that [`matched`] makes.
pub open spec fn match_count(book: Seq<(PositionSide, int)>) -> nat
    decreases open_count(book),
{
    if can_match(book) {
        proof {
            one_match_closes_a_holding(book);
        }
        1 + match_count(matched_once(book))
    } else {
        0
    }
}

/// Number of shares that [`matched`] pairs.
pub open spec fn matched_shares(book: Seq<(PositionSide, int)>) -> int
    decreases open_count(book),
{
    if can_match(book) {
        proof {
            one_match_closes_a_holding(book);
        }
        match_size(book) + matched_shares(matched_once(book))
    } else {
        0
    }
}

/// The position that [`first_open`] gives is that of an open holding of the
/// side, and none before it is one.
pub proof fn first_open_finds_the_first(
    book: Seq<(PositionSide, int)>,
    side: PositionSide,
    i: int,
)
    requires
        0 <= i <= book.len(),
    ensures
        i <= first_open(book, side, i) <= book.len(),
        forall|k: int|
            i <= k < first_open(book, side, i) ==> !((#[trigger] book[k]).0 == side && book[k].1
                > 0),
        first_open(book, side, i) < book.len() ==> book[first_open(book, side, i)].0 == side
            && book[first_open(book, side, i)].1 > 0,
    decreases book.len() - i,
{
    if i < book.len() && !(book[i].0 == side && book[i].1 > 0) {
        first_open_finds_the_first(book, side, i + 1);
    }
}

/// A side has open shares exactly if some holding of it has.
pub proof fn open_means_an_open_holding(book: Seq<(PositionSide, int)>, side: PositionSide)
    ensures
        has_open(book, side) <==> exists|k: int|
            0 <= k < book.len() && (#[trigger] book[k]).0 == side && book[k].1 > 0,
{
    first_open_finds_the_first(book, side, 0);
}

proof fn open_count_of_an_update(book: Seq<(PositionSide, int)>, i: int, e: (PositionSide, int))
    requires
        0 <= i < book.len(),
    ensures
        open_count(book.update(i, e)) == open_count(book) - (if book[i].1 > 0 {
            1int
        } else {
            0int
        }) + (if e.1 > 0 {
            1int
        } else {
            0int
        }),
    decreases book.len(),
{
    let after = book.update(i, e);
    if i == book.len() - 1 {
        assert(after.drop_last() =~= book.drop_last());
    } else {
        assert(after.drop_last() =~= book.drop_last().update(i, e));
        open_count_of_an_update(book.drop_last(), i, e);
    }
}

/// Open shares of a side when one holding is replaced.
pub proof fn open_shares_of_an_update(
    book: Seq<(PositionSide, int)>,
    i: int,
    e: (PositionSide, int),
    side: PositionSide,
)
    requires
        0 <= i < book.len(),
    ensures
        open_shares(book.update(i, e), side) == open_shares(book, side) - (if book[i].0 == side
            && book[i].1 > 0 {
            book[i].1
        } else {
            0int
        }) + (if e.0 == side && e.1 > 0 {
            e.1
        } else {
            0int
        }),
    decreases book.len(),
{
    let after = book.update(i, e);
    if i == book.len() - 1 {
        assert(after.drop_last() =~= book.drop_last());
    } else {
        assert(after.drop_last() =~= book.drop_last().update(i, e));
        open_shares_of_an_update(book.drop_last(), i, e, side);
    }
}

/// A match closes at least one holding.
pub proof fn one_match_closes_a_holding(book: Seq<(PositionSide, int)>)
    requires
        can_match(book),
    ensures
        open_count(matched_once(book)) < open_count(book),
        matched_once(book).len() == book.len(),
        match_size(book) > 0,
{
    let u = first_open(book, PositionSide::Up, 0);
    let d = first_open(book, PositionSide::Down, 0);
    let q = match_size(book);
    first_open_finds_the_first(book, PositionSide::Up, 0);
    first_open_finds_the_first(book, PositionSide::Down, 0);
    let half = reduced(book, u, q);
    open_count_of_an_update(book, u, (book[u].0, book[u].1 - q));
    open_count_of_an_update(half, d, (half[d].0, half[d].1 - q));
}

/// A match takes the same number of shares from both sides.
pub proof fn one_match_takes_from_both_sides(book: Seq<(PositionSide, int)>)
    requires
        can_match(book),
    ensures
        open_shares(matched_once(book), PositionSide::Up) == open_shares(book, PositionSide::Up)
            - match_size(book),
        open_shares(matched_once(book), PositionSide::Down) == open_shares(
            book,
            PositionSide::Down,
        ) - match_size(book),
{
    let u = first_open(book, PositionSide::Up, 0);
    let d = first_open(book, PositionSide::Down, 0);
    let q = match_size(book);
    first_open_finds_the_first(book, PositionSide::Up, 0);
    first_open_finds_the_first(book, PositionSide::Down, 0);
    let half = reduced(book, u, q);
    open_shares_of_an_update(book, u, (book[u].0, book[u].1 - q), PositionSide::Up);
    open_shares_of_an_update(book, u, (book[u].0, book[u].1 - q), PositionSide::Down);
    open_shares_of_an_update(half, d, (half[d].0, half[d].1 - q), PositionSide::Up);
    open_shares_of_an_update(half, d, (half[d].0, half[d].1 - q), PositionSide::Down);
}

/// Open shares are never negative, and are none exactly if no holding is open.
pub proof fn open_shares_are_not_negative(book: Seq<(PositionSide, int)>, side: PositionSide)
    ensures
        open_shares(book, side) >= 0,
        open_shares(book, side) > 0 <==> has_open(book, side),
    decreases book.len(),
{
    open_means_an_open_holding(book, side);
    if book.len() > 0 {
        open_shares_are_not_negative(book.drop_last(), side);
        open_means_an_open_holding(book.drop_last(), side);
        let init = book.drop_last();
        if has_open(init, side) {
            let k = choose|k: int|
                0 <= k < init.len() && (#[trigger] init[k]).0 == side && init[k].1 > 0;
            assert(book[k] == init[k]);
        }
        if has_open(book, side) {
            let k = choose|k: int|
                0 <= k < book.len() && (#[trigger] book[k]).0 == side && book[k].1 > 0;
            if k < init.len() {
                assert(init[k] == book[k]);
            }
        }
    }
}

/// Matching leaves open shares on one side at most, takes the same number from
/// both sides, and takes all of the side that has fewer.  No holding grows,
/// changes its side or goes below nothing.
pub proof fn matching_conserves_shares(book: Seq<(PositionSide, int)>)
    ensures
        ({
            let after = matched(book);
            let up = open_shares(book, PositionSide::Up);
            let down = open_shares(book, PositionSide::Down);
            &&& !can_match(after)
            &&& after.len() == book.len()
            &&& open_shares(after, PositionSide::Up) == up - matched_shares(book)
            &&& open_shares(after, PositionSide::Down) == down - matched_shares(book)
            &&& matched_shares(book) == (if up <= down {
                up
            } else {
                down
            })
            &&& match_count(book) <= open_count(book) - open_count(after)
            &&& (match_count(book) > 0) == can_match(book)
            &&& forall|i: int|
                #![trigger after[i]]
                0 <= i < book.len() ==> after[i].0 == book[i].0 && after[i].1 <= book[i].1 && (
                book[i].1 >= 0 ==> after[i].1 >= 0) && (book[i].1 < 0 ==> after[i] == book[i])
        }),
    decreases open_count(book),
{
    open_shares_are_not_negative(book, PositionSide::Up);
    open_shares_are_not_negative(book, PositionSide::Down);
    if can_match(book) {
        one_match_closes_a_holding(book);
        one_match_takes_from_both_sides(book);
        first_open_finds_the_first(book, PositionSide::Up, 0);
        first_open_finds_the_first(book, PositionSide::Down, 0);
        let next = matched_once(book);
        matching_conserves_shares(next);
        let after = matched(book);
        assert forall|i: int| #![trigger after[i]] 0 <= i < book.len() implies after[i].0
            == book[i].0 && after[i].1 <= book[i].1 && (book[i].1 >= 0 ==> after[i].1 >= 0) && (
        book[i].1 < 0 ==> after[i] == book[i]) by {
            assert(matched(next)[i] == after[i]);
            assert(next[i].0 == book[i].0);
        }
    }
}

/// A holding added to a book is added to the open holdings if it is open.
pub proof fn adding_a_holding(book: Seq<(PositionSide, int)>, e: (PositionSide, int))
    ensures
        open_count(book.push(e)) == open_count(book) + (if e.1 > 0 {
            1int
        } else {
            0int
        }),
        open_shares(book.push(e), e.0) == open_shares(book, e.0) + (if e.1 > 0 {
            e.1
        } else {
            0int
        }),
        forall|side: PositionSide|
            side != e.0 ==> #[trigger] open_shares(book.push(e), side) == open_shares(book, side),
{
    assert(book.push(e).drop_last() =~= book);
    assert forall|side: PositionSide| side != e.0 implies #[trigger] open_shares(
        book.push(e),
        side,
    ) == open_shares(book, side) by {
        assert(book.push(e).drop_last() =~= book);
    }
}

/// There are no more open holdings than holdings.
pub proof fn open_count_is_bounded(book: Seq<(PositionSide, int)>)
    ensures
        open_count(book) <= book.len(),
        open_count(book) == 0 <==> !has_open(book, PositionSide::Up) && !has_open(
            book,
            PositionSide::Down,
        ),
    decreases book.len(),
{
    open_means_an_open_holding(book, PositionSide::Up);
    open_means_an_open_holding(book, PositionSide::Down);
    if book.len() > 0 {
        let init = book.drop_last();
        open_count_is_bounded(init);
        open_means_an_open_holding(init, PositionSide::Up);
        open_means_an_open_holding(init, PositionSide::Down);
        if open_count(book) == 0 {
            assert(forall|k: int| 0 <= k < init.len() ==> init[k] == #[trigger] book[k]);
        } else if book.last().1 > 0 {
            assert(book[book.len() - 1].1 > 0);
        } else {
            let side = if has_open(init, PositionSide::Up) {
                PositionSide::Up
            } else {
                PositionSide::Down
            };
            let k = choose|k: int|
                0 <= k < init.len() && (#[trigger] init[k]).0 == side && init[k].1 > 0;
            assert(book[k] == init[k]);
        }
    }
}

/// Closing a holding leaves one open holding fewer, and fewer open shares by
/// those that it had.
pub proof fn closing_a_holding(book: Seq<(PositionSide, int)>, i: int, e: (PositionSide, int))
    requires
        0 <= i < book.len(),
        e.1 <= 0,
    ensures
        open_count(book.update(i, e)) == open_count(book) - (if book[i].1 > 0 {
            1int
        } else {
            0int
        }),
        all_open(book.update(i, e)) == all_open(book) - (if book[i].1 > 0 {
            book[i].1
        } else {
            0int
        }),
        forall|side: PositionSide| #[trigger]
            open_shares(book.update(i, e), side) == open_shares(book, side) - (if book[i].0 == side
                && book[i].1 > 0 {
                book[i].1
            } else {
                0int
            }),
{
    open_count_of_an_update(book, i, e);
    open_shares_of_an_update(book, i, e, PositionSide::Up);
    open_shares_of_an_update(book, i, e, PositionSide::Down);
}

} // verus!
