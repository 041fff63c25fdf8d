//! How a window is replayed with the pairing strategy.
use vstd::prelude::*;
use crate::fifo::{
    can_match, first_open_finds_the_first, match_size, matched, matched_once, matched_shares,
    one_match_closes_a_holding, open_count,
};
use crate::pnl::{ledger_gross, leg_bought, settled_book, Ledger};
use super::detector::{after_bn, after_cb};
use super::pairing::{kept_quote, last_ticked, signalled, ticked, Pairing, State};
use super::pairing_replay::{
    closed, event_added, event_slot, events_of, filled, ledger_of, leg_filled, pairing_outcome,
    replayed, replayed_through, time_of, told, with_asks, with_bn, with_cb, Event,
    PairingWindowResult, Replay,
};
use super::detector::CaptureSignal;
use super::sides::PositionSide;
use super::tape::ask_known;
use super::trades::BotAction;

verus! {

/// Whether ticks are in the order of their times.
pub open spec fn in_time(events: Seq<Event>) -> bool {
    forall|i: int, j: int|
        0 <= i < j < events.len() ==> time_of(#[trigger] events[i]) <= time_of(#[trigger] events[j])
}

proof fn a_slot_parts_the_ticks(events: Seq<Event>, t: int, n: int)
    requires
        0 <= n <= events.len(),
    ensures
        0 <= event_slot(events, t, n) <= n,
        forall|k: int| event_slot(events, t, n) <= k < n ==> time_of(#[trigger] events[k]) > t,
        event_slot(events, t, n) > 0 ==> time_of(events[event_slot(events, t, n) - 1]) <= t,
    decreases n,
{
    if n > 0 && time_of(events[n - 1]) > t {
        a_slot_parts_the_ticks(events, t, n - 1);
    }
}

/// A tick goes after all that are not later and before all that are: ticks stay in
/// time, none is lost, and of one time the earlier comer goes first.
pub proof fn ticks_are_added_in_time(events: Seq<Event>, e: Event)
    requires
        in_time(events),
    ensures
        ({
            let after = event_added(events, e);
            &&& in_time(after)
            &&& exists|k: int|
                0 <= k <= events.len() && after == #[trigger] events.insert(k, e) && (forall|i: int|
                    0 <= i < k ==> time_of(#[trigger] events[i]) <= time_of(e)) && (forall|i: int|
                    k <= i < events.len() ==> time_of(#[trigger] events[i]) > time_of(e))
        }),
{
    let t = time_of(e) as int;
    let k = event_slot(events, t, events.len() as int);
    a_slot_parts_the_ticks(events, t, events.len() as int);
    let after = event_added(events, e);
    assert(after == events.insert(k, e));
    assert forall|i: int| 0 <= i < k implies time_of(#[trigger] events[i]) <= t by {
        if i < k - 1 {
            assert(time_of(events[i]) <= time_of(events[k - 1]));
        }
    }
    events.insert_ensures(k, e);
    assert forall|i: int, j: int| 0 <= i < j < after.len() implies time_of(#[trigger] after[i])
        <= time_of(#[trigger] after[j]) by {
        let a = if i < k {
            i
        } else {
            i - 1
        };
        let b = if j < k {
            j
        } else {
            j - 1
        };
        if i != k && j != k {
            assert(after[i] == events[a]);
            assert(after[j] == events[b]);
        } else if i == k {
            assert(after[j] == events[b]);
        } else {
            assert(after[i] == events[a]);
        }
    }
}

/// All ticks of the feeds are replayed, in time; a quote needs both asks.
pub proof fn all_ticks_are_replayed(
    bn: Seq<(i64, i64)>,
    cb: Seq<(i64, i64)>,
    asks: Seq<(i64, i64, i64)>,
)
    ensures
        ({
            let events = events_of(bn, cb, asks);
            &&& in_time(events)
            &&& forall|i: int|
                0 <= i < bn.len() ==> events.contains(
                    Event::Bn((#[trigger] bn[i]).0, bn[i].1),
                )
            &&& forall|i: int|
                0 <= i < cb.len() ==> events.contains(
                    Event::Cb((#[trigger] cb[i]).0, cb[i].1),
                )
            &&& forall|i: int|
                0 <= i < asks.len() && (#[trigger] asks[i]).1 > 0 && asks[i].2 > 0
                    ==> events.contains(Event::Ask(asks[i].0, asks[i].1, asks[i].2))
            &&& events.len() == bn.len() + cb.len() + count_of_quotes(asks, asks.len() as int)
        }),
{
    let none = Seq::<Event>::empty();
    bn_ticks(none, bn, bn.len() as int);
    let one = with_bn(none, bn, bn.len() as int);
    cb_ticks(one, cb, cb.len() as int);
    let two = with_cb(one, cb, cb.len() as int);
    ask_ticks(two, asks, asks.len() as int);
}

/// How many of the first `n` quotes have both asks.
pub open spec fn count_of_quotes(asks: Seq<(i64, i64, i64)>, n: int) -> int
    decreases n,
{
    if n <= 0 {
        0
    } else {
        count_of_quotes(asks, n - 1) + (if asks[n - 1].1 > 0 && asks[n - 1].2 > 0 {
            1int
        } else {
            0
        })
    }
}

proof fn an_added_tick_is_there(events: Seq<Event>, e: Event)
    requires
        in_time(events),
    ensures
        in_time(event_added(events, e)),
        event_added(events, e).len() == events.len() + 1,
        event_added(events, e).contains(e),
        forall|x: Event| #[trigger]
            events.contains(x) ==> event_added(events, e).contains(x),
{
    ticks_are_added_in_time(events, e);
    let t = time_of(e) as int;
    let k = event_slot(events, t, events.len() as int);
    a_slot_parts_the_ticks(events, t, events.len() as int);
    let after = event_added(events, e);
    assert(after[k] == e);
    assert forall|x: Event| #[trigger] events.contains(x) implies after.contains(x) by {
        let i = choose|i: int| 0 <= i < events.len() && events[i] == x;
        let j = if i < k {
            i
        } else {
            i + 1
        };
        assert(after[j] == x);
    }
}

proof fn bn_ticks(events: Seq<Event>, tape: Seq<(i64, i64)>, n: int)
    requires
        in_time(events),
        0 <= n <= tape.len(),
    ensures
        in_time(with_bn(events, tape, n)),
        with_bn(events, tape, n).len() == events.len() + n,
        forall|x: Event| #[trigger]
            events.contains(x) ==> with_bn(events, tape, n).contains(x),
        forall|i: int|
            0 <= i < n ==> with_bn(events, tape, n).contains(
                Event::Bn((#[trigger] tape[i]).0, tape[i].1),
            ),
    decreases n,
{
    if n > 0 {
        bn_ticks(events, tape, n - 1);
        an_added_tick_is_there(
            with_bn(events, tape, n - 1),
            Event::Bn(tape[n - 1].0, tape[n - 1].1),
        );
    }
}

proof fn cb_ticks(events: Seq<Event>, tape: Seq<(i64, i64)>, n: int)
    requires
        in_time(events),
        0 <= n <= tape.len(),
    ensures
        in_time(with_cb(events, tape, n)),
        with_cb(events, tape, n).len() == events.len() + n,
        forall|x: Event| #[trigger]
            events.contains(x) ==> with_cb(events, tape, n).contains(x),
        forall|i: int|
            0 <= i < n ==> with_cb(events, tape, n).contains(
                Event::Cb((#[trigger] tape[i]).0, tape[i].1),
            ),
    decreases n,
{
    if n > 0 {
        cb_ticks(events, tape, n - 1);
        an_added_tick_is_there(
            with_cb(events, tape, n - 1),
            Event::Cb(tape[n - 1].0, tape[n - 1].1),
        );
    }
}

proof fn ask_ticks(events: Seq<Event>, tape: Seq<(i64, i64, i64)>, n: int)
    requires
        in_time(events),
        0 <= n <= tape.len(),
    ensures
        in_time(with_asks(events, tape, n)),
        with_asks(events, tape, n).len() == events.len() + count_of_quotes(tape, n),
        forall|x: Event| #[trigger]
            events.contains(x) ==> with_asks(events, tape, n).contains(x),
        forall|i: int|
            0 <= i < n && (#[trigger] tape[i]).1 > 0 && tape[i].2 > 0 ==> with_asks(
                events,
                tape,
                n,
            ).contains(Event::Ask(tape[i].0, tape[i].1, tape[i].2)),
    decreases n,
{
    if n > 0 {
        ask_ticks(events, tape, n - 1);
        an_added_tick_is_there(
            with_asks(events, tape, n - 1),
            Event::Ask(tape[n - 1].0, tape[n - 1].1, tape[n - 1].2),
        );
    }
}

/// A leg is filled at the last valid ask before a quarter of a second after its
/// signal, or at the worst ask of its order if there is none.
pub proof fn a_leg_is_filled_a_quarter_of_a_second_later(
    l: Ledger,
    side: PositionSide,
    signal_t: i64,
    worst_ask: i64,
    asks: Seq<(i64, i64, i64)>,
    shares: int,
)
    ensures
        ({
            let after = leg_filled(l, side, signal_t, worst_ask, asks, shares);
            let known = ask_known(asks, signal_t + 249, side);
            &&& known is Some ==> after == leg_bought(l, side, known->0 as int, shares)
            &&& known is None ==> after == leg_bought(l, side, worst_ask as int, shares)
        }),
{
}

/// An entry and a pair order are filled with all their shares; without an order
/// nothing is bought.
pub proof fn orders_are_filled(
    l: Ledger,
    order: Option<BotAction>,
    asks: Seq<(i64, i64, i64)>,
    shares: int,
)
    ensures
        match order {
            Some(BotAction::BuyEntry { side, signal_t, worst_ask, .. }) => {
                let after = filled(l, order, asks, shares);
                &&& after == leg_filled(l, side, signal_t, worst_ask, asks, shares)
                &&& after.legs == l.legs + 1
            },
            Some(BotAction::BuyPair { side, signal_t, worst_ask, .. }) => {
                let after = filled(l, order, asks, shares);
                &&& after == leg_filled(l, side, signal_t, worst_ask, asks, shares)
                &&& after.legs == l.legs + 1
            },
            _ => filled(l, order, asks, shares) == l,
        },
{
}

/// A signal counts while nothing is pending or held.
pub proof fn signals_count_while_flat(p: Pairing, c: CaptureSignal)
    ensures
        told(p, None) == p,
        p.state is Idle || p.state is Cooldown ==> told(p, Some(c)) == signalled(p, c),
        p.state is PendingEntry || p.state is Holding ==> told(p, Some(c)) == p,
{
}

/// A price moves the trend and may be a signal; only a quote leads to an order.
pub proof fn only_quotes_lead_to_orders(
    r: Replay,
    t: i64,
    a: i64,
    b: i64,
    asks: Seq<(i64, i64, i64)>,
    shares: int,
    end_ms: int,
    m: spec_fn(i64) -> i64,
)
    ensures
        ({
            let bn = replayed(r, Event::Bn(t, a), asks, shares, end_ms, m);
            &&& bn.ledger == r.ledger
            &&& bn.trend == after_bn(r.trend, t as int, a, m).0
            &&& bn.pairing == told(r.pairing, after_bn(r.trend, t as int, a, m).1)
        }),
        ({
            let cb = replayed(r, Event::Cb(t, a), asks, shares, end_ms, m);
            &&& cb.ledger == r.ledger
            &&& cb.trend == after_cb(r.trend, t as int, a, m).0
            &&& cb.pairing == told(r.pairing, after_cb(r.trend, t as int, a, m).1)
        }),
        ({
            let q = replayed(r, Event::Ask(t, a, b), asks, shares, end_ms, m);
            let tick = ticked(kept_quote(r.pairing, t, a, b), t, a, b, end_ms);
            &&& q.pairing == tick.0
            &&& q.ledger == filled(r.ledger, tick.1, asks, shares)
            &&& a > 0 ==> q.trend.poly == r.trend.poly.push((t, a, b))
            &&& a <= 0 ==> q.trend == r.trend
        }),
{
}

/// At the close the last quote ticks once more, a millisecond before the end; if it
/// leads to no order, what is held is paired if it is under water.
pub proof fn the_close_ticks_once_more(
    r: Replay,
    last: (i64, i64, i64),
    asks: Seq<(i64, i64, i64)>,
    shares: int,
    end_ms: int,
)
    ensures
        ({
            let tick = ticked(r.pairing, (end_ms - 1) as i64, last.1, last.2, end_ms);
            let after = closed(r, last, asks, shares, end_ms);
            &&& tick.1 is Some ==> after == filled(r.ledger, tick.1, asks, shares)
            &&& tick.1 is None ==> after == filled(
                r.ledger,
                last_ticked(tick.0, end_ms).1,
                asks,
                shares,
            )
        }),
{
}

/// Whether a ledger is made of legs of one size: each holding is whole or closed, and
/// what was paid and paid out are multiples of the size.
pub open spec fn is_of_equal_legs(l: Ledger, shares: int) -> bool {
    &&& l.sell_proceeds == 0
    &&& is_multiple(l.buy_cost, shares)
    &&& is_multiple(l.paired_payout, shares)
    &&& is_whole(l.book, shares)
}

/// Whether a number is a multiple of another.
pub open spec fn is_multiple(x: int, of: int) -> bool {
    exists|k: int| x == #[trigger] (k * of)
}

/// Whether each holding has all its shares or none.
pub open spec fn is_whole(book: Seq<(PositionSide, int)>, shares: int) -> bool {
    forall|i: int| 0 <= i < book.len() ==> (#[trigger] book[i]).1 == 0 || book[i].1 == shares
}

proof fn multiples_add_up(x: int, y: int, of: int)
    requires
        is_multiple(x, of),
        is_multiple(y, of),
    ensures
        is_multiple(x + y, of),
        is_multiple(x - y, of),
{
    let a = choose|k: int| x == #[trigger] (k * of);
    let b = choose|k: int| y == #[trigger] (k * of);
    assert(x + y == (a + b) * of) by (nonlinear_arith)
        requires
            x == a * of,
            y == b * of,
    ;
    assert(x - y == (a - b) * of) by (nonlinear_arith)
        requires
            x == a * of,
            y == b * of,
    ;
}

proof fn a_product_is_a_multiple(of: int, k: int)
    ensures
        is_multiple(of * k, of),
{
    assert(of * k == k * of) by (nonlinear_arith);
}

proof fn matching_equal_legs(book: Seq<(PositionSide, int)>, shares: int)
    requires
        is_whole(book, shares),
    ensures
        is_whole(matched(book), shares),
        is_multiple(matched_shares(book) * 1_000_000_000, shares),
    decreases open_count(book),
{
    a_product_is_a_multiple(shares, 0);
    a_product_is_a_multiple(shares, 1_000_000_000);
    if can_match(book) {
        first_open_finds_the_first(book, PositionSide::Up, 0);
        first_open_finds_the_first(book, PositionSide::Down, 0);
        one_match_closes_a_holding(book);
        assert(match_size(book) == shares);
        let next = matched_once(book);
        assert(is_whole(next, shares));
        matching_equal_legs(next, shares);
        multiples_add_up(shares * 1_000_000_000, matched_shares(next) * 1_000_000_000, shares);
    }
}

proof fn a_bought_leg_is_an_equal_leg(l: Ledger, side: PositionSide, price: int, shares: int)
    requires
        is_of_equal_legs(l, shares),
    ensures
        is_of_equal_legs(leg_bought(l, side, price, shares), shares),
{
    let book = l.book.push((side, shares));
    assert(is_whole(book, shares));
    matching_equal_legs(book, shares);
    a_product_is_a_multiple(shares, price);
    multiples_add_up(l.buy_cost, shares * price, shares);
    multiples_add_up(l.paired_payout, matched_shares(book) * 1_000_000_000, shares);
}

proof fn replaying_buys_equal_legs(
    r: Replay,
    events: Seq<Event>,
    n: int,
    asks: Seq<(i64, i64, i64)>,
    shares: int,
    end_ms: int,
    m: spec_fn(i64) -> i64,
)
    requires
        is_of_equal_legs(r.ledger, shares),
    ensures
        is_of_equal_legs(
            replayed_through(r, events, n, asks, shares, end_ms, m).ledger,
            shares,
        ),
    decreases n,
{
    if n > 0 {
        replaying_buys_equal_legs(r, events, n - 1, asks, shares, end_ms, m);
        let before = replayed_through(r, events, n - 1, asks, shares, end_ms, m);
        if let Event::Ask(t, up, down) = events[n - 1] {
            let order = ticked(kept_quote(before.pairing, t, up, down), t, up, down, end_ms).1;
            filling_buys_an_equal_leg(before.ledger, order, asks, shares);
        }
    }
}

proof fn filling_buys_an_equal_leg(
    l: Ledger,
    order: Option<BotAction>,
    asks: Seq<(i64, i64, i64)>,
    shares: int,
)
    requires
        is_of_equal_legs(l, shares),
    ensures
        is_of_equal_legs(filled(l, order, asks, shares), shares),
{
    match order {
        Some(BotAction::BuyEntry { side, signal_t, worst_ask, .. }) => {
            let fill = match ask_known(asks, signal_t + 249, side) {
                Some(ask) => ask,
                None => worst_ask,
            };
            a_bought_leg_is_an_equal_leg(l, side, fill as int, shares);
        },
        Some(BotAction::BuyPair { side, signal_t, worst_ask, .. }) => {
            let fill = match ask_known(asks, signal_t + 249, side) {
                Some(ask) => ask,
                None => worst_ask,
            };
            a_bought_leg_is_an_equal_leg(l, side, fill as int, shares);
        },
        _ => {},
    }
}

proof fn settling_equal_legs(
    book: Seq<(PositionSide, int)>,
    winner: Option<PositionSide>,
    shares: int,
)
    requires
        is_whole(book, shares),
    ensures
        is_multiple(settled_book(book, winner), shares),
    decreases book.len(),
{
    a_product_is_a_multiple(shares, 0);
    if book.len() > 0 {
        let init = book.drop_last();
        assert forall|i: int| 0 <= i < init.len() implies (#[trigger] init[i]).1 == 0 || init[i].1
            == shares by {
            assert(init[i] == book[i]);
        }
        assert(book[book.len() - 1] == book.last());
        settling_equal_legs(init, winner, shares);
        a_product_is_a_multiple(shares, 1_000_000_000);
        multiples_add_up(settled_book(init, winner), shares * 1_000_000_000, shares);
    }
}

/// A replayed window is made of legs of the size that is asked for: whoever wins, its
/// result before fees is a multiple of the size.
pub proof fn a_replay_buys_what_is_asked_for(
    open_ms: i64,
    end_ms: i64,
    ptb: Option<i64>,
    bn: Seq<(i64, i64)>,
    cb: Seq<(i64, i64)>,
    asks: Seq<(i64, i64, i64)>,
    shares: int,
    m: spec_fn(i64) -> i64,
    winner: Option<PositionSide>,
)
    ensures
        is_of_equal_legs(ledger_of(open_ms, end_ms, ptb, bn, cb, asks, shares, m), shares),
        is_multiple(
            ledger_gross(ledger_of(open_ms, end_ms, ptb, bn, cb, asks, shares, m), winner),
            shares,
        ),
{
    let events = events_of(bn, cb, asks);
    let start = Replay {
        trend: super::detector::no_trend(open_ms, end_ms, ptb),
        pairing: Pairing { state: State::Idle, history: Seq::empty() },
        ledger: crate::pnl::fresh_ledger(),
    };
    a_product_is_a_multiple(shares, 0);
    assert(is_of_equal_legs(start.ledger, shares));
    let n = events.len() as int;
    replaying_buys_equal_legs(start, events, n, asks, shares, end_ms as int, m);
    let r = replayed_through(start, events, n, asks, shares, end_ms as int, m);
    let last = asks[asks.len() - 1];
    let tick = ticked(r.pairing, (end_ms - 1) as i64, last.1, last.2, end_ms as int);
    filling_buys_an_equal_leg(r.ledger, tick.1, asks, shares);
    filling_buys_an_equal_leg(r.ledger, last_ticked(tick.0, end_ms as int).1, asks, shares);
    let l = ledger_of(open_ms, end_ms, ptb, bn, cb, asks, shares, m);
    settling_equal_legs(l.book, winner, shares);
    multiples_add_up(l.paired_payout, settled_book(l.book, winner), shares);
    multiples_add_up(l.paired_payout + settled_book(l.book, winner), l.buy_cost, shares);
}

/// A replayed window comes to what its ledger does if the side wins that the last
/// quote and the last Binance price show; its net is its result less its fees.
/// Without a quote, and without a leg, it comes to nothing.
pub proof fn a_replay_is_settled_by_its_last_ticks(
    open_ms: i64,
    end_ms: i64,
    ptb: Option<i64>,
    bn: Seq<(i64, i64)>,
    cb: Seq<(i64, i64)>,
    asks: Seq<(i64, i64, i64)>,
    shares: int,
    m: spec_fn(i64) -> i64,
)
    ensures
        ({
            let r = pairing_outcome(open_ms, end_ms, ptb, bn, cb, asks, shares, m);
            let l = ledger_of(open_ms, end_ms, ptb, bn, cb, asks, shares, m);
            let q = asks.last();
            let up = ledger_gross(l, Some(PositionSide::Up));
            let down = ledger_gross(l, Some(PositionSide::Down));
            let up_won = (q.1 >= 550_000_000 && q.2 <= 450_000_000) || (!(q.2 >= 550_000_000 && q.1
                <= 450_000_000) && bn.len() > 0 && ptb is Some && bn.last().1 > ptb->0);
            let down_won = !(q.1 >= 550_000_000 && q.2 <= 450_000_000) && ((q.2 >= 550_000_000
                && q.1 <= 450_000_000) || (bn.len() > 0 && ptb is Some && bn.last().1 <= ptb->0));
            let nothing = PairingWindowResult { total_pnl: 0, gross: 0, fees: 0, legs: 0 };
            &&& asks.len() == 0 ==> r == nothing
            &&& asks.len() > 0 && l.legs <= 0 ==> r == nothing
            &&& asks.len() > 0 && l.legs > 0 && up_won ==> r.gross == up as i128 && r.total_pnl == (
            up - l.fees) as i128 && r.fees == l.fees as i128 && r.legs == l.legs as u32
            &&& asks.len() > 0 && l.legs > 0 && down_won ==> r.gross == down as i128 && r.total_pnl
                == (down - l.fees) as i128 && r.fees == l.fees as i128 && r.legs == l.legs as u32
        }),
{
}

} // verus!
