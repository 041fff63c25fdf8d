//! What holds of the trading loop whatever happens.
use vstd::prelude::*;
use super::state::{
    averaged, booked, executed, executed_through, is_booked, locked, may_trade, site_struck,
    strike_of, window_winner, BotState, EngineState, Order,
};
use crate::dry_fills::PendingDryFill;
use crate::strategy::trades::BotAction;

verus! {

/// No order is placed before its window opens, nor without a market.
pub proof fn no_order_before_the_open(b: BotState, a: BotAction, now: int)
    requires
        b.market matches Some(m) ==> now < m.start_ts * 1_000,
    ensures
        executed(b, a, now) == (b, Order::Dropped),
{
}

/// Gap swing places no order before it knows the opening price.
pub proof fn gap_swing_waits_for_its_strike(b: BotState, a: BotAction, now: int)
    requires
        b.engine is Gap,
        strike_of(b.engine) is None,
    ensures
        executed(b, a, now) == (b, Order::Dropped),
{
}

/// Venue swing trades from the moment the window opens, whatever is known of
/// the opening price.
pub proof fn venue_swing_needs_no_strike(b: BotState, a: BotAction, now: int)
    requires
        b.engine is Venue,
        b.market matches Some(m) && now >= m.start_ts * 1_000,
    ensures
        executed(b, a, now).1 != Order::Dropped,
{
}

/// Orders change nothing but the fills that wait.
pub proof fn orders_move_only_what_waits(b: BotState, actions: Seq<BotAction>, now: int, n: int)
    requires
        0 <= n,
    ensures
        ({
            let (after, orders) = executed_through(b, actions, now, n);
            &&& orders.len() == n
            &&& after == (BotState { pending: after.pending, ..b })
        }),
    decreases n,
{
    if n > 0 {
        orders_move_only_what_waits(b, actions, now, n - 1);
    }
}

/// A dry run places no order, and live trading lets none wait.
pub proof fn a_dry_run_places_no_order(b: BotState, actions: Seq<BotAction>, now: int, n: int)
    requires
        0 <= n,
    ensures
        ({
            let (after, orders) = executed_through(b, actions, now, n);
            &&& !b.live ==> forall|i: int|
                0 <= i < orders.len() ==> #[trigger] orders[i] == Order::Dropped || orders[i]
                    == Order::Queued
            &&& b.live ==> after.pending == b.pending && forall|i: int|
                0 <= i < orders.len() ==> #[trigger] orders[i] != Order::Queued
        }),
    decreases n,
{
    if n > 0 {
        orders_move_only_what_waits(b, actions, now, n - 1);
        a_dry_run_places_no_order(b, actions, now, n - 1);
    }
}

/// Where orders are placed every one of them comes to something: it is bought,
/// sold, or waits for its fill.
pub proof fn no_order_is_lost(b: BotState, actions: Seq<BotAction>, now: int, n: int)
    requires
        may_trade(b, now),
        0 <= n,
    ensures
        ({
            let (after, orders) = executed_through(b, actions, now, n);
            &&& forall|i: int| 0 <= i < orders.len() ==> #[trigger] orders[i] != Order::Dropped
            &&& !b.live ==> after.pending.len() == b.pending.len() + n
        }),
    decreases n,
{
    if n > 0 {
        orders_move_only_what_waits(b, actions, now, n - 1);
        no_order_is_lost(b, actions, now, n - 1);
        let (before, _) = executed_through(b, actions, now, n - 1);
        assert(may_trade(before, now));
    }
}

/// An opening price above nothing is taken up where none is known.
pub proof fn an_opening_price_is_taken_up(b: BotState, start_ts: i64, ptb: i64, now: i64)
    requires
        !(b.engine is Pairing),
        strike_of(b.engine) is None,
        ptb > 0,
    ensures
        strike_of(locked(b, start_ts, ptb, now).0.engine) == Some(ptb),
        locked(b, start_ts, ptb, now).0.directory.strikes[start_ts] == ptb,
{
    match b.engine {
        EngineState::Gap(g) => {
            let (up, down) = super::state::asks_at_lock(b, start_ts);
            let (after, actions) = crate::strategy::gap_swing::ticked(
                crate::strategy::gap_swing::struck(g, ptb),
                now,
                up,
                down,
            );
            let noted = crate::subscriptions::Directory {
                strikes: b.directory.strikes.insert(start_ts, ptb),
                ..b.directory
            };
            orders_move_only_what_waits(
                BotState { engine: EngineState::Gap(after), directory: noted, ..b },
                actions,
                now as int,
                actions.len() as int,
            );
        },
        _ => {},
    }
}

/// The first opening price stays: what the oracle feed or the site give later
/// in a window changes neither it nor anything that follows from it.
pub proof fn the_first_opening_price_stays(
    b: BotState,
    t: i64,
    price: i64,
    start_ts: i64,
    px: i64,
    now: i64,
)
    requires
        !(b.engine is Pairing),
        strike_of(b.engine) is Some,
    ensures
        averaged(b, t, price, now) == (BotState { last_cl: Some((t, price)), ..b }, Seq::<Order>::empty()),
        site_struck(b, start_ts, px, now) == (b, Seq::<Order>::empty()),
{
}

/// An average from before the running window opened is not its opening price.
pub proof fn an_early_average_is_no_opening_price(b: BotState, t: i64, price: i64, now: i64)
    requires
        b.trading_start matches Some(start) ==> t < start * 1_000,
    ensures
        averaged(b, t, price, now).0.engine == b.engine,
        averaged(b, t, price, now).1 == Seq::<Order>::empty(),
{
}

/// Fills of the swing strategies are not booked one by one: their windows are
/// settled as a whole.
pub proof fn swings_are_settled_as_a_whole(b: BotState, p: PendingDryFill, force: bool)
    requires
        !(b.engine is Pairing),
    ensures
        !is_booked(b, p, force),
        booked(b, p, force) == b,
{
}

/// No price of a venue decides who wins a window.
pub proof fn venue_prices_settle_nothing(
    b: BotState,
    last_bn: Option<i64>,
    last_cb: Option<i64>,
    start_ts: i64,
)
    ensures
        window_winner(BotState { last_bn, last_cb, ..b }, start_ts) == window_winner(b, start_ts),
{
}

} // verus!
