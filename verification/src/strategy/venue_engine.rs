//! A live venue-swing window.
use vstd::prelude::*;
use crate::fifo::can_match;
use crate::units::{ask_ok, magnitude, price_ok, shares_ok, time_ok, MAX_MS};
use super::gap_swing::{keep_asks, kept_asks, kept_for, LEAD_MS, MAX_LIVE_FILLS, SHARES};
use super::intent_laws::{a_venue_play_adds_fills_of_the_size, fills_added};
use super::intents::{
    all_different, anchor_of, asking_hands_out, commits_bought, commits_sold, emitted_through,
    fills_are_open_on_one_side, handing_out_adds_up, hands_out, no_intents, nothing_is_handed_out,
    open_in, open_on, orders_are_asked_for_once, recover_anchor, what_is_handed_out_differs,
    IntentBook, Intents,
};
use super::sides::PositionSide;
use super::sim::{Terms, MAX_COMMITS, MAX_WINDOW_MS};
use super::swings::{delta_ok, delta_tape_ok};
use super::tape::{ask_tape_ok, price_tape_ok};
use super::trades::{actions_ok, BotAction, TradeKind};
use super::venue_swing::{
    cleaned, interleave, interleaved, open_print, run_venue_swing_window_with_commits,
    the_open_print_is_known, the_open_print_is_the_latest, venue_deltas, venue_open, venue_outcome,
    venue_tape, VENUE_TAKER_DELAY_MS,
};
use super::window::{commit_book, commits_ok, CommittedLot, WindowResult};

verus! {

/// State of a live window.
pub struct VenueState {
    pub open_ms: i64,
    pub end_ms: i64,
    pub ptb: Option<i64>,
    pub binance: Seq<(i64, i64)>,
    pub coinbase: Seq<(i64, i64)>,
    pub asks: Seq<(i64, i64, i64)>,
    pub intents: Intents,
    pub shares: i64,
    pub delay_ms: i64,
    pub last_pnl: int,
    pub last_pairs: int,
}

/// Whether a live window is valid.
pub open spec fn venue_ok(g: VenueState) -> bool {
    &&& time_ok(g.open_ms as int)
    &&& time_ok(g.end_ms as int)
    &&& g.end_ms - g.open_ms <= MAX_WINDOW_MS
    &&& g.ptb matches Some(strike) ==> price_ok(strike as int)
    &&& price_tape_ok(g.binance)
    &&& price_tape_ok(g.coinbase)
    &&& ask_tape_ok(g.asks)
    &&& commits_ok(g.intents.commits)
    &&& actions_ok(g.intents.pending)
    &&& shares_ok(g.shares as int)
    &&& 0 <= g.delay_ms <= MAX_MS
}

/// A live window in which nothing has happened.
pub open spec fn fresh_venue(open_ms: i64, end_ms: i64, ptb: Option<i64>) -> VenueState {
    VenueState {
        open_ms,
        end_ms,
        ptb,
        binance: Seq::empty(),
        coinbase: Seq::empty(),
        asks: Seq::empty(),
        intents: no_intents(),
        shares: SHARES,
        delay_ms: VENUE_TAKER_DELAY_MS,
        last_pnl: 0,
        last_pairs: 0,
    }
}

/// The first `n` prints that are kept for a window: those that belong to it, and
/// the one at `k`.
pub open spec fn kept_with(
    tape: Seq<(i64, i64)>,
    open_ms: i64,
    end_ms: i64,
    k: int,
    n: int,
) -> Seq<(i64, i64)>
    decreases n,
{
    if n <= 0 {
        Seq::empty()
    } else {
        let rest = kept_with(tape, open_ms, end_ms, k, n - 1);
        if n - 1 == k || kept_for(tape[n - 1].0, open_ms, end_ms) {
            rest.push(tape[n - 1])
        } else {
            rest
        }
    }
}

/// A venue's prints that are kept for a window: those that belong to it, and the
/// one that the venue opens it at, however old that is.
pub open spec fn kept_prints(tape: Seq<(i64, i64)>, open_ms: i64, end_ms: i64) -> Seq<(i64, i64)> {
    let n = tape.len() as int;
    kept_with(tape, open_ms, end_ms, open_print(tape, open_ms as int, n), n)
}

/// The next live window: the size and delay of orders stay, and so do the ticks
/// that belong to it.
pub open spec fn next_venue(g: VenueState, open_ms: i64, end_ms: i64, ptb: Option<i64>) -> VenueState {
    VenueState {
        shares: g.shares,
        delay_ms: g.delay_ms,
        binance: kept_prints(g.binance, open_ms, end_ms),
        coinbase: kept_prints(g.coinbase, open_ms, end_ms),
        asks: kept_asks(g.asks, open_ms, end_ms),
        ..fresh_venue(open_ms, end_ms, ptb)
    }
}

/// The terms of a live window that has been seen up to `end_ms`.
pub open spec fn live_terms(g: VenueState, end_ms: i64) -> Terms {
    Terms {
        open_ms: g.open_ms,
        end_ms,
        market_end: g.end_ms,
        shares: g.shares,
        delay_ms: g.delay_ms,
    }
}

/// How far a live window has been seen at `now_ms`.
pub open spec fn seen_until(g: VenueState, now_ms: int) -> i64 {
    if g.end_ms <= now_ms + 1 {
        g.end_ms
    } else {
        (now_ms + 1) as i64
    }
}

/// The deltas of both venues over a live window.
pub open spec fn live_deltas(g: VenueState) -> Seq<(i64, i64)> {
    interleaved(
        venue_deltas(g.binance, g.open_ms, g.end_ms),
        venue_deltas(g.coinbase, g.open_ms, g.end_ms),
        0,
        0,
    )
}

/// The live window after it has been played up to `now_ms`.
pub open spec fn refreshed(g: VenueState, now_ms: int) -> VenueState {
    let out = venue_outcome(
        live_terms(g, seen_until(g, now_ms)),
        g.binance,
        g.coinbase,
        g.asks,
        None,
        g.intents.commits,
    );
    VenueState {
        intents: emitted_through(
            g.intents,
            live_deltas(g),
            g.open_ms as int,
            g.delay_ms as int,
            now_ms,
            out.trades,
            out.trades.len() as int,
        ),
        last_pnl: out.total_pnl,
        last_pairs: out.pairs,
        ..g
    }
}

/// The live window with its orders handed out.
pub open spec fn handed_out(g: VenueState) -> VenueState {
    VenueState { intents: Intents { pending: Seq::empty(), ..g.intents }, ..g }
}

/// Whether a print is news on a tape: above nothing and not a repetition.
pub open spec fn is_news(tape: Seq<(i64, i64)>, t: i64, price: i64) -> bool {
    price > 0 && !(tape.len() > 0 && tape.last() == (t, price))
}

/// The live window after a quote.  A quote needs both asks, and only the first
/// of a millisecond counts.
pub open spec fn quoted(g: VenueState, t: i64, up: i64, down: i64) -> VenueState {
    if up > 0 && down > 0 && !(g.asks.len() > 0 && g.asks.last().0 == t) {
        VenueState { asks: g.asks.push((t, up, down)), ..g }
    } else {
        g
    }
}

/// The live window after a price of Binance, and the orders that come up.
pub open spec fn priced_on_binance(g: VenueState, t: i64, price: i64) -> (
    VenueState,
    Seq<BotAction>,
) {
    if is_news(g.binance, t, price) {
        let after = refreshed(VenueState { binance: g.binance.push((t, price)), ..g }, t as int);
        (handed_out(after), after.intents.pending)
    } else {
        (g, Seq::empty())
    }
}

/// The live window after a price of Coinbase, and the orders that come up.
pub open spec fn priced_on_coinbase(g: VenueState, t: i64, price: i64) -> (
    VenueState,
    Seq<BotAction>,
) {
    if is_news(g.coinbase, t, price) {
        let after = refreshed(VenueState { coinbase: g.coinbase.push((t, price)), ..g }, t as int);
        (handed_out(after), after.intents.pending)
    } else {
        (g, Seq::empty())
    }
}

/// The live window after a tick of the clock, and the orders that come up.
pub open spec fn ticked(g: VenueState, now_ms: i64, up: i64, down: i64) -> (
    VenueState,
    Seq<BotAction>,
) {
    let after = refreshed(quoted(g, now_ms, up, down), now_ms as int);
    (handed_out(after), after.intents.pending)
}

/// A live window: it buffers both venues' prints, is played again on each of
/// them, and hands out the orders that come up.  The strike is kept for the
/// outcome alone.
pub struct VenueSwingEngine {
    open_ms: i64,
    end_ms: i64,
    ptb: Option<i64>,
    binance: Vec<(i64, i64)>,
    coinbase: Vec<(i64, i64)>,
    asks: Vec<(i64, i64, i64)>,
    intents: IntentBook,
    shares: i64,
    taker_delay_ms: i64,
    last_pnl: i128,
    last_pairs: u64,
}

impl View for VenueSwingEngine {
    type V = VenueState;

    closed spec fn view(&self) -> VenueState {
        VenueState {
            open_ms: self.open_ms,
            end_ms: self.end_ms,
            ptb: self.ptb,
            binance: self.binance@,
            coinbase: self.coinbase@,
            asks: self.asks@,
            intents: self.intents@,
            shares: self.shares,
            delay_ms: self.taker_delay_ms,
            last_pnl: self.last_pnl as int,
            last_pairs: self.last_pairs as int,
        }
    }
}

/// Keeps the prints that belong to a window, and the one that the venue opens it
/// at.
pub fn keep_prints(tape: &Vec<(i64, i64)>, open_ms: i64, end_ms: i64) -> (r: Vec<(i64, i64)>)
    requires
        price_tape_ok(tape@),
        time_ok(open_ms as int),
    ensures
        r@ == kept_prints(tape@, open_ms, end_ms),
        price_tape_ok(r@),
{
    let ghost k = open_print(tape@, open_ms as int, tape.len() as int);
    let mut found: bool = false;
    let mut at: usize = 0;
    let mut n: usize = 0;
    while n < tape.len()
        invariant
            n <= tape.len(),
            open_print(tape@, open_ms as int, n as int) == (if found {
                at as int
            } else {
                -1
            }),
            found ==> at < n,
        decreases tape.len() - n,
    {
        let p: (i64, i64) = tape[n];
        if p.1 > 0 && p.0 <= open_ms && (!found || p.0 >= tape[at].0) {
            found = true;
            at = n;
        }
        n = n + 1;
    }
    let mut r: Vec<(i64, i64)> = Vec::new();
    let mut i: usize = 0;
    while i < tape.len()
        invariant
            i <= tape.len(),
            time_ok(open_ms as int),
            k == (if found {
                at as int
            } else {
                -1
            }),
            price_tape_ok(tape@),
            price_tape_ok(r@),
            r@ == kept_with(tape@, open_ms, end_ms, k, i as int),
        decreases tape.len() - i,
    {
        let p: (i64, i64) = tape[i];
        proof {
            assert(price_ok(tape@[i as int].1 as int));
        }
        if (found && i == at) || (p.0 >= open_ms - LEAD_MS && p.0 < end_ms) {
            r.push(p);
        }
        i = i + 1;
    }
    r
}

impl VenueSwingEngine {
    /// A window in which nothing has happened.
    pub fn new(open_ms: i64, end_ms: i64, ptb: Option<i64>) -> (r: VenueSwingEngine)
        requires
            time_ok(open_ms as int),
            time_ok(end_ms as int),
            end_ms - open_ms <= MAX_WINDOW_MS,
            ptb matches Some(strike) ==> price_ok(strike as int),
        ensures
            r@ == fresh_venue(open_ms, end_ms, ptb),
            venue_ok(r@),
    {
        let r: VenueSwingEngine = VenueSwingEngine {
            open_ms,
            end_ms,
            ptb,
            binance: Vec::new(),
            coinbase: Vec::new(),
            asks: Vec::new(),
            intents: IntentBook::new(),
            shares: SHARES,
            taker_delay_ms: VENUE_TAKER_DELAY_MS,
            last_pnl: 0,
            last_pairs: 0,
        };
        proof {
            assert(r@.binance =~= Seq::<(i64, i64)>::empty());
            assert(r@.coinbase =~= Seq::<(i64, i64)>::empty());
            assert(r@.asks =~= Seq::<(i64, i64, i64)>::empty());
        }
        r
    }

    /// Goes on to another window.
    pub fn reset_window(&mut self, open_ms: i64, end_ms: i64, ptb: Option<i64>)
        requires
            venue_ok(old(self)@),
            time_ok(open_ms as int),
            time_ok(end_ms as int),
            end_ms - open_ms <= MAX_WINDOW_MS,
            ptb matches Some(strike) ==> price_ok(strike as int),
        ensures
            final(self)@ == next_venue(old(self)@, open_ms, end_ms, ptb),
            venue_ok(final(self)@),
    {
        let binance: Vec<(i64, i64)> = keep_prints(&self.binance, open_ms, end_ms);
        let coinbase: Vec<(i64, i64)> = keep_prints(&self.coinbase, open_ms, end_ms);
        let asks: Vec<(i64, i64, i64)> = keep_asks(&self.asks, open_ms, end_ms);
        self.open_ms = open_ms;
        self.end_ms = end_ms;
        self.ptb = ptb;
        self.binance = binance;
        self.coinbase = coinbase;
        self.asks = asks;
        self.intents = IntentBook::new();
        self.last_pnl = 0;
        self.last_pairs = 0;
    }

    /// Sets the size of an order.
    pub fn set_shares(&mut self, shares: i64)
        requires
            venue_ok(old(self)@),
            shares_ok(shares as int),
        ensures
            final(self)@ == (VenueState { shares, ..old(self)@ }),
            venue_ok(final(self)@),
    {
        self.shares = shares;
    }

    /// Sets the delay from signal to fill; live trading has none.
    pub fn set_taker_delay_ms(&mut self, delay_ms: i64)
        requires
            venue_ok(old(self)@),
            delay_ms <= MAX_MS,
        ensures
            final(self)@ == (VenueState {
                delay_ms: if delay_ms >= 0 {
                    delay_ms
                } else {
                    0
                },
                ..old(self)@
            }),
            venue_ok(final(self)@),
    {
        self.taker_delay_ms = if delay_ms >= 0 {
            delay_ms
        } else {
            0
        };
    }

    /// Sets the strike, and says whether it was taken: the first one above
    /// nothing is, and no other after it.
    pub fn set_strike(&mut self, ptb: i64) -> (r: bool)
        requires
            venue_ok(old(self)@),
            price_ok(ptb as int),
        ensures
            r == (old(self)@.ptb is None && ptb > 0),
            final(self)@ == struck(old(self)@, ptb),
            venue_ok(final(self)@),
    {
        if self.ptb.is_some() {
            return false;
        }
        if ptb > 0 {
            self.ptb = Some(ptb);
            return true;
        }
        false
    }

    /// The strike.
    pub fn strike(&self) -> (r: Option<i64>)
        ensures
            r == self@.ptb,
    {
        self.ptb
    }

    /// What the window came to when it was last played.
    pub fn last_sim_pnl(&self) -> (r: i128)
        ensures
            r == self@.last_pnl,
    {
        self.last_pnl
    }

    /// The pairs that the window came to when it was last played.
    pub fn last_pairs(&self) -> (r: u64)
        ensures
            r == self@.last_pairs,
    {
        self.last_pairs
    }

    /// Whether nothing is unpaired.
    pub fn is_flat(&self) -> (r: bool)
        requires
            venue_ok(self@),
        ensures
            r == (open_in(self@.intents.commits) == 0),
    {
        self.unpaired_shares() <= 0
    }

    /// Unpaired shares.
    pub fn unpaired_shares(&self) -> (r: i128)
        requires
            venue_ok(self@),
        ensures
            r == open_in(self@.intents.commits),
            r >= 0,
    {
        self.intents.unpaired_shares()
    }

    /// Unpaired shares of a side.
    pub fn unpaired_on(&self, side: PositionSide) -> (r: i128)
        requires
            venue_ok(self@),
        ensures
            r == open_on(self@.intents.commits, side),
            r >= 0,
    {
        self.intents.unpaired_on(side)
    }

    /// Number of fills.
    pub fn fill_count(&self) -> (r: usize)
        ensures
            r == self@.intents.commits.len(),
    {
        self.intents.commits().len()
    }

    /// Whether there are any fills.
    pub fn has_fills(&self) -> (r: bool)
        ensures
            r == (self@.intents.commits.len() > 0),
    {
        self.intents.commits().len() > 0
    }

    /// The deltas of both venues.
    fn deltas(&self) -> (r: Vec<(i64, i64)>)
        requires
            venue_ok(self@),
        ensures
            r@ == live_deltas(self@),
            delta_tape_ok(r@),
    {
        let bn: Vec<(i64, i64)> = venue_tape(&self.binance, self.open_ms, self.end_ms);
        let cb: Vec<(i64, i64)> = venue_tape(&self.coinbase, self.open_ms, self.end_ms);
        interleave(&bn, &cb)
    }

    /// Records the fill of a buy.
    pub fn commit_buy(
        &mut self,
        side: PositionSide,
        shares: i64,
        fill: i64,
        fill_t: i64,
        is_pair: bool,
        anchor_d: i64,
    )
        requires
            venue_ok(old(self)@),
            old(self)@.intents.commits.len() < MAX_COMMITS,
            shares_ok(shares as int),
            ask_ok(fill as int),
            delta_ok(anchor_d as int),
            magnitude(fill_t as int) <= 2 * MAX_MS,
        ensures
            final(self)@ == (VenueState {
                intents: Intents {
                    commits: commits_bought(
                        old(self)@.intents.commits,
                        side,
                        shares,
                        fill,
                        fill_t,
                        is_pair,
                        anchor_of(
                            live_deltas(old(self)@),
                            old(self)@.open_ms as int,
                            old(self)@.delay_ms as int,
                            fill_t as int,
                            anchor_d,
                        ),
                    ),
                    ..old(self)@.intents
                },
                ..old(self)@
            }),
            venue_ok(final(self)@),
    {
        let tape: Vec<(i64, i64)> = self.deltas();
        let anchor: i64 = recover_anchor(
            &tape,
            self.open_ms,
            self.taker_delay_ms,
            fill_t,
            anchor_d,
        );
        self.intents.commit_buy(side, shares, fill, fill_t, is_pair, anchor);
    }

    /// Records the sale of a side.
    pub fn commit_sell(&mut self, side: PositionSide)
        requires
            venue_ok(old(self)@),
        ensures
            final(self)@ == (VenueState {
                intents: Intents {
                    commits: commits_sold(old(self)@.intents.commits, side),
                    ..old(self)@.intents
                },
                ..old(self)@
            }),
            venue_ok(final(self)@),
    {
        self.intents.commit_sell(side);
    }

    /// Plays the window up to `now_ms` and asks for the orders that are due.
    fn refresh(&mut self, now_ms: i64)
        requires
            venue_ok(old(self)@),
            time_ok(now_ms as int),
            old(self)@.intents.commits.len() <= MAX_LIVE_FILLS,
        ensures
            final(self)@ == refreshed(old(self)@, now_ms as int),
            venue_ok(final(self)@),
    {
        let end: i64 = if self.end_ms <= now_ms + 1 {
            self.end_ms
        } else {
            now_ms + 1
        };
        let res: WindowResult = run_venue_swing_window_with_commits(
            self.open_ms,
            end,
            &self.binance,
            &self.coinbase,
            &self.asks,
            None,
            self.shares,
            Some(self.end_ms),
            self.taker_delay_ms,
            self.intents.commits(),
        );
        self.last_pnl = res.total_pnl;
        self.last_pairs = res.pairs;
        let tape: Vec<(i64, i64)> = self.deltas();
        self.intents.emit(&tape, self.open_ms, self.taker_delay_ms, now_ms, &res.trades);
    }

    /// Takes a Binance print, and hands out the orders that come up.
    pub fn on_binance(&mut self, t: i64, price: i64) -> (r: Vec<BotAction>)
        requires
            venue_ok(old(self)@),
            time_ok(t as int),
            price_ok(price as int),
            old(self)@.intents.commits.len() <= MAX_LIVE_FILLS,
        ensures
            (final(self)@, r@) == priced_on_binance(old(self)@, t, price),
            venue_ok(final(self)@),
            actions_ok(r@),
            old(self)@.intents.pending.len() == 0 ==> hands_out(
                old(self)@.intents,
                r@,
                final(self)@.intents,
                old(self)@.delay_ms as int,
            ),
            fills_added(
                old(self)@.intents.commits,
                final(self)@.intents.commits,
                old(self)@.shares,
            ),
    {
        proof {
            a_venue_play_adds_fills_of_the_size(
                VenueState { binance: self@.binance.push((t, price)), ..self@ },
                t as int,
            );
            if self@.intents.pending.len() == 0 {
                a_call_hands_out(self@, VenueCall::Binance { t, price });
            }
        }
        if price <= 0 {
            return Vec::new();
        }
        let n: usize = self.binance.len();
        if n > 0 && self.binance[n - 1].0 == t && self.binance[n - 1].1 == price {
            return Vec::new();
        }
        self.binance.push((t, price));
        self.refresh(t);
        self.take_pending()
    }

    /// Takes a Coinbase print, and hands out the orders that come up.
    pub fn on_coinbase(&mut self, t: i64, price: i64) -> (r: Vec<BotAction>)
        requires
            venue_ok(old(self)@),
            time_ok(t as int),
            price_ok(price as int),
            old(self)@.intents.commits.len() <= MAX_LIVE_FILLS,
        ensures
            (final(self)@, r@) == priced_on_coinbase(old(self)@, t, price),
            venue_ok(final(self)@),
            actions_ok(r@),
            old(self)@.intents.pending.len() == 0 ==> hands_out(
                old(self)@.intents,
                r@,
                final(self)@.intents,
                old(self)@.delay_ms as int,
            ),
            fills_added(
                old(self)@.intents.commits,
                final(self)@.intents.commits,
                old(self)@.shares,
            ),
    {
        proof {
            a_venue_play_adds_fills_of_the_size(
                VenueState { coinbase: self@.coinbase.push((t, price)), ..self@ },
                t as int,
            );
            if self@.intents.pending.len() == 0 {
                a_call_hands_out(self@, VenueCall::Coinbase { t, price });
            }
        }
        if price <= 0 {
            return Vec::new();
        }
        let n: usize = self.coinbase.len();
        if n > 0 && self.coinbase[n - 1].0 == t && self.coinbase[n - 1].1 == price {
            return Vec::new();
        }
        self.coinbase.push((t, price));
        self.refresh(t);
        self.take_pending()
    }

    /// Takes a quote.
    pub fn on_asks(&mut self, t: i64, up: i64, down: i64)
        requires
            venue_ok(old(self)@),
            time_ok(t as int),
            ask_ok(up as int),
            ask_ok(down as int),
        ensures
            final(self)@ == quoted(old(self)@, t, up, down),
            venue_ok(final(self)@),
    {
        if up > 0 && down > 0 {
            let n: usize = self.asks.len();
            if n > 0 && self.asks[n - 1].0 == t {
                return;
            }
            self.asks.push((t, up, down));
        }
    }

    /// Takes a quote, and hands out the orders that come up.
    pub fn tick(&mut self, now_ms: i64, up_ask: i64, down_ask: i64) -> (r: Vec<BotAction>)
        requires
            venue_ok(old(self)@),
            time_ok(now_ms as int),
            ask_ok(up_ask as int),
            ask_ok(down_ask as int),
            old(self)@.intents.commits.len() <= MAX_LIVE_FILLS,
        ensures
            (final(self)@, r@) == ticked(old(self)@, now_ms, up_ask, down_ask),
            venue_ok(final(self)@),
            actions_ok(r@),
            old(self)@.intents.pending.len() == 0 ==> hands_out(
                old(self)@.intents,
                r@,
                final(self)@.intents,
                old(self)@.delay_ms as int,
            ),
            fills_added(
                old(self)@.intents.commits,
                final(self)@.intents.commits,
                old(self)@.shares,
            ),
    {
        proof {
            a_venue_play_adds_fills_of_the_size(
                quoted(self@, now_ms, up_ask, down_ask),
                now_ms as int,
            );
            if self@.intents.pending.len() == 0 {
                a_call_hands_out(self@, VenueCall::Tick { now_ms, up: up_ask, down: down_ask });
            }
        }
        self.on_asks(now_ms, up_ask, down_ask);
        self.refresh(now_ms);
        self.take_pending()
    }

    /// Plays the window to its close with the outcome that is known.
    pub fn finalize(&mut self, winner: Option<PositionSide>) -> (r: WindowResult)
        requires
            venue_ok(old(self)@),
        ensures
            r@ == venue_outcome(
                live_terms(old(self)@, old(self)@.end_ms),
                old(self)@.binance,
                old(self)@.coinbase,
                old(self)@.asks,
                winner,
                old(self)@.intents.commits,
            ),
            final(self)@ == (VenueState {
                last_pnl: r@.total_pnl,
                last_pairs: r@.pairs,
                ..old(self)@
            }),
            venue_ok(final(self)@),
            magnitude(r.total_pnl as int) <= 20_000_000_000_000_000_000_000_000_000_000_000_000,
            forall|i: int|
                0 <= i < r.trades.len() && (#[trigger] r.trades[i]).kind == TradeKind::Buy
                    ==> r.trades[i].shares == old(self)@.shares && r.trades[i].net == 0,
    {
        let res: WindowResult = run_venue_swing_window_with_commits(
            self.open_ms,
            self.end_ms,
            &self.binance,
            &self.coinbase,
            &self.asks,
            winner,
            self.shares,
            Some(self.end_ms),
            self.taker_delay_ms,
            self.intents.commits(),
        );
        self.last_pnl = res.total_pnl;
        self.last_pairs = res.pairs;
        res
    }

    /// Hands out the orders that were asked for.
    pub fn take_pending(&mut self) -> (r: Vec<BotAction>)
        requires
            venue_ok(old(self)@),
        ensures
            r@ == old(self)@.intents.pending,
            final(self)@ == handed_out(old(self)@),
            venue_ok(final(self)@),
            actions_ok(r@),
    {
        self.intents.take_pending()
    }
}

/// The live window after a strike has come in.
pub open spec fn struck(g: VenueState, ptb: i64) -> VenueState {
    if g.ptb is None && ptb > 0 {
        VenueState { ptb: Some(ptb), ..g }
    } else {
        g
    }
}

/// The first strike wins: once one is taken, no other changes anything.
pub proof fn first_venue_strike_wins(g: VenueState, first: i64, later: i64)
    ensures
        first > 0 ==> struck(struck(g, first), later) == struck(g, first),
        g.ptb is Some ==> struck(g, later) == g,
{
}

proof fn keeping_keeps_the_open_print(
    tape: Seq<(i64, i64)>,
    open_ms: i64,
    end_ms: i64,
    n: int,
)
    requires
        0 <= n <= tape.len(),
    ensures
        ({
            let k = open_print(tape, open_ms as int, tape.len() as int);
            let kept = kept_with(tape, open_ms, end_ms, k, n);
            let best = open_print(kept, open_ms as int, kept.len() as int);
            if 0 <= k < n {
                best >= 0 && kept[best] == tape[k]
            } else {
                best >= 0 ==> k >= 0 && kept[best].0 <= tape[k].0
            }
        }),
    decreases n,
{
    let k = open_print(tape, open_ms as int, tape.len() as int);
    the_open_print_is_the_latest(tape, open_ms as int, tape.len() as int);
    if n > 0 {
        keeping_keeps_the_open_print(tape, open_ms, end_ms, n - 1);
        let rest = kept_with(tape, open_ms, end_ms, k, n - 1);
        let kept = kept_with(tape, open_ms, end_ms, k, n);
        let p = tape[n - 1];
        the_open_print_is_the_latest(rest, open_ms as int, rest.len() as int);
        if kept != rest {
            assert(kept == rest.push(p));
            pushing_a_print(rest, p, open_ms as int, rest.len() as int);
        }
    }
}

proof fn pushing_a_print(rest: Seq<(i64, i64)>, p: (i64, i64), open_ms: int, n: int)
    requires
        0 <= n <= rest.len(),
    ensures
        open_print(rest.push(p), open_ms, n) == open_print(rest, open_ms, n),
    decreases n,
{
    if n > 0 {
        pushing_a_print(rest, p, open_ms, n - 1);
        the_open_print_is_the_latest(rest, open_ms, n - 1);
    }
}

/// However long a venue has been silent, the next window opens at its last print
/// at or before the open.
pub proof fn a_silent_venue_keeps_its_open(tape: Seq<(i64, i64)>, open_ms: i64, end_ms: i64)
    requires
        open_print(tape, open_ms as int, tape.len() as int) >= 0,
    ensures
        ({
            let kept = kept_prints(tape, open_ms, end_ms);
            let clean = cleaned(tape, tape.len() as int);
            let clean_kept = cleaned(kept, kept.len() as int);
            let at = tape[open_print(tape, open_ms as int, tape.len() as int)].1;
            &&& venue_open(clean, open_ms as int) == at
            &&& venue_open(clean_kept, open_ms as int) == at
        }),
{
    let n = tape.len() as int;
    let kept = kept_prints(tape, open_ms, end_ms);
    the_open_print_is_the_latest(tape, open_ms as int, n);
    the_open_print_is_known(tape, open_ms as int, n);
    keeping_keeps_the_open_print(tape, open_ms, end_ms, n);
    the_open_print_is_known(kept, open_ms as int, kept.len() as int);
}

/// The opening price is no signal: what a window asks for, and what it comes to,
/// is the same whatever is known of it.
pub proof fn the_strike_is_no_signal(g: VenueState, ptb: Option<i64>, now_ms: int)
    ensures
        refreshed(VenueState { ptb, ..g }, now_ms) == (VenueState { ptb, ..refreshed(g, now_ms) }),
{
}

/// Whether a live window has asked for nothing twice and is open on one side at
/// most.
pub open spec fn venue_orderly(g: VenueState) -> bool {
    &&& g.intents.emitted.no_duplicates()
    &&& !can_match(commit_book(g.intents.commits))
}

/// However often a live window is played, it asks for nothing twice and is
/// open on one side at most; so is a window in which nothing has happened, and
/// the next window.
pub proof fn live_venue_window_stays_orderly(
    g: VenueState,
    now_ms: int,
    open_ms: i64,
    end_ms: i64,
    ptb: Option<i64>,
)
    ensures
        venue_orderly(g) ==> venue_orderly(refreshed(g, now_ms)),
        venue_orderly(g) ==> venue_orderly(handed_out(g)),
        venue_orderly(fresh_venue(open_ms, end_ms, ptb)),
        venue_orderly(next_venue(g, open_ms, end_ms, ptb)),
{
    let out = venue_outcome(
        live_terms(g, seen_until(g, now_ms)),
        g.binance,
        g.coinbase,
        g.asks,
        None,
        g.intents.commits,
    );
    let tape = live_deltas(g);
    if venue_orderly(g) {
        orders_are_asked_for_once(
            g.intents,
            tape,
            g.open_ms as int,
            g.delay_ms as int,
            now_ms,
            out.trades,
            out.trades.len() as int,
        );
        fills_are_open_on_one_side(
            g.intents,
            tape,
            g.open_ms as int,
            g.delay_ms as int,
            now_ms,
            out.trades,
            out.trades.len() as int,
        );
    }
}

/// What can happen to a live window.
pub enum VenueCall {
    Asks { t: i64, up: i64, down: i64 },
    Binance { t: i64, price: i64 },
    Coinbase { t: i64, price: i64 },
    Tick { now_ms: i64, up: i64, down: i64 },
    Strike { ptb: i64 },
    Shares { shares: i64 },
    Fills { commits: Seq<CommittedLot> },
}

/// The live window after something has happened, and the orders that come up.
pub open spec fn called(g: VenueState, c: VenueCall) -> (VenueState, Seq<BotAction>) {
    match c {
        VenueCall::Asks { t, up, down } => (quoted(g, t, up, down), Seq::empty()),
        VenueCall::Binance { t, price } => priced_on_binance(g, t, price),
        VenueCall::Coinbase { t, price } => priced_on_coinbase(g, t, price),
        VenueCall::Tick { now_ms, up, down } => ticked(g, now_ms, up, down),
        VenueCall::Strike { ptb } => (struck(g, ptb), Seq::empty()),
        VenueCall::Shares { shares } => (VenueState { shares, ..g }, Seq::empty()),
        VenueCall::Fills { commits } => (
            VenueState { intents: Intents { commits, ..g.intents }, ..g },
            Seq::empty(),
        ),
    }
}

/// The live window after all of `calls`, and every order that came up.
pub open spec fn venue_run(g: VenueState, calls: Seq<VenueCall>) -> (VenueState, Seq<BotAction>)
    decreases calls.len(),
{
    if calls.len() == 0 {
        (g, Seq::empty())
    } else {
        let (before, orders) = venue_run(g, calls.drop_last());
        let (after, more) = called(before, calls.last());
        (after, orders + more)
    }
}

/// Playing a window hands out the orders that come up.
proof fn playing_hands_out(g: VenueState, now_ms: int)
    requires
        g.intents.pending.len() == 0,
    ensures
        ({
            let after = refreshed(g, now_ms);
            hands_out(
                g.intents,
                after.intents.pending,
                handed_out(after).intents,
                g.delay_ms as int,
            )
        }),
{
    let out = venue_outcome(
        live_terms(g, seen_until(g, now_ms)),
        g.binance,
        g.coinbase,
        g.asks,
        None,
        g.intents.commits,
    );
    asking_hands_out(
        g.intents,
        live_deltas(g),
        g.open_ms as int,
        g.delay_ms,
        now_ms,
        out.trades,
    );
}

/// Whatever happens hands out the orders that come up.
pub proof fn a_call_hands_out(g: VenueState, c: VenueCall)
    requires
        g.intents.pending.len() == 0,
    ensures
        hands_out(g.intents, called(g, c).1, called(g, c).0.intents, g.delay_ms as int),
        called(g, c).0.delay_ms == g.delay_ms,
{
    nothing_is_handed_out(g.intents, g.intents, g.delay_ms as int);
    match c {
        VenueCall::Binance { t, price } => {
            let g1 = VenueState { binance: g.binance.push((t, price)), ..g };
            playing_hands_out(g1, t as int);
        },
        VenueCall::Coinbase { t, price } => {
            let g1 = VenueState { coinbase: g.coinbase.push((t, price)), ..g };
            playing_hands_out(g1, t as int);
        },
        VenueCall::Tick { now_ms, up, down } => {
            playing_hands_out(quoted(g, now_ms, up, down), now_ms as int);
        },
        _ => {
            nothing_is_handed_out(g.intents, called(g, c).0.intents, g.delay_ms as int);
        },
    }
}

/// A run hands out all the orders that came up.
pub proof fn a_run_hands_out(g: VenueState, calls: Seq<VenueCall>)
    requires
        g.intents.pending.len() == 0,
    ensures
        hands_out(
            g.intents,
            venue_run(g, calls).1,
            venue_run(g, calls).0.intents,
            g.delay_ms as int,
        ),
        venue_run(g, calls).0.delay_ms == g.delay_ms,
    decreases calls.len(),
{
    if calls.len() > 0 {
        a_run_hands_out(g, calls.drop_last());
        let (before, orders) = venue_run(g, calls.drop_last());
        a_call_hands_out(before, calls.last());
        let (after, more) = called(before, calls.last());
        handing_out_adds_up(
            g.intents,
            orders,
            before.intents,
            more,
            after.intents,
            g.delay_ms as int,
        );
    } else {
        nothing_is_handed_out(g.intents, g.intents, g.delay_ms as int);
    }
}

/// Over all that happens to a window, whatever its prices, quotes, ticks, strike
/// and fills, no order is handed out twice: no two agree in kind, side, reason
/// and time of their signal.
pub proof fn a_venue_window_orders_nothing_twice(g: VenueState, calls: Seq<VenueCall>)
    requires
        g.intents.pending.len() == 0,
        g.intents.emitted.no_duplicates(),
    ensures
        all_different(venue_run(g, calls).1),
{
    a_run_hands_out(g, calls);
    let (after, orders) = venue_run(g, calls);
    what_is_handed_out_differs(g.intents, orders, after.intents, g.delay_ms as int);
}

} // verus!
