//! Gap swing: bitcoin's distance from the strike, bought at its turns.
//!
//! The delta is the Binance price less the strike.  A peak is bought as DOWN, a
//! trough as UP; the opposite swing completes the pair where that earns.
use vstd::prelude::*;
use crate::fifo::can_match;
use crate::units::{ask_ok, magnitude, price_ok, shares_ok, time_ok, MAX_MS};
use super::intent_laws::{a_gap_play_adds_fills_of_the_size, fills_added};
use super::intents::{
    all_different, anchor_of, asking_hands_out, commits_bought, commits_sold, emitted_through,
    fills_are_open_on_one_side, handing_out_adds_up, hands_out, no_intents, nothing_is_handed_out,
    open_in, open_on, orders_are_asked_for_once, recover_anchor, what_is_handed_out_differs,
    IntentBook, Intents,
};
use super::sides::PositionSide;
use super::sim::{terms_ok, trade_ok, Terms, MAX_COMMITS, MAX_WINDOW_MS};
use super::sim_laws::count_of;
use super::swings::{
    delta_ok, delta_tape_ok, detect_major_swings, detected_swings_alternate, swings_of, Swing,
};
use super::tape::{ask_tape_ok, price_tape_ok};
use super::trades::{actions_ok, BotAction, TradeKind};
use super::window::{
    commit_book, commits_ok, no_outcome, outcome_of, play_window, CommittedLot, Outcome,
    WindowResult,
};

verus! {

/// Delay from signal to fill outside live trading.
pub const TAKER_DELAY_MS: i64 = 250;

/// Size of an order.
pub const SHARES: i64 = 10_000_000_000;

/// How long before a window its ticks are kept.
pub const LEAD_MS: i64 = 60_000;

/// Most fills that can be in place when a window is played live.
pub const MAX_LIVE_FILLS: usize = 700_000_000;

/// The deltas of prices from a strike.
pub open spec fn deltas(btc: Seq<(i64, i64)>, ptb: int) -> Seq<(i64, i64)> {
    btc.map_values(|p: (i64, i64)| (p.0, (p.1 - ptb) as i64))
}

/// The deltas of prices from a strike, none while there is no strike.
pub open spec fn deltas_from(btc: Seq<(i64, i64)>, ptb: Option<i64>) -> Seq<(i64, i64)> {
    match ptb {
        Some(strike) => deltas(btc, strike as int),
        None => Seq::empty(),
    }
}

/// What a window comes to.  Nothing happens without a strike, prices or quotes.
pub open spec fn gap_outcome(
    w: Terms,
    ptb: Option<i64>,
    btc: Seq<(i64, i64)>,
    asks: Seq<(i64, i64, i64)>,
    winner: Option<PositionSide>,
    commits: Seq<CommittedLot>,
) -> Outcome {
    if ptb is None || btc.len() == 0 || asks.len() == 0 {
        no_outcome()
    } else {
        let tape = deltas_from(btc, ptb);
        outcome_of(
            w,
            tape,
            asks,
            swings_of(tape, asks, w.open_ms as int, w.end_ms as int, w.market_end as int),
            winner,
            commits,
        )
    }
}

/// The deltas of prices from a strike.
pub fn delta_tape(btc: &[(i64, i64)], ptb: Option<i64>) -> (r: Vec<(i64, i64)>)
    requires
        price_tape_ok(btc@),
        ptb matches Some(strike) ==> price_ok(strike as int),
    ensures
        r@ == deltas_from(btc@, ptb),
        delta_tape_ok(r@),
{
    let mut r: Vec<(i64, i64)> = Vec::new();
    if let Some(strike) = ptb {
        let mut i: usize = 0;
        while i < btc.len()
            invariant
                i <= btc.len(),
                r.len() == i,
                price_tape_ok(btc@),
                price_ok(strike as int),
                forall|k: int| 0 <= k < i ==> #[trigger] r@[k] == deltas(btc@, strike as int)[k],
                delta_tape_ok(r@),
            decreases btc.len() - i,
        {
            proof {
                assert(price_ok(btc@[i as int].1 as int));
            }
            r.push((btc[i].0, btc[i].1 - strike));
            i = i + 1;
        }
        proof {
            assert(r@ =~= deltas(btc@, strike as int));
        }
    } else {
        proof {
            assert(r@ =~= Seq::<(i64, i64)>::empty());
        }
    }
    r
}

/// The terms of a window; its close is the end of what has been seen unless
/// another one is given.
pub open spec fn terms_of(
    open_ms: i64,
    end_ms: i64,
    shares: i64,
    market_end_ms: Option<i64>,
    taker_delay_ms: i64,
) -> Terms {
    Terms {
        open_ms,
        end_ms,
        market_end: match market_end_ms {
            Some(close) => close,
            None => end_ms,
        },
        shares,
        delay_ms: taker_delay_ms,
    }
}

/// Whether a window can be played: its terms, prices and quotes are in range.
pub open spec fn window_ok(
    w: Terms,
    ptb: Option<i64>,
    btc: Seq<(i64, i64)>,
    asks: Seq<(i64, i64, i64)>,
) -> bool {
    &&& terms_ok(w)
    &&& w.end_ms - w.open_ms <= MAX_WINDOW_MS
    &&& price_tape_ok(btc)
    &&& ask_tape_ok(asks)
    &&& ptb matches Some(strike) ==> price_ok(strike as int)
}

/// Plays a window from the start.
pub fn run_window(
    open_ms: i64,
    end_ms: i64,
    ptb: Option<i64>,
    btc: &[(i64, i64)],
    asks: &[(i64, i64, i64)],
    winner: Option<PositionSide>,
    shares: i64,
    market_end_ms: Option<i64>,
    taker_delay_ms: i64,
) -> (r: WindowResult)
    requires
        window_ok(
            terms_of(open_ms, end_ms, shares, market_end_ms, taker_delay_ms),
            ptb,
            btc@,
            asks@,
        ),
    ensures
        r@ == gap_outcome(
            terms_of(open_ms, end_ms, shares, market_end_ms, taker_delay_ms),
            ptb,
            btc@,
            asks@,
            winner,
            Seq::empty(),
        ),
        forall|i: int|
            0 <= i < r.trades.len() && (#[trigger] r.trades[i]).kind == TradeKind::Buy
                ==> r.trades[i].shares == shares && r.trades[i].net == 0,
{
    let none: Vec<CommittedLot> = Vec::new();
    proof {
        assert(none@ =~= Seq::<CommittedLot>::empty());
    }
    run_window_with_commits(
        open_ms,
        end_ms,
        ptb,
        btc,
        asks,
        winner,
        shares,
        market_end_ms,
        taker_delay_ms,
        &none,
    )
}

/// Plays a window from the fills that are in place.
///
/// `end_ms` is how far the window has been seen and `market_end_ms` its close:
/// a window that is still running sells what is unpaired only once it has been
/// seen up to the time for that.
pub fn run_window_with_commits(
    open_ms: i64,
    end_ms: i64,
    ptb: Option<i64>,
    btc: &[(i64, i64)],
    asks: &[(i64, i64, i64)],
    winner: Option<PositionSide>,
    shares: i64,
    market_end_ms: Option<i64>,
    taker_delay_ms: i64,
    commits: &[CommittedLot],
) -> (r: WindowResult)
    requires
        window_ok(
            terms_of(open_ms, end_ms, shares, market_end_ms, taker_delay_ms),
            ptb,
            btc@,
            asks@,
        ),
        commits_ok(commits@),
    ensures
        r@ == gap_outcome(
            terms_of(open_ms, end_ms, shares, market_end_ms, taker_delay_ms),
            ptb,
            btc@,
            asks@,
            winner,
            commits@,
        ),
        forall|i: int| 0 <= i < r.trades.len() ==> trade_ok(#[trigger] r.trades[i]),
        magnitude(r.total_pnl as int) <= 20_000_000_000_000_000_000_000_000_000_000_000_000,
        count_of(r.trades@, TradeKind::Buy) <= 3 * MAX_WINDOW_MS,
        forall|i: int|
            0 <= i < r.trades.len() && (#[trigger] r.trades[i]).kind == TradeKind::Buy
                ==> r.trades[i].shares == shares && r.trades[i].net == 0,
{
    if ptb.is_none() || btc.len() == 0 || asks.len() == 0 {
        return WindowResult::default();
    }
    let market_end: i64 = match market_end_ms {
        Some(close) => close,
        None => end_ms,
    };
    let w: Terms = Terms { open_ms, end_ms, market_end, shares, delay_ms: taker_delay_ms };
    let tape: Vec<(i64, i64)> = delta_tape(btc, ptb);
    let swings: Vec<Swing> = detect_major_swings(&tape, asks, open_ms, end_ms, market_end);
    proof {
        detected_swings_alternate(
            tape@,
            asks@,
            open_ms as int,
            end_ms as int,
            market_end as int,
        );
    }
    play_window(&w, &tape, asks, &swings, winner, commits)
}

/// State of a live window.
pub struct GapState {
    pub open_ms: i64,
    pub end_ms: i64,
    pub ptb: Option<i64>,
    pub btc: Seq<(i64, i64)>,
    pub asks: Seq<(i64, i64, i64)>,
    pub intents: Intents,
    pub shares: i64,
    pub delay_ms: i64,
    pub last_pnl: int,
    pub last_pairs: int,
}

/// Whether a live window is valid.
pub open spec fn gap_ok(g: GapState) -> bool {
    &&& time_ok(g.open_ms as int)
    &&& time_ok(g.end_ms as int)
    &&& g.end_ms - g.open_ms <= MAX_WINDOW_MS
    &&& g.ptb matches Some(strike) ==> price_ok(strike as int)
    &&& price_tape_ok(g.btc)
    &&& ask_tape_ok(g.asks)
    &&& commits_ok(g.intents.commits)
    &&& actions_ok(g.intents.pending)
    &&& shares_ok(g.shares as int)
    &&& 0 <= g.delay_ms <= MAX_MS
}

/// A live window in which nothing has happened.
pub open spec fn fresh_gap(open_ms: i64, end_ms: i64, ptb: Option<i64>) -> GapState {
    GapState {
        open_ms,
        end_ms,
        ptb,
        btc: Seq::empty(),
        asks: Seq::empty(),
        intents: no_intents(),
        shares: SHARES,
        delay_ms: TAKER_DELAY_MS,
        last_pnl: 0,
        last_pairs: 0,
    }
}

/// Whether a tick is kept for a window.
pub open spec fn kept_for(t: i64, open_ms: i64, end_ms: i64) -> bool {
    open_ms - LEAD_MS <= t < end_ms
}

/// The prices that are kept for a window.
pub open spec fn kept_prices(tape: Seq<(i64, i64)>, open_ms: i64, end_ms: i64) -> Seq<(i64, i64)> {
    tape.filter(|p: (i64, i64)| kept_for(p.0, open_ms, end_ms))
}

/// The quotes that are kept for a window.
pub open spec fn kept_asks(tape: Seq<(i64, i64, i64)>, open_ms: i64, end_ms: i64) -> Seq<
    (i64, i64, i64),
> {
    tape.filter(|p: (i64, i64, i64)| kept_for(p.0, open_ms, end_ms))
}

/// The next live window: the size and delay of orders stay, and so do the ticks
/// that belong to it.
pub open spec fn next_gap(g: GapState, open_ms: i64, end_ms: i64, ptb: Option<i64>) -> GapState {
    GapState {
        shares: g.shares,
        delay_ms: g.delay_ms,
        btc: kept_prices(g.btc, open_ms, end_ms),
        asks: kept_asks(g.asks, open_ms, end_ms),
        ..fresh_gap(open_ms, end_ms, ptb)
    }
}

/// The terms of a live window that has been seen up to `end_ms`.
pub open spec fn live_terms(g: GapState, end_ms: i64) -> Terms {
    Terms {
        open_ms: g.open_ms,
        end_ms,
        market_end: g.end_ms,
        shares: g.shares,
        delay_ms: g.delay_ms,
    }
}

/// How far a live window has been seen at `now_ms`.
pub open spec fn seen_until(g: GapState, now_ms: int) -> i64 {
    if g.end_ms <= now_ms + 1 {
        g.end_ms
    } else {
        (now_ms + 1) as i64
    }
}

/// The live window after it has been played up to `now_ms`.
pub open spec fn refreshed(g: GapState, now_ms: int) -> GapState {
    let out = gap_outcome(
        live_terms(g, seen_until(g, now_ms)),
        g.ptb,
        g.btc,
        g.asks,
        None,
        g.intents.commits,
    );
    GapState {
        intents: emitted_through(
            g.intents,
            deltas_from(g.btc, g.ptb),
            g.open_ms as int,
            g.delay_ms as int,
            now_ms,
            out.trades,
            out.trades.len() as int,
        ),
        last_pnl: out.total_pnl,
        last_pairs: out.pairs,
        ..g
    }
}

/// The live window with its orders handed out.
pub open spec fn handed_out(g: GapState) -> GapState {
    GapState { intents: Intents { pending: Seq::empty(), ..g.intents }, ..g }
}

/// Whether a price is news: above nothing and not a repetition.
pub open spec fn price_is_news(g: GapState, t: i64, price: i64) -> bool {
    price > 0 && !(g.btc.len() > 0 && g.btc.last() == (t, price))
}

/// The live window after a quote.  A quote needs both asks, and only the first
/// of a millisecond counts.
pub open spec fn quoted(g: GapState, t: i64, up: i64, down: i64) -> GapState {
    if up > 0 && down > 0 && !(g.asks.len() > 0 && g.asks.last().0 == t) {
        GapState { asks: g.asks.push((t, up, down)), ..g }
    } else {
        g
    }
}

/// The live window after a price, and the orders that come up.
pub open spec fn priced(g: GapState, t: i64, price: i64) -> (GapState, Seq<BotAction>) {
    if price_is_news(g, t, price) {
        let after = refreshed(GapState { btc: g.btc.push((t, price)), ..g }, t as int);
        (handed_out(after), after.intents.pending)
    } else {
        (g, Seq::empty())
    }
}

/// The live window after a tick of the clock, and the orders that come up.
pub open spec fn ticked(g: GapState, now_ms: i64, up: i64, down: i64) -> (
    GapState,
    Seq<BotAction>,
) {
    let after = refreshed(quoted(g, now_ms, up, down), now_ms as int);
    (handed_out(after), after.intents.pending)
}

/// A live window: it buffers ticks, is played again on each of them, and hands
/// out the orders that come up.
pub struct GapSwingEngine {
    open_ms: i64,
    end_ms: i64,
    ptb: Option<i64>,
    btc: Vec<(i64, i64)>,
    asks: Vec<(i64, i64, i64)>,
    intents: IntentBook,
    shares: i64,
    taker_delay_ms: i64,
    last_pnl: i128,
    last_pairs: u64,
}

impl View for GapSwingEngine {
    type V = GapState;

    closed spec fn view(&self) -> GapState {
        GapState {
            open_ms: self.open_ms,
            end_ms: self.end_ms,
            ptb: self.ptb,
            btc: self.btc@,
            asks: self.asks@,
            intents: self.intents@,
            shares: self.shares,
            delay_ms: self.taker_delay_ms,
            last_pnl: self.last_pnl as int,
            last_pairs: self.last_pairs as int,
        }
    }
}

/// Keeps the prices that belong to a window.
pub fn keep_prices(tape: &Vec<(i64, i64)>, open_ms: i64, end_ms: i64) -> (r: Vec<(i64, i64)>)
    requires
        price_tape_ok(tape@),
        time_ok(open_ms as int),
    ensures
        r@ == kept_prices(tape@, open_ms, end_ms),
        price_tape_ok(r@),
{
    let ghost keep = |p: (i64, i64)| kept_for(p.0, open_ms, end_ms);
    let mut r: Vec<(i64, i64)> = Vec::new();
    let mut i: usize = 0;
    proof {
        reveal(Seq::filter);
        assert(tape@.take(0).filter(keep) =~= Seq::<(i64, i64)>::empty());
    }
    while i < tape.len()
        invariant
            i <= tape.len(),
            time_ok(open_ms as int),
            price_tape_ok(tape@),
            price_tape_ok(r@),
            keep == (|p: (i64, i64)| kept_for(p.0, open_ms, end_ms)),
            r@ == tape@.take(i as int).filter(keep),
        decreases tape.len() - i,
    {
        let p: (i64, i64) = tape[i];
        proof {
            reveal(Seq::filter);
            assert(tape@.take(i + 1).drop_last() =~= tape@.take(i as int));
            assert(price_ok(tape@[i as int].1 as int));
        }
        if p.0 >= open_ms - LEAD_MS && p.0 < end_ms {
            r.push(p);
        }
        i = i + 1;
    }
    proof {
        assert(tape@.take(i as int) =~= tape@);
    }
    r
}

/// Keeps the quotes that belong to a window.
pub fn keep_asks(tape: &Vec<(i64, i64, i64)>, open_ms: i64, end_ms: i64) -> (r: Vec<(i64, i64, i64)>)
    requires
        ask_tape_ok(tape@),
        time_ok(open_ms as int),
    ensures
        r@ == kept_asks(tape@, open_ms, end_ms),
        ask_tape_ok(r@),
{
    let ghost keep = |p: (i64, i64, i64)| kept_for(p.0, open_ms, end_ms);
    let mut r: Vec<(i64, i64, i64)> = Vec::new();
    let mut i: usize = 0;
    proof {
        reveal(Seq::filter);
        assert(tape@.take(0).filter(keep) =~= Seq::<(i64, i64, i64)>::empty());
    }
    while i < tape.len()
        invariant
            i <= tape.len(),
            time_ok(open_ms as int),
            ask_tape_ok(tape@),
            ask_tape_ok(r@),
            keep == (|p: (i64, i64, i64)| kept_for(p.0, open_ms, end_ms)),
            r@ == tape@.take(i as int).filter(keep),
        decreases tape.len() - i,
    {
        let p: (i64, i64, i64) = tape[i];
        proof {
            reveal(Seq::filter);
            assert(tape@.take(i + 1).drop_last() =~= tape@.take(i as int));
            assert(ask_ok(tape@[i as int].1 as int));
        }
        if p.0 >= open_ms - LEAD_MS && p.0 < end_ms {
            r.push(p);
        }
        i = i + 1;
    }
    proof {
        assert(tape@.take(i as int) =~= tape@);
    }
    r
}

impl GapSwingEngine {
    /// A window in which nothing has happened.
    pub fn new(open_ms: i64, end_ms: i64, ptb: Option<i64>) -> (r: GapSwingEngine)
        requires
            time_ok(open_ms as int),
            time_ok(end_ms as int),
            end_ms - open_ms <= MAX_WINDOW_MS,
            ptb matches Some(strike) ==> price_ok(strike as int),
        ensures
            r@ == fresh_gap(open_ms, end_ms, ptb),
            gap_ok(r@),
    {
        let r: GapSwingEngine = GapSwingEngine {
            open_ms,
            end_ms,
            ptb,
            btc: Vec::new(),
            asks: Vec::new(),
            intents: IntentBook::new(),
            shares: SHARES,
            taker_delay_ms: TAKER_DELAY_MS,
            last_pnl: 0,
            last_pairs: 0,
        };
        proof {
            assert(r@.btc =~= Seq::<(i64, i64)>::empty());
            assert(r@.asks =~= Seq::<(i64, i64, i64)>::empty());
        }
        r
    }

    /// Goes on to another window.
    pub fn reset_window(&mut self, open_ms: i64, end_ms: i64, ptb: Option<i64>)
        requires
            gap_ok(old(self)@),
            time_ok(open_ms as int),
            time_ok(end_ms as int),
            end_ms - open_ms <= MAX_WINDOW_MS,
            ptb matches Some(strike) ==> price_ok(strike as int),
        ensures
            final(self)@ == next_gap(old(self)@, open_ms, end_ms, ptb),
            gap_ok(final(self)@),
    {
        let btc: Vec<(i64, i64)> = keep_prices(&self.btc, open_ms, end_ms);
        let asks: Vec<(i64, i64, i64)> = keep_asks(&self.asks, open_ms, end_ms);
        self.open_ms = open_ms;
        self.end_ms = end_ms;
        self.ptb = ptb;
        self.btc = btc;
        self.asks = asks;
        self.intents = IntentBook::new();
        self.last_pnl = 0;
        self.last_pairs = 0;
    }

    /// Sets the size of an order.
    pub fn set_shares(&mut self, shares: i64)
        requires
            gap_ok(old(self)@),
            shares_ok(shares as int),
        ensures
            final(self)@ == (GapState { shares, ..old(self)@ }),
            gap_ok(final(self)@),
    {
        self.shares = shares;
    }

    /// Sets the delay from signal to fill; live trading has none.
    pub fn set_taker_delay_ms(&mut self, delay_ms: i64)
        requires
            gap_ok(old(self)@),
            delay_ms <= MAX_MS,
        ensures
            final(self)@ == (GapState {
                delay_ms: if delay_ms >= 0 {
                    delay_ms
                } else {
                    0
                },
                ..old(self)@
            }),
            gap_ok(final(self)@),
    {
        self.taker_delay_ms = if delay_ms >= 0 {
            delay_ms
        } else {
            0
        };
    }

    /// Sets the strike, and says whether it was taken: the first one above
    /// nothing is, and no other after it.
    pub fn set_strike(&mut self, ptb: i64) -> (r: bool)
        requires
            gap_ok(old(self)@),
            price_ok(ptb as int),
        ensures
            r == (old(self)@.ptb is None && ptb > 0),
            final(self)@ == struck(old(self)@, ptb),
            gap_ok(final(self)@),
    {
        if self.ptb.is_some() {
            return false;
        }
        if ptb > 0 {
            self.ptb = Some(ptb);
            return true;
        }
        false
    }

    /// The strike.
    pub fn strike(&self) -> (r: Option<i64>)
        ensures
            r == self@.ptb,
    {
        self.ptb
    }

    /// What the window came to when it was last played.
    pub fn last_sim_pnl(&self) -> (r: i128)
        ensures
            r == self@.last_pnl,
    {
        self.last_pnl
    }

    /// The pairs that the window came to when it was last played.
    pub fn last_pairs(&self) -> (r: u64)
        ensures
            r == self@.last_pairs,
    {
        self.last_pairs
    }

    /// Whether nothing is unpaired.
    pub fn is_flat(&self) -> (r: bool)
        requires
            gap_ok(self@),
        ensures
            r == (open_in(self@.intents.commits) == 0),
    {
        self.unpaired_shares() <= 0
    }

    /// Unpaired shares.
    pub fn unpaired_shares(&self) -> (r: i128)
        requires
            gap_ok(self@),
        ensures
            r == open_in(self@.intents.commits),
            r >= 0,
    {
        self.intents.unpaired_shares()
    }

    /// Unpaired shares of a side.
    pub fn unpaired_on(&self, side: PositionSide) -> (r: i128)
        requires
            gap_ok(self@),
        ensures
            r == open_on(self@.intents.commits, side),
            r >= 0,
    {
        self.intents.unpaired_on(side)
    }

    /// Number of fills.
    pub fn fill_count(&self) -> (r: usize)
        ensures
            r == self@.intents.commits.len(),
    {
        self.intents.commits().len()
    }

    /// Whether there are any fills.
    pub fn has_fills(&self) -> (r: bool)
        ensures
            r == (self@.intents.commits.len() > 0),
    {
        self.intents.commits().len() > 0
    }

    /// Records the fill of a buy.
    pub fn commit_buy(
        &mut self,
        side: PositionSide,
        shares: i64,
        fill: i64,
        fill_t: i64,
        is_pair: bool,
        anchor_d: i64,
    )
        requires
            gap_ok(old(self)@),
            old(self)@.intents.commits.len() < MAX_COMMITS,
            shares_ok(shares as int),
            ask_ok(fill as int),
            delta_ok(anchor_d as int),
            magnitude(fill_t as int) <= 2 * MAX_MS,
        ensures
            final(self)@ == (GapState {
                intents: Intents {
                    commits: commits_bought(
                        old(self)@.intents.commits,
                        side,
                        shares,
                        fill,
                        fill_t,
                        is_pair,
                        anchor_of(
                            deltas_from(old(self)@.btc, old(self)@.ptb),
                            old(self)@.open_ms as int,
                            old(self)@.delay_ms as int,
                            fill_t as int,
                            anchor_d,
                        ),
                    ),
                    ..old(self)@.intents
                },
                ..old(self)@
            }),
            gap_ok(final(self)@),
    {
        let tape: Vec<(i64, i64)> = delta_tape(&self.btc, self.ptb);
        let anchor: i64 = recover_anchor(
            &tape,
            self.open_ms,
            self.taker_delay_ms,
            fill_t,
            anchor_d,
        );
        self.intents.commit_buy(side, shares, fill, fill_t, is_pair, anchor);
    }

    /// Records the sale of a side.
    pub fn commit_sell(&mut self, side: PositionSide)
        requires
            gap_ok(old(self)@),
        ensures
            final(self)@ == (GapState {
                intents: Intents {
                    commits: commits_sold(old(self)@.intents.commits, side),
                    ..old(self)@.intents
                },
                ..old(self)@
            }),
            gap_ok(final(self)@),
    {
        self.intents.commit_sell(side);
    }

    /// Plays the window up to `now_ms` and asks for the orders that are due.
    fn refresh(&mut self, now_ms: i64)
        requires
            gap_ok(old(self)@),
            time_ok(now_ms as int),
            old(self)@.intents.commits.len() <= MAX_LIVE_FILLS,
        ensures
            final(self)@ == refreshed(old(self)@, now_ms as int),
            gap_ok(final(self)@),
    {
        let end: i64 = if self.end_ms <= now_ms + 1 {
            self.end_ms
        } else {
            now_ms + 1
        };
        let res: WindowResult = run_window_with_commits(
            self.open_ms,
            end,
            self.ptb,
            &self.btc,
            &self.asks,
            None,
            self.shares,
            Some(self.end_ms),
            self.taker_delay_ms,
            self.intents.commits(),
        );
        self.last_pnl = res.total_pnl;
        self.last_pairs = res.pairs;
        let tape: Vec<(i64, i64)> = delta_tape(&self.btc, self.ptb);
        self.intents.emit(&tape, self.open_ms, self.taker_delay_ms, now_ms, &res.trades);
    }

    /// Takes a Binance price, and hands out the orders that come up.
    pub fn on_binance(&mut self, t: i64, price: i64) -> (r: Vec<BotAction>)
        requires
            gap_ok(old(self)@),
            time_ok(t as int),
            price_ok(price as int),
            old(self)@.intents.commits.len() <= MAX_LIVE_FILLS,
        ensures
            (final(self)@, r@) == priced(old(self)@, t, price),
            gap_ok(final(self)@),
            actions_ok(r@),
            old(self)@.intents.pending.len() == 0 ==> hands_out(
                old(self)@.intents,
                r@,
                final(self)@.intents,
                old(self)@.delay_ms as int,
            ),
            fills_added(
                old(self)@.intents.commits,
                final(self)@.intents.commits,
                old(self)@.shares,
            ),
    {
        proof {
            a_gap_play_adds_fills_of_the_size(
                GapState { btc: self@.btc.push((t, price)), ..self@ },
                t as int,
            );
            if self@.intents.pending.len() == 0 {
                a_call_hands_out(self@, GapCall::Price { t, price });
            }
        }
        if price <= 0 {
            return Vec::new();
        }
        let n: usize = self.btc.len();
        if n > 0 && self.btc[n - 1].0 == t && self.btc[n - 1].1 == price {
            return Vec::new();
        }
        self.btc.push((t, price));
        self.refresh(t);
        self.take_pending()
    }

    /// Takes a Coinbase price, which this strategy has no use for.
    pub fn on_coinbase(&mut self, t: i64, price: i64) -> (r: Option<BotAction>)
        ensures
            r is None,
            final(self)@ == old(self)@,
    {
        None
    }

    /// Takes a quote.
    pub fn on_asks(&mut self, t: i64, up: i64, down: i64)
        requires
            gap_ok(old(self)@),
            time_ok(t as int),
            ask_ok(up as int),
            ask_ok(down as int),
        ensures
            final(self)@ == quoted(old(self)@, t, up, down),
            gap_ok(final(self)@),
    {
        if up > 0 && down > 0 {
            let n: usize = self.asks.len();
            if n > 0 && self.asks[n - 1].0 == t {
                return;
            }
            self.asks.push((t, up, down));
        }
    }

    /// Takes a quote, and hands out the orders that come up.
    pub fn tick(&mut self, now_ms: i64, up_ask: i64, down_ask: i64) -> (r: Vec<BotAction>)
        requires
            gap_ok(old(self)@),
            time_ok(now_ms as int),
            ask_ok(up_ask as int),
            ask_ok(down_ask as int),
            old(self)@.intents.commits.len() <= MAX_LIVE_FILLS,
        ensures
            (final(self)@, r@) == ticked(old(self)@, now_ms, up_ask, down_ask),
            gap_ok(final(self)@),
            actions_ok(r@),
            old(self)@.intents.pending.len() == 0 ==> hands_out(
                old(self)@.intents,
                r@,
                final(self)@.intents,
                old(self)@.delay_ms as int,
            ),
            fills_added(
                old(self)@.intents.commits,
                final(self)@.intents.commits,
                old(self)@.shares,
            ),
    {
        proof {
            a_gap_play_adds_fills_of_the_size(
                quoted(self@, now_ms, up_ask, down_ask),
                now_ms as int,
            );
            if self@.intents.pending.len() == 0 {
                a_call_hands_out(self@, GapCall::Tick { now_ms, up: up_ask, down: down_ask });
            }
        }
        self.on_asks(now_ms, up_ask, down_ask);
        self.refresh(now_ms);
        self.take_pending()
    }

    /// Plays the window to its close with the outcome that is known.
    pub fn finalize(&mut self, winner: Option<PositionSide>) -> (r: WindowResult)
        requires
            gap_ok(old(self)@),
        ensures
            r@ == gap_outcome(
                live_terms(old(self)@, old(self)@.end_ms),
                old(self)@.ptb,
                old(self)@.btc,
                old(self)@.asks,
                winner,
                old(self)@.intents.commits,
            ),
            final(self)@ == (GapState {
                last_pnl: r@.total_pnl,
                last_pairs: r@.pairs,
                ..old(self)@
            }),
            gap_ok(final(self)@),
            magnitude(r.total_pnl as int) <= 20_000_000_000_000_000_000_000_000_000_000_000_000,
            forall|i: int|
                0 <= i < r.trades.len() && (#[trigger] r.trades[i]).kind == TradeKind::Buy
                    ==> r.trades[i].shares == old(self)@.shares && r.trades[i].net == 0,
    {
        let res: WindowResult = run_window_with_commits(
            self.open_ms,
            self.end_ms,
            self.ptb,
            &self.btc,
            &self.asks,
            winner,
            self.shares,
            Some(self.end_ms),
            self.taker_delay_ms,
            self.intents.commits(),
        );
        self.last_pnl = res.total_pnl;
        self.last_pairs = res.pairs;
        res
    }

    /// Hands out the orders that were asked for.
    pub fn take_pending(&mut self) -> (r: Vec<BotAction>)
        requires
            gap_ok(old(self)@),
        ensures
            r@ == old(self)@.intents.pending,
            final(self)@ == handed_out(old(self)@),
            gap_ok(final(self)@),
            actions_ok(r@),
    {
        self.intents.take_pending()
    }
}

/// The live window after a strike has come in.
pub open spec fn struck(g: GapState, ptb: i64) -> GapState {
    if g.ptb is None && ptb > 0 {
        GapState { ptb: Some(ptb), ..g }
    } else {
        g
    }
}

/// The first strike wins: once one is taken, no other changes anything.
pub proof fn first_strike_wins(g: GapState, first: i64, later: i64)
    ensures
        first > 0 ==> struck(struck(g, first), later) == struck(g, first),
        g.ptb is Some ==> struck(g, later) == g,
{
}

/// Whether a live window has asked for nothing twice and is open on one side at
/// most.
pub open spec fn gap_orderly(g: GapState) -> bool {
    &&& g.intents.emitted.no_duplicates()
    &&& !can_match(commit_book(g.intents.commits))
}

/// However often a live window is played, it asks for nothing twice and is
/// open on one side at most; so is a window in which nothing has happened, and
/// the next window.
pub proof fn live_window_stays_orderly(
    g: GapState,
    now_ms: int,
    open_ms: i64,
    end_ms: i64,
    ptb: Option<i64>,
)
    ensures
        gap_orderly(g) ==> gap_orderly(refreshed(g, now_ms)),
        gap_orderly(g) ==> gap_orderly(handed_out(g)),
        gap_orderly(fresh_gap(open_ms, end_ms, ptb)),
        gap_orderly(next_gap(g, open_ms, end_ms, ptb)),
{
    let out = gap_outcome(
        live_terms(g, seen_until(g, now_ms)),
        g.ptb,
        g.btc,
        g.asks,
        None,
        g.intents.commits,
    );
    let tape = deltas_from(g.btc, g.ptb);
    if gap_orderly(g) {
        orders_are_asked_for_once(
            g.intents,
            tape,
            g.open_ms as int,
            g.delay_ms as int,
            now_ms,
            out.trades,
            out.trades.len() as int,
        );
        fills_are_open_on_one_side(
            g.intents,
            tape,
            g.open_ms as int,
            g.delay_ms as int,
            now_ms,
            out.trades,
            out.trades.len() as int,
        );
    }
}

/// What can happen to a live window.
pub enum GapCall {
    Asks { t: i64, up: i64, down: i64 },
    Price { t: i64, price: i64 },
    Tick { now_ms: i64, up: i64, down: i64 },
    Strike { ptb: i64 },
    Shares { shares: i64 },
    Fills { commits: Seq<CommittedLot> },
}

/// The live window after something has happened, and the orders that come up.
pub open spec fn called(g: GapState, c: GapCall) -> (GapState, Seq<BotAction>) {
    match c {
        GapCall::Asks { t, up, down } => (quoted(g, t, up, down), Seq::empty()),
        GapCall::Price { t, price } => priced(g, t, price),
        GapCall::Tick { now_ms, up, down } => ticked(g, now_ms, up, down),
        GapCall::Strike { ptb } => (struck(g, ptb), Seq::empty()),
        GapCall::Shares { shares } => (GapState { shares, ..g }, Seq::empty()),
        GapCall::Fills { commits } => (
            GapState { intents: Intents { commits, ..g.intents }, ..g },
            Seq::empty(),
        ),
    }
}

/// The live window after all of `calls`, and every order that came up.
pub open spec fn gap_run(g: GapState, calls: Seq<GapCall>) -> (GapState, Seq<BotAction>)
    decreases calls.len(),
{
    if calls.len() == 0 {
        (g, Seq::empty())
    } else {
        let (before, orders) = gap_run(g, calls.drop_last());
        let (after, more) = called(before, calls.last());
        (after, orders + more)
    }
}

/// Playing a window hands out the orders that come up.
proof fn playing_hands_out(g: GapState, now_ms: int)
    requires
        g.intents.pending.len() == 0,
    ensures
        ({
            let after = refreshed(g, now_ms);
            hands_out(
                g.intents,
                after.intents.pending,
                handed_out(after).intents,
                g.delay_ms as int,
            )
        }),
{
    let out = gap_outcome(
        live_terms(g, seen_until(g, now_ms)),
        g.ptb,
        g.btc,
        g.asks,
        None,
        g.intents.commits,
    );
    asking_hands_out(
        g.intents,
        deltas_from(g.btc, g.ptb),
        g.open_ms as int,
        g.delay_ms,
        now_ms,
        out.trades,
    );
}

/// Whatever happens hands out the orders that come up.
pub proof fn a_call_hands_out(g: GapState, c: GapCall)
    requires
        g.intents.pending.len() == 0,
    ensures
        hands_out(g.intents, called(g, c).1, called(g, c).0.intents, g.delay_ms as int),
        called(g, c).0.delay_ms == g.delay_ms,
{
    nothing_is_handed_out(g.intents, g.intents, g.delay_ms as int);
    match c {
        GapCall::Price { t, price } => {
            let g1 = GapState { btc: g.btc.push((t, price)), ..g };
            playing_hands_out(g1, t as int);
        },
        GapCall::Tick { now_ms, up, down } => {
            playing_hands_out(quoted(g, now_ms, up, down), now_ms as int);
        },
        _ => {
            nothing_is_handed_out(g.intents, called(g, c).0.intents, g.delay_ms as int);
        },
    }
}

/// A run hands out all the orders that came up.
pub proof fn a_run_hands_out(g: GapState, calls: Seq<GapCall>)
    requires
        g.intents.pending.len() == 0,
    ensures
        hands_out(g.intents, gap_run(g, calls).1, gap_run(g, calls).0.intents, g.delay_ms as int),
        gap_run(g, calls).0.delay_ms == g.delay_ms,
    decreases calls.len(),
{
    if calls.len() > 0 {
        a_run_hands_out(g, calls.drop_last());
        let (before, orders) = gap_run(g, calls.drop_last());
        a_call_hands_out(before, calls.last());
        let (after, more) = called(before, calls.last());
        handing_out_adds_up(
            g.intents,
            orders,
            before.intents,
            more,
            after.intents,
            g.delay_ms as int,
        );
    } else {
        nothing_is_handed_out(g.intents, g.intents, g.delay_ms as int);
    }
}

/// Over all that happens to a window, whatever its prices, quotes, ticks, strike
/// and fills, no order is handed out twice: no two agree in kind, side, reason
/// and time of their signal.
pub proof fn a_window_orders_nothing_twice(g: GapState, calls: Seq<GapCall>)
    requires
        g.intents.pending.len() == 0,
        g.intents.emitted.no_duplicates(),
    ensures
        all_different(gap_run(g, calls).1),
{
    a_run_hands_out(g, calls);
    let (after, orders) = gap_run(g, calls);
    what_is_handed_out_differs(g.intents, orders, after.intents, g.delay_ms as int);
}

} // verus!
