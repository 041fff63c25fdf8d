//! The window clock, and the asks of each window's tokens.
use std::collections::HashMap;
use vstd::prelude::*;
use crate::strategy::pairing::{keep_quote, quote_kept, stale_quotes};
use crate::strategy::pairing_laws::stale_quotes_are_old;
use crate::strategy::sides::PositionSide;
use crate::strategy::tape::{ask_before, ask_known, ask_tape_ok};
use crate::units::{ask_ok, time_ok, truncated_quotient};

verus! {

/// Delay from order to fill outside live trading.
pub const TAKER_DELAY_MS: i64 = 250;

/// How early the next window is subscribed to.
pub const PRE_SUBSCRIBE_MS: i64 = 5_000;

/// How long a window's asks are kept.
pub const BOOK_KEEP_MS: i64 = 15_000;

/// The last quote of a window.
#[derive(Clone, Copy, Debug, PartialEq, Eq, Structural)]
pub struct MarketQuotes {
    pub t: i64,
    pub up_ask: i64,
    pub down_ask: i64,
}

/// The asks of windows and their last quotes.
pub struct Books {
    pub windows: Map<i64, Seq<(i64, i64, i64)>>,
    pub latest: Map<i64, MarketQuotes>,
}

/// The asks of windows and their last quotes.
pub struct PolyBook {
    windows: HashMap<i64, Vec<(i64, i64, i64)>>,
    latest: HashMap<i64, MarketQuotes>,
}

impl View for PolyBook {
    type V = Books;

    closed spec fn view(&self) -> Books {
        Books {
            windows: self.windows@.map_values(|v: Vec<(i64, i64, i64)>| v@),
            latest: self.latest@,
        }
    }
}

/// The asks of a window, none if it has none.
pub open spec fn asks_of(b: Books, start_ts: i64) -> Seq<(i64, i64, i64)> {
    if b.windows.contains_key(start_ts) {
        b.windows[start_ts]
    } else {
        Seq::empty()
    }
}

/// The last quote of a window.
pub open spec fn latest_of(b: Books, start_ts: i64) -> Option<MarketQuotes> {
    if b.latest.contains_key(start_ts) {
        Some(b.latest[start_ts])
    } else {
        None
    }
}

/// The books after a quote, which needs an UP ask.
pub open spec fn book_pushed(b: Books, start_ts: i64, t: i64, up: i64, down: i64) -> Books {
    if up <= 0 {
        b
    } else {
        Books {
            windows: b.windows.insert(
                start_ts,
                quote_kept(asks_of(b, start_ts), t, up, down, BOOK_KEEP_MS as int),
            ),
            latest: b.latest.insert(start_ts, MarketQuotes { t, up_ask: up, down_ask: down }),
        }
    }
}

/// Whether all asks are in range.
pub open spec fn all_asks_ok(b: Books) -> bool {
    &&& forall|k: i64| #[trigger] b.windows.contains_key(k) ==> ask_tape_ok(b.windows[k])
    &&& forall|k: i64| #[trigger]
        b.latest.contains_key(k) ==> ask_ok(b.latest[k].up_ask as int) && ask_ok(
            b.latest[k].down_ask as int,
        ) && time_ok(b.latest[k].t as int)
}

impl PolyBook {
    /// No asks.
    pub fn new() -> (r: PolyBook)
        ensures
            r@ == (Books { windows: Map::empty(), latest: Map::empty() }),
            all_asks_ok(r@),
    {
        let r: PolyBook = PolyBook { windows: HashMap::new(), latest: HashMap::new() };
        proof {
            assert(r@.windows =~= Map::<i64, Seq<(i64, i64, i64)>>::empty());
            assert(r@.latest =~= Map::<i64, MarketQuotes>::empty());
        }
        r
    }

    /// Takes a quote of a window.
    pub fn push(&mut self, start_ts: i64, t: i64, up: i64, down: i64)
        requires
            all_asks_ok(old(self)@),
            time_ok(t as int),
            ask_ok(up as int),
            ask_ok(down as int),
        ensures
            final(self)@ == book_pushed(old(self)@, start_ts, t, up, down),
            all_asks_ok(final(self)@),
    {
        broadcast use vstd::std_specs::hash::group_hash_axioms;

        if up <= 0 {
            return;
        }
        let ghost before = self@;
        let mut asks: Vec<(i64, i64, i64)> = match self.windows.remove(&start_ts) {
            Some(asks) => asks,
            None => Vec::new(),
        };
        proof {
            if before.windows.contains_key(start_ts) {
                assert(asks@ == before.windows[start_ts]);
            } else {
                assert(asks@ =~= Seq::<(i64, i64, i64)>::empty());
            }
        }
        keep_quote(&mut asks, t, up, down, BOOK_KEEP_MS);
        self.windows.insert(start_ts, asks);
        self.latest.insert(start_ts, MarketQuotes { t, up_ask: up, down_ask: down });
        proof {
            let after = book_pushed(before, start_ts, t, up, down);
            assert(self@.windows =~= after.windows);
            assert(self@.latest =~= after.latest);
        }
    }

    /// The last quote of a window.
    pub fn latest(&self, start_ts: i64) -> (r: Option<MarketQuotes>)
        requires
            all_asks_ok(self@),
        ensures
            r == latest_of(self@, start_ts),
            r matches Some(q) ==> ask_ok(q.up_ask as int) && ask_ok(q.down_ask as int) && time_ok(
                q.t as int,
            ),
    {
        broadcast use vstd::std_specs::hash::group_hash_axioms;

        match self.latest.get(&start_ts) {
            Some(q) => Some(*q),
            None => None,
        }
    }

    /// What is known of a token's ask before `t`.
    pub fn ask_before(&self, start_ts: i64, t: i64, side: PositionSide) -> (r: Option<i64>)
        ensures
            r == ask_known(asks_of(self@, start_ts), t - 1, side),
    {
        broadcast use vstd::std_specs::hash::group_hash_axioms;

        match self.windows.get(&start_ts) {
            Some(asks) => ask_before(asks, t, side),
            None => {
                let none: Vec<(i64, i64, i64)> = Vec::new();
                proof {
                    assert(none@ =~= Seq::<(i64, i64, i64)>::empty());
                }
                ask_before(&none, t, side)
            },
        }
    }

    /// The asks of a window.
    pub fn history(&self, start_ts: i64) -> (r: Vec<(i64, i64, i64)>)
        requires
            all_asks_ok(self@),
        ensures
            r@ == asks_of(self@, start_ts),
            ask_tape_ok(r@),
    {
        broadcast use vstd::std_specs::hash::group_hash_axioms;

        let mut r: Vec<(i64, i64, i64)> = Vec::new();
        match self.windows.get(&start_ts) {
            Some(asks) => {
                proof {
                    assert(self@.windows.contains_key(start_ts));
                }
                let mut i: usize = 0;
                while i < asks.len()
                    invariant
                        i <= asks.len(),
                        r@ == asks@.take(i as int),
                    decreases asks.len() - i,
                {
                    r.push(asks[i]);
                    proof {
                        assert(asks@.take(i + 1) =~= asks@.take(i as int).push(asks@[i as int]));
                    }
                    i = i + 1;
                }
                proof {
                    assert(asks@.take(i as int) =~= asks@);
                }
            },
            None => {
                proof {
                    assert(r@ =~= Seq::<(i64, i64, i64)>::empty());
                }
            },
        }
        r
    }

    /// Forgets a window.
    pub fn clear_window(&mut self, start_ts: i64)
        requires
            all_asks_ok(old(self)@),
        ensures
            final(self)@.windows == old(self)@.windows.remove(start_ts),
            final(self)@.latest == old(self)@.latest.remove(start_ts),
            all_asks_ok(final(self)@),
    {
        broadcast use vstd::std_specs::hash::group_hash_axioms;

        let ghost before = self@;
        self.windows.remove(&start_ts);
        self.latest.remove(&start_ts);
        proof {
            assert(self@.windows =~= before.windows.remove(start_ts));
            assert(self@.latest =~= before.latest.remove(start_ts));
        }
    }
}

/// The second that the window of a time opens at.
pub open spec fn window_of(now_ms: int) -> int {
    truncated_quotient(truncated_quotient(now_ms, 1_000), 300) * 300
}

/// The windows that are subscribed to at a time: the running one, and in its
/// last five seconds the next.
pub open spec fn wanted(now: int) -> Seq<i64> {
    if truncated_quotient(now, 1_000) + 5 >= window_of(now) + 300 {
        seq![window_of(now) as i64, (window_of(now) + 300) as i64]
    } else {
        seq![window_of(now) as i64]
    }
}

/// The windows that are subscribed to.
pub fn subscribe_window_starts(now_ms: i64) -> (r: Vec<i64>)
    ensures
        r@ == wanted(now_ms as int),
{
    let now_sec: i64 = now_ms / 1_000;
    let current: i64 = (now_sec / 300) * 300;
    let next: i64 = current + 300;
    let mut r: Vec<i64> = Vec::new();
    r.push(current);
    if now_sec + PRE_SUBSCRIBE_MS / 1_000 >= next {
        r.push(next);
        proof {
            assert(r@ =~= seq![current, next]);
        }
    } else {
        proof {
            assert(r@ =~= seq![current]);
        }
    }
    r
}

/// The second that the running window opened at.
pub fn trading_window_start(now_ms: i64) -> (r: i64)
    ensures
        r == window_of(now_ms as int),
{
    let now_sec: i64 = now_ms / 1_000;
    (now_sec / 300) * 300
}

/// The millisecond that a window opens at.
pub fn window_open_ms(start_ts: i64) -> (r: i64)
    requires
        i64::MIN <= start_ts * 1_000 <= i64::MAX,
    ensures
        r == start_ts * 1_000,
{
    start_ts * 1_000
}

/// The millisecond that a window ends at.
pub fn window_end_ms(start_ts: i64) -> (r: i64)
    requires
        i64::MIN <= (start_ts + 300) * 1_000 <= i64::MAX,
    ensures
        r == (start_ts + 300) * 1_000,
{
    (start_ts + 300) * 1_000
}

/// A time lies in the window that is running then: it has opened and has not
/// ended, opens on a full five minutes, and the next one opens when it ends.
pub proof fn every_time_has_its_window(now_ms: int)
    requires
        now_ms >= 0,
    ensures
        window_of(now_ms) % 300 == 0,
        window_of(now_ms) * 1_000 <= now_ms < (window_of(now_ms) + 300) * 1_000,
        window_of((window_of(now_ms) + 300) * 1_000) == window_of(now_ms) + 300,
{
    let next = (window_of(now_ms) + 300) * 1_000;
    assert(next / 1_000 == window_of(now_ms) + 300);
    assert((window_of(now_ms) + 300) / 300 == window_of(now_ms) / 300 + 1);
}

/// What has been forgotten is not known, and nothing else is forgotten.
pub proof fn clearing_forgets_one_window(b: Books, start_ts: i64, other: i64)
    ensures
        ({
            let after = Books {
                windows: b.windows.remove(start_ts),
                latest: b.latest.remove(start_ts),
            };
            &&& asks_of(after, start_ts) == Seq::<(i64, i64, i64)>::empty()
            &&& latest_of(after, start_ts) is None
            &&& other != start_ts ==> asks_of(after, other) == asks_of(b, other) && latest_of(
                after,
                other,
            ) == latest_of(b, other)
        }),
{
}

/// A quote with an UP ask is the last of its window.  The quotes before it are kept
/// but for leading ones that are more than fifteen seconds older.
pub proof fn quotes_are_kept_for_fifteen_seconds(b: Books, start_ts: i64, t: i64, up: i64, down: i64)
    requires
        up > 0,
    ensures
        ({
            let after = book_pushed(b, start_ts, t, up, down);
            let all = asks_of(b, start_ts).push((t, up, down));
            let kept = asks_of(after, start_ts);
            let gone = all.len() - kept.len();
            &&& latest_of(after, start_ts) == Some(MarketQuotes { t, up_ask: up, down_ask: down })
            &&& 0 <= gone < all.len()
            &&& kept == all.skip(gone)
            &&& kept.last() == (t, up, down)
            &&& kept[0].0 >= t - 15_000
            &&& forall|i: int| 0 <= i < gone ==> (#[trigger] all[i]).0 < t - 15_000
        }),
{
    let all = asks_of(b, start_ts).push((t, up, down));
    stale_quotes_are_old(all, t - 15_000, 0);
    let n = stale_quotes(all, t - 15_000, 0);
    assert(all[all.len() - 1] == (t, up, down));
    assert(n < all.len());
}

/// A quote changes nothing of other windows, and nothing at all without an UP ask.
pub proof fn a_quote_is_of_its_window(
    b: Books,
    start_ts: i64,
    t: i64,
    up: i64,
    down: i64,
    other: i64,
)
    ensures
        up <= 0 ==> book_pushed(b, start_ts, t, up, down) == b,
        other != start_ts ==> asks_of(book_pushed(b, start_ts, t, up, down), other) == asks_of(
            b,
            other,
        ) && latest_of(book_pushed(b, start_ts, t, up, down), other) == latest_of(b, other),
{
}

/// A window is subscribed to from five seconds before it opens until it ends, and
/// at no other time.
pub proof fn windows_are_wanted_while_they_run(now: int, start_ts: i64)
    requires
        0 <= now <= i64::MAX,
        i64::MIN <= start_ts * 1_000,
    ensures
        wanted(now).contains(start_ts) <==> start_ts % 300 == 0 && start_ts * 1_000 - 5_000 <= now < (
        start_ts + 300) * 1_000,
        wanted(now)[0] * 1_000 <= now < (wanted(now)[0] + 300) * 1_000,
        wanted(now).len() > 1 ==> wanted(now).len() == 2 && wanted(now)[1] == wanted(now)[0] + 300,
{
    every_time_has_its_window(now);
    let w = window_of(now);
    let sec = now / 1_000;
    assert(w == (sec / 300) * 300);
    assert(wanted(now)[0] == w);
    if wanted(now).contains(start_ts) {
        let i = choose|i: int| 0 <= i < wanted(now).len() && wanted(now)[i] == start_ts;
        assert(i == 0 || i == 1);
    }
    if start_ts % 300 == 0 && start_ts * 1_000 - 5_000 <= now < (start_ts + 300) * 1_000 {
        if start_ts == w {
            assert(wanted(now)[0] == start_ts);
        } else {
            assert(start_ts == w + 300);
            assert(wanted(now)[1] == start_ts);
        }
    }
}

} // verus!
