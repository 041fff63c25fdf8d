//! Which markets are known, which are subscribed to, and when opening prices
//! are fetched ahead.
use std::collections::{HashMap, HashSet};
use vstd::prelude::*;
use crate::feeds::polymarket::market_views;
use crate::gamma::{Market, MarketInfo};
use crate::poly_book::{subscribe_window_starts, wanted, window_of};
use crate::text::same;
use crate::units::{time_ok, MAX_MS};

verus! {

/// How early before a window opens its opening price is asked for.
pub const PREFETCH_LEAD_MS: i64 = 10_000;

/// How long after a window opens its opening price is asked for.
pub const PREFETCH_TAIL_MS: i64 = 45_000;

/// Time between fetches while a window opens.
pub const PREFETCH_NEAR_MS: i64 = 400;

/// Time between fetches while the site limits them.
pub const PREFETCH_COOLING_MS: i64 = 8_000;

/// Time between fetches otherwise.
pub const PREFETCH_IDLE_MS: i64 = 5_000;

/// How long the site is left alone after it has limited requests.
pub const COOLING_MS: i64 = 8_000;

/// The tokens of markets.
pub open spec fn tokens_of(markets: Seq<Market>) -> Set<Seq<char>>
    decreases markets.len(),
{
    if markets.len() == 0 {
        Set::empty()
    } else {
        tokens_of(markets.drop_last()).insert(markets.last().up_token_id).insert(
            markets.last().down_token_id,
        )
    }
}

/// The texts of a list.
pub open spec fn text_set(v: Seq<String>) -> Set<Seq<char>>
    decreases v.len(),
{
    if v.len() == 0 {
        Set::empty()
    } else {
        text_set(v.drop_last()).insert(v.last()@)
    }
}

/// Whether no text is in a list twice.
pub open spec fn all_different(v: Seq<String>) -> bool {
    forall|i: int, j: int| 0 <= i < j < v.len() ==> (#[trigger] v[i])@ != (#[trigger] v[j])@
}

/// Every text of a list is among its texts.
proof fn listed_texts(v: Seq<String>, i: int)
    requires
        0 <= i < v.len(),
    ensures
        text_set(v).contains(v[i]@),
    decreases v.len(),
{
    if i < v.len() - 1 {
        listed_texts(v.drop_last(), i);
        assert(v.drop_last()[i] == v[i]);
    }
}

/// Whether a text is in a list.
fn is_listed(v: &Vec<String>, s: &str) -> (r: bool)
    ensures
        r == text_set(v@).contains(s@),
{
    let mut i: usize = 0;
    let mut found: bool = false;
    while i < v.len()
        invariant
            i <= v.len(),
            found == text_set(v@.take(i as int)).contains(s@),
        decreases v.len() - i,
    {
        proof {
            assert(v@.take(i + 1).drop_last() =~= v@.take(i as int));
        }
        if same(v[i].as_str(), s) {
            found = true;
        }
        i = i + 1;
    }
    proof {
        assert(v@.take(v@.len() as int) =~= v@);
    }
    found
}

/// Adds a text to a list that does not hold it.
fn list_text(v: &mut Vec<String>, s: &str)
    ensures
        text_set(final(v)@) == text_set(old(v)@).insert(s@),
        all_different(old(v)@) ==> all_different(final(v)@),
{
    if !is_listed(v, s) {
        v.push(s.to_string());
        proof {
            assert(v@.drop_last() =~= old(v)@);
            assert forall|i: int| 0 <= i < old(v)@.len() implies (#[trigger] v@[i])@ != s@ by {
                listed_texts(old(v)@, i);
            }
        }
    } else {
        proof {
            assert(text_set(v@).insert(s@) =~= text_set(v@));
        }
    }
}

/// The tokens of markets, each once.
pub fn market_token_ids(markets: &Vec<MarketInfo>) -> (r: Vec<String>)
    ensures
        text_set(r@) == tokens_of(market_views(markets@)),
        all_different(r@),
{
    let mut r: Vec<String> = Vec::new();
    let mut i: usize = 0;
    while i < markets.len()
        invariant
            i <= markets.len(),
            text_set(r@) == tokens_of(market_views(markets@).take(i as int)),
            all_different(r@),
        decreases markets.len() - i,
    {
        proof {
            assert(market_views(markets@).take(i + 1).drop_last() =~= market_views(markets@).take(
                i as int,
            ));
        }
        list_text(&mut r, markets[i].up_token_id.as_str());
        list_text(&mut r, markets[i].down_token_id.as_str());
        i = i + 1;
    }
    proof {
        assert(market_views(markets@).take(i as int) =~= market_views(markets@));
    }
    r
}

/// Whether every text of a list is in another.
fn all_listed(a: &Vec<String>, b: &Vec<String>) -> (r: bool)
    ensures
        r == text_set(a@).subset_of(text_set(b@)),
{
    let mut i: usize = 0;
    let mut all: bool = true;
    while i < a.len()
        invariant
            i <= a.len(),
            all == text_set(a@.take(i as int)).subset_of(text_set(b@)),
        decreases a.len() - i,
    {
        let ghost before = text_set(a@.take(i as int));
        let ghost after = text_set(a@.take(i + 1));
        proof {
            assert(a@.take(i + 1).drop_last() =~= a@.take(i as int));
            assert(after == before.insert(a@[i as int]@));
        }
        let listed: bool = is_listed(b, a[i].as_str());
        proof {
            assert(after.contains(a@[i as int]@));
            assert(after.subset_of(text_set(b@)) ==> before.subset_of(text_set(b@))) by {
                assert(forall|x: Seq<char>| before.contains(x) ==> after.contains(x));
            }
        }
        if !listed {
            all = false;
        }
        i = i + 1;
    }
    proof {
        assert(a@.take(a@.len() as int) =~= a@);
    }
    all
}

/// Whether two lists of windows are the same.
fn same_windows(a: &Vec<i64>, b: &Vec<i64>) -> (r: bool)
    ensures
        r == (a@ == b@),
{
    if a.len() != b.len() {
        return false;
    }
    let mut i: usize = 0;
    while i < a.len()
        invariant
            i <= a.len(),
            a.len() == b.len(),
            a@.take(i as int) == b@.take(i as int),
        decreases a.len() - i,
    {
        if a[i] != b[i] {
            return false;
        }
        proof {
            assert(a@.take(i + 1) =~= a@.take(i as int).push(a@[i as int]));
            assert(b@.take(i + 1) =~= b@.take(i as int).push(b@[i as int]));
        }
        i = i + 1;
    }
    proof {
        assert(a@.take(i as int) =~= a@);
        assert(b@.take(i as int) =~= b@);
    }
    true
}

/// What is known of markets and their opening prices.
pub struct Directory {
    pub markets: Map<i64, Market>,
    pub subscribed: Seq<i64>,
    /// Opening prices.
    pub strikes: Map<i64, i64>,
    /// Windows whose opening price was fetched.
    pub confirmed: Set<i64>,
    pub last_prefetch_ms: i64,
    pub last_limited_ms: i64,
}

/// What is known of markets and their opening prices.
pub struct Subscriptions {
    markets: HashMap<i64, MarketInfo>,
    subscribed: Vec<i64>,
    strikes: HashMap<i64, i64>,
    confirmed: HashSet<i64>,
    last_prefetch_ms: i64,
    last_limited_ms: i64,
}

impl View for Subscriptions {
    type V = Directory;

    closed spec fn view(&self) -> Directory {
        Directory {
            markets: self.markets@.map_values(|m: MarketInfo| m@),
            subscribed: self.subscribed@,
            strikes: self.strikes@,
            confirmed: self.confirmed@,
            last_prefetch_ms: self.last_prefetch_ms,
            last_limited_ms: self.last_limited_ms,
        }
    }
}

/// Whether a window is about to open or has just opened.
pub open spec fn opens_about(start_ts: int, now: int) -> bool {
    now + PREFETCH_LEAD_MS >= start_ts * 1_000 && now <= start_ts * 1_000 + PREFETCH_TAIL_MS
}

/// Whether the opening price of a window is worth fetching.
pub open spec fn wants_strike(d: Directory, start_ts: i64, now: int) -> bool {
    !d.confirmed.contains(start_ts) && opens_about(start_ts as int, now)
}

/// Whether the site has limited requests a short time ago.
pub open spec fn cooling(d: Directory, now: int) -> bool {
    d.last_limited_ms > 0 && now - d.last_limited_ms < COOLING_MS
}

/// Time between fetches.
pub open spec fn prefetch_every(d: Directory, now: int) -> int {
    if exists|i: int| 0 <= i < wanted(now).len() && wants_strike(d, #[trigger] wanted(now)[i], now) {
        PREFETCH_NEAR_MS as int
    } else if cooling(d, now) {
        PREFETCH_COOLING_MS as int
    } else {
        PREFETCH_IDLE_MS as int
    }
}

/// Whether opening prices are fetched now.
pub open spec fn prefetch_due(d: Directory, now: int) -> bool {
    now - d.last_prefetch_ms >= prefetch_every(d, now)
}

/// The windows whose opening prices are fetched now.
pub open spec fn prefetch_windows(d: Directory, now: int) -> Seq<i64> {
    if prefetch_due(d, now) && !cooling(d, now) {
        wanted(now).filter(|s: i64| wants_strike(d, s, now))
    } else {
        Seq::empty()
    }
}

/// The markets of windows, as far as they are known.
pub open spec fn known_markets(d: Directory, starts: Seq<i64>) -> Seq<Market>
    decreases starts.len(),
{
    if starts.len() == 0 {
        Seq::empty()
    } else if d.markets.contains_key(starts.last()) {
        known_markets(d, starts.drop_last()).push(d.markets[starts.last()])
    } else {
        known_markets(d, starts.drop_last())
    }
}

/// Whether the markets of all windows are known.
pub open spec fn all_known(d: Directory, starts: Seq<i64>) -> bool {
    forall|i: int| 0 <= i < starts.len() ==> d.markets.contains_key(#[trigger] starts[i])
}

/// Whether the windows that are wanted only drop tokens that are subscribed to.
pub open spec fn only_drops(d: Directory, now: int) -> bool {
    let had = tokens_of(known_markets(d, d.subscribed));
    let wants = tokens_of(known_markets(d, wanted(now)));
    had != Set::<Seq<char>>::empty() && wants.subset_of(had) && wants != had
}

/// What is done about subscriptions.
#[derive(Debug)]
pub enum SubscribePlan {
    /// Nothing: the windows are the same.
    Unchanged,
    /// Nothing yet: a market is not known.
    Unresolved,
    /// The running subscription serves the windows that are left.
    Rolled,
    /// These markets are subscribed to.
    Subscribe(Vec<MarketInfo>),
}

/// Whether a plan and what it leads to bring the subscriptions up to date.
pub open spec fn is_sync(d: Directory, now: int, after: Directory, r: SubscribePlan) -> bool {
    let desired = wanted(now);
    let next = Directory { subscribed: desired, ..d };
    if desired == d.subscribed {
        r is Unchanged && after == d
    } else if !all_known(d, desired) {
        r is Unresolved && after == d
    } else if only_drops(d, now) {
        r is Rolled && after == next
    } else {
        after == next && (r matches SubscribePlan::Subscribe(markets) && market_views(markets@)
            == known_markets(d, desired))
    }
}

impl Subscriptions {
    /// Nothing is known.
    pub fn new() -> (r: Subscriptions)
        ensures
            r@ == (Directory {
                markets: Map::empty(),
                subscribed: Seq::empty(),
                strikes: Map::empty(),
                confirmed: Set::empty(),
                last_prefetch_ms: 0,
                last_limited_ms: 0,
            }),
    {
        let r: Subscriptions = Subscriptions {
            markets: HashMap::new(),
            subscribed: Vec::new(),
            strikes: HashMap::new(),
            confirmed: HashSet::new(),
            last_prefetch_ms: 0,
            last_limited_ms: 0,
        };
        proof {
            assert(r@.markets =~= Map::<i64, Market>::empty());
            assert(r@.subscribed =~= Seq::<i64>::empty());
            assert(r@.strikes =~= Map::<i64, i64>::empty());
            assert(r@.confirmed =~= Set::<i64>::empty());
        }
        r
    }

    /// Whether a window is subscribed to.
    pub fn is_subscribed(&self, start_ts: i64) -> (r: bool)
        ensures
            r == self@.subscribed.contains(start_ts),
    {
        let mut i: usize = 0;
        while i < self.subscribed.len()
            invariant
                i <= self.subscribed.len(),
                forall|k: int| 0 <= k < i ==> self.subscribed@[k] != start_ts,
            decreases self.subscribed.len() - i,
        {
            if self.subscribed[i] == start_ts {
                return true;
            }
            i = i + 1;
        }
        false
    }

    /// The market of a window, if it is known.
    pub fn market(&self, start_ts: i64) -> (r: Option<MarketInfo>)
        ensures
            match r {
                Some(m) => self@.markets.contains_key(start_ts) && m@ == self@.markets[start_ts],
                None => !self@.markets.contains_key(start_ts),
            },
    {
        broadcast use vstd::std_specs::hash::group_hash_axioms;

        match self.markets.get(&start_ts) {
            Some(m) => Some(m.clone()),
            None => None,
        }
    }

    /// Notes the market of a window.
    pub fn resolved(&mut self, start_ts: i64, market: MarketInfo)
        ensures
            final(self)@ == (Directory {
                markets: old(self)@.markets.insert(start_ts, market@),
                ..old(self)@
            }),
    {
        broadcast use vstd::std_specs::hash::group_hash_axioms;

        let ghost before = self@.markets;
        self.markets.insert(start_ts, market);
        proof {
            assert(self@.markets =~= before.insert(start_ts, market@));
        }
    }

    /// The opening price of a window, if it is known.
    pub fn strike(&self, start_ts: i64) -> (r: Option<i64>)
        ensures
            r == (if self@.strikes.contains_key(start_ts) {
                Some(self@.strikes[start_ts])
            } else {
                None
            }),
    {
        broadcast use vstd::std_specs::hash::group_hash_axioms;

        match self.strikes.get(&start_ts) {
            Some(px) => Some(*px),
            None => None,
        }
    }

    /// Notes the opening price of a window.
    pub fn struck(&mut self, start_ts: i64, ptb: i64)
        ensures
            final(self)@ == (Directory {
                strikes: old(self)@.strikes.insert(start_ts, ptb),
                ..old(self)@
            }),
    {
        broadcast use vstd::std_specs::hash::group_hash_axioms;

        self.strikes.insert(start_ts, ptb);
    }

    /// Notes the opening price of a window that was fetched ahead.
    pub fn prefetched(&mut self, start_ts: i64, ptb: i64)
        ensures
            final(self)@ == (Directory {
                strikes: old(self)@.strikes.insert(start_ts, ptb),
                confirmed: old(self)@.confirmed.insert(start_ts),
                ..old(self)@
            }),
    {
        broadcast use vstd::std_specs::hash::group_hash_axioms;

        self.strikes.insert(start_ts, ptb);
        self.confirmed.insert(start_ts);
    }

    /// Notes that the site has limited requests.
    pub fn rate_limited(&mut self, now: i64)
        ensures
            final(self)@ == (Directory { last_limited_ms: now, ..old(self)@ }),
    {
        self.last_limited_ms = now;
    }

    /// Whether the site has limited requests a short time ago.
    pub fn ptb_429_cooling(&self, now: i64) -> (r: bool)
        ensures
            r == cooling(self@, now as int),
    {
        self.last_limited_ms > 0 && (now as i128) - (self.last_limited_ms as i128)
            < COOLING_MS as i128
    }

    /// Whether the opening price of a window is worth fetching.
    fn wants(&self, start_ts: i64, now: i64) -> (r: bool)
        requires
            time_ok(now as int),
            -MAX_MS <= start_ts <= MAX_MS,
        ensures
            r == wants_strike(self@, start_ts, now as int),
    {
        broadcast use vstd::std_specs::hash::group_hash_axioms;

        if self.confirmed.contains(&start_ts) {
            return false;
        }
        let open: i64 = start_ts * 1_000;
        now + PREFETCH_LEAD_MS >= open && now <= open + PREFETCH_TAIL_MS
    }

    /// The windows whose opening prices are fetched now.
    pub fn prefetch(&mut self, now: i64) -> (r: Vec<i64>)
        requires
            time_ok(now as int),
        ensures
            r@ == prefetch_windows(old(self)@, now as int),
            final(self)@ == (Directory {
                last_prefetch_ms: if prefetch_due(old(self)@, now as int) {
                    now
                } else {
                    old(self)@.last_prefetch_ms
                },
                ..old(self)@
            }),
    {
        let desired: Vec<i64> = subscribe_window_starts(now);
        let ghost d = self@;
        let mut due: Vec<i64> = Vec::new();
        let mut i: usize = 0;
        proof {
            reveal(Seq::filter);
        }
        while i < desired.len()
            invariant
                i <= desired.len(),
                self@ == d,
                d == old(self)@,
                time_ok(now as int),
                desired@ == wanted(now as int),
                due@ == desired@.take(i as int).filter(|s: i64| wants_strike(d, s, now as int)),
                due.len() == 0 <==> forall|k: int|
                    0 <= k < i ==> !wants_strike(d, #[trigger] desired@[k], now as int),
            decreases desired.len() - i,
        {
            proof {
                reveal(Seq::filter);
                assert(desired@.take(i + 1).drop_last() =~= desired@.take(i as int));
                assert(-MAX_MS <= desired@[i as int] <= MAX_MS);
            }
            if self.wants(desired[i], now) {
                due.push(desired[i]);
                assert(wants_strike(d, desired@[i as int], now as int));
            }
            i = i + 1;
        }
        proof {
            assert(desired@.take(i as int) =~= desired@);
            assert(due.len() > 0 <==> exists|k: int|
                0 <= k < wanted(now as int).len() && wants_strike(
                    d,
                    #[trigger] wanted(now as int)[k],
                    now as int,
                ));
        }
        let cooling: bool = self.ptb_429_cooling(now);
        let every: i64 = if due.len() > 0 {
            PREFETCH_NEAR_MS
        } else if cooling {
            PREFETCH_COOLING_MS
        } else {
            PREFETCH_IDLE_MS
        };
        if (now as i128) - (self.last_prefetch_ms as i128) < every as i128 {
            let none: Vec<i64> = Vec::new();
            proof {
                assert(none@ =~= Seq::<i64>::empty());
            }
            return none;
        }
        self.last_prefetch_ms = now;
        if cooling {
            let none: Vec<i64> = Vec::new();
            proof {
                assert(none@ =~= Seq::<i64>::empty());
            }
            return none;
        }
        due
    }

    /// The windows whose markets have to be looked up before subscriptions can
    /// change.
    pub fn unresolved(&self, now: i64) -> (r: Vec<i64>)
        ensures
            r@ == (if wanted(now as int) == self@.subscribed {
                Seq::empty()
            } else {
                wanted(now as int).filter(|s: i64| !self@.markets.contains_key(s))
            }),
    {
        broadcast use vstd::std_specs::hash::group_hash_axioms;

        let desired: Vec<i64> = subscribe_window_starts(now);
        let mut r: Vec<i64> = Vec::new();
        proof {
            reveal(Seq::filter);
            assert(r@ =~= Seq::<i64>::empty());
        }
        if same_windows(&desired, &self.subscribed) {
            return r;
        }
        let mut i: usize = 0;
        while i < desired.len()
            invariant
                i <= desired.len(),
                r@ == desired@.take(i as int).filter(|s: i64| !self@.markets.contains_key(s)),
            decreases desired.len() - i,
        {
            proof {
                reveal(Seq::filter);
                assert(desired@.take(i + 1).drop_last() =~= desired@.take(i as int));
            }
            if !self.markets.contains_key(&desired[i]) {
                r.push(desired[i]);
            }
            i = i + 1;
        }
        proof {
            assert(desired@.take(i as int) =~= desired@);
        }
        r
    }

    /// The markets of windows, as far as they are known.
    fn known(&self, starts: &Vec<i64>) -> (r: Vec<MarketInfo>)
        ensures
            market_views(r@) == known_markets(self@, starts@),
    {
        let mut r: Vec<MarketInfo> = Vec::new();
        let mut i: usize = 0;
        proof {
            assert(market_views(r@) =~= Seq::<Market>::empty());
        }
        while i < starts.len()
            invariant
                i <= starts.len(),
                market_views(r@) == known_markets(self@, starts@.take(i as int)),
            decreases starts.len() - i,
        {
            let ghost before = r@;
            proof {
                assert(starts@.take(i + 1).drop_last() =~= starts@.take(i as int));
            }
            match self.market(starts[i]) {
                Some(m) => {
                    r.push(m);
                    proof {
                        assert(market_views(r@) =~= market_views(before).push(m@));
                    }
                },
                None => {},
            }
            i = i + 1;
        }
        proof {
            assert(starts@.take(i as int) =~= starts@);
        }
        r
    }

    /// Whether the markets of all windows are known.
    fn knows_all(&self, starts: &Vec<i64>) -> (r: bool)
        ensures
            r == all_known(self@, starts@),
    {
        broadcast use vstd::std_specs::hash::group_hash_axioms;

        let mut i: usize = 0;
        while i < starts.len()
            invariant
                i <= starts.len(),
                forall|k: int| 0 <= k < i ==> self@.markets.contains_key(#[trigger] starts@[k]),
            decreases starts.len() - i,
        {
            if !self.markets.contains_key(&starts[i]) {
                assert(!self@.markets.contains_key(starts@[i as int]));
                return false;
            }
            i = i + 1;
        }
        true
    }

    /// Brings the subscriptions up to date.  The next window is subscribed to
    /// before it opens, so that when it opens only tokens that have expired are
    /// left out, and the running subscription is kept.
    pub fn sync(&mut self, now: i64) -> (r: SubscribePlan)
        ensures
            is_sync(old(self)@, now as int, final(self)@, r),
    {
        let desired: Vec<i64> = subscribe_window_starts(now);
        if same_windows(&desired, &self.subscribed) {
            return SubscribePlan::Unchanged;
        }
        if !self.knows_all(&desired) {
            return SubscribePlan::Unresolved;
        }
        let markets: Vec<MarketInfo> = self.known(&desired);
        let old_markets: Vec<MarketInfo> = self.known(&self.subscribed);
        let wants: Vec<String> = market_token_ids(&markets);
        let had: Vec<String> = market_token_ids(&old_markets);
        proof {
            no_texts(had@);
        }
        let drops: bool = had.len() > 0 && all_listed(&wants, &had) && !all_listed(&had, &wants);
        proof {
            let w = text_set(wants@);
            let h = text_set(had@);
            if w.subset_of(h) && h.subset_of(w) {
                assert(w =~= h);
            }
        }
        self.subscribed = desired;
        if drops {
            SubscribePlan::Rolled
        } else {
            SubscribePlan::Subscribe(markets)
        }
    }
}

/// A list has no texts only if it is empty.
proof fn no_texts(v: Seq<String>)
    ensures
        (v.len() == 0) == (text_set(v) == Set::<Seq<char>>::empty()),
{
    if v.len() > 0 {
        assert(text_set(v).contains(v.last()@));
    }
}

/// A window is subscribed to before it opens: at any time in the five seconds
/// before, and when it opens.
pub proof fn a_window_is_wanted_before_it_opens(start_ts: int, now: int)
    requires
        start_ts % 300 == 0,
        start_ts >= 300,
        i64::MIN <= start_ts <= i64::MAX,
        start_ts * 1_000 - 5_000 <= now < (start_ts + 300) * 1_000,
    ensures
        wanted(now).contains(start_ts as i64),
{
    let sec = now / 1_000;
    assert(start_ts - 5 <= sec < start_ts + 300);
    if sec < start_ts {
        assert(sec / 300 == start_ts / 300 - 1);
        assert(window_of(now) == start_ts - 300);
        assert(wanted(now)[1] == start_ts as i64);
    } else {
        assert(sec / 300 == start_ts / 300);
        assert(window_of(now) == start_ts);
        assert(wanted(now)[0] == start_ts as i64);
    }
}

/// When the next window opens, the subscription that serves both windows is
/// kept.  The two windows need different tokens for that.
pub proof fn an_opening_window_keeps_the_subscription(d: Directory, start_ts: int, now: int)
    requires
        start_ts % 300 == 0,
        300 <= start_ts,
        start_ts + 300 <= i64::MAX,
        start_ts * 1_000 <= now < (start_ts + 295) * 1_000,
        d.subscribed == seq![(start_ts - 300) as i64, start_ts as i64],
        d.markets.contains_key((start_ts - 300) as i64),
        d.markets.contains_key(start_ts as i64),
        d.markets[start_ts as i64].up_token_id != d.markets[(start_ts - 300) as i64].up_token_id,
        d.markets[start_ts as i64].down_token_id != d.markets[(start_ts - 300) as i64].up_token_id,
    ensures
        wanted(now) == seq![start_ts as i64],
        all_known(d, wanted(now)),
        only_drops(d, now),
{
    let sec = now / 1_000;
    assert(sec / 300 == start_ts / 300);
    assert(window_of(now) == start_ts);
    let a = d.markets[(start_ts - 300) as i64];
    let b = d.markets[start_ts as i64];
    reveal_with_fuel(known_markets, 3);
    reveal_with_fuel(tokens_of, 3);
    assert(wanted(now).drop_last() =~= Seq::<i64>::empty());
    assert(d.subscribed.drop_last() =~= seq![(start_ts - 300) as i64]);
    assert(d.subscribed.drop_last().drop_last() =~= Seq::<i64>::empty());
    assert(known_markets(d, wanted(now)) =~= seq![b]);
    assert(known_markets(d, d.subscribed) =~= seq![a, b]);
    assert(seq![b].drop_last() =~= Seq::<Market>::empty());
    assert(seq![a, b].drop_last() =~= seq![a]);
    assert(seq![a].drop_last() =~= Seq::<Market>::empty());
    let had = tokens_of(seq![a, b]);
    let wants = tokens_of(seq![b]);
    assert(had.contains(a.up_token_id));
    assert(!wants.contains(a.up_token_id));
}

/// An opening price is worth fetching from ten seconds before its window opens to 45
/// seconds after, as long as it has not been.
pub proof fn strikes_are_wanted_about_the_open(d: Directory, start_ts: i64, now: int)
    ensures
        wants_strike(d, start_ts, now) <==> !d.confirmed.contains(start_ts) && start_ts * 1_000
            - 10_000 <= now <= start_ts * 1_000 + 45_000,
{
}

/// The site is left alone for eight seconds after it has limited requests.
pub proof fn the_site_is_left_alone(d: Directory, now: int)
    ensures
        d.last_limited_ms <= 0 ==> !cooling(d, now),
        d.last_limited_ms > 0 ==> (cooling(d, now) <==> now < d.last_limited_ms + 8_000),
{
}

/// Fetches are 0.4 seconds apart while an opening price is wanted, else eight seconds
/// while the site is left alone and five seconds otherwise.
pub proof fn fetches_keep_their_distance(d: Directory, now: int)
    ensures
        ({
            let near = exists|s: i64| #[trigger]
                wanted(now).contains(s) && !d.confirmed.contains(s) && s * 1_000 - 10_000 <= now
                    <= s * 1_000 + 45_000;
            let limited = d.last_limited_ms > 0 && now < d.last_limited_ms + 8_000;
            let since = now - d.last_prefetch_ms;
            &&& near ==> (prefetch_due(d, now) <==> since >= 400)
            &&& !near && limited ==> (prefetch_due(d, now) <==> since >= 8_000)
            &&& !near && !limited ==> (prefetch_due(d, now) <==> since >= 5_000)
        }),
{
    let w = wanted(now);
    if exists|i: int| 0 <= i < w.len() && wants_strike(d, #[trigger] w[i], now) {
        let i = choose|i: int| 0 <= i < w.len() && wants_strike(d, #[trigger] w[i], now);
        assert(w.contains(w[i]));
    }
    if exists|s: i64| #[trigger]
        w.contains(s) && !d.confirmed.contains(s) && s * 1_000 - 10_000 <= now <= s * 1_000
            + 45_000 {
        let s = choose|s: i64| #[trigger]
            w.contains(s) && !d.confirmed.contains(s) && s * 1_000 - 10_000 <= now <= s * 1_000
                + 45_000;
        let i = choose|i: int| 0 <= i < w.len() && w[i] == s;
        assert(wants_strike(d, w[i], now));
    }
}

/// When a fetch is due, the opening prices that are wanted are fetched, unless the
/// site is left alone; when none is due, none are.
pub proof fn wanted_strikes_are_fetched(d: Directory, now: int, s: i64)
    ensures
        prefetch_windows(d, now).contains(s) <==> {
            &&& prefetch_due(d, now)
            &&& !(d.last_limited_ms > 0 && now < d.last_limited_ms + 8_000)
            &&& wanted(now).contains(s)
            &&& !d.confirmed.contains(s)
            &&& s * 1_000 - 10_000 <= now <= s * 1_000 + 45_000
        },
{
    let w = wanted(now);
    let keep = |s: i64| wants_strike(d, s, now);
    let kept = w.filter(keep);
    if kept.contains(s) {
        let i = choose|i: int| 0 <= i < kept.len() && kept[i] == s;
        w.lemma_filter_pred(keep, i);
        w.lemma_filter_contains_rev(keep, s);
    }
    if w.contains(s) && keep(s) {
        let i = choose|i: int| 0 <= i < w.len() && w[i] == s;
        w.lemma_filter_contains(keep, i);
    }
}

/// The tokens of markets are the UP and DOWN tokens of each.
pub proof fn every_market_has_its_tokens(markets: Seq<Market>, token: Seq<char>)
    ensures
        tokens_of(markets).contains(token) <==> exists|i: int|
            0 <= i < markets.len() && ((#[trigger] markets[i]).up_token_id == token
                || markets[i].down_token_id == token),
    decreases markets.len(),
{
    if markets.len() > 0 {
        let init = markets.drop_last();
        every_market_has_its_tokens(init, token);
        assert(markets.last() == markets[markets.len() - 1]);
        if tokens_of(init).contains(token) {
            let i = choose|i: int|
                0 <= i < init.len() && ((#[trigger] init[i]).up_token_id == token
                    || init[i].down_token_id == token);
            assert(init[i] == markets[i]);
        }
        if exists|i: int|
            0 <= i < markets.len() && ((#[trigger] markets[i]).up_token_id == token
                || markets[i].down_token_id == token) {
            let i = choose|i: int|
                0 <= i < markets.len() && ((#[trigger] markets[i]).up_token_id == token
                    || markets[i].down_token_id == token);
            if i < init.len() {
                assert(init[i] == markets[i]);
            }
        }
    }
}

/// The markets of windows that are all known are theirs, in their order.
pub proof fn known_markets_are_of_their_windows(d: Directory, starts: Seq<i64>)
    requires
        all_known(d, starts),
    ensures
        known_markets(d, starts).len() == starts.len(),
        forall|i: int|
            0 <= i < starts.len() ==> #[trigger] known_markets(d, starts)[i]
                == d.markets[starts[i]],
    decreases starts.len(),
{
    if starts.len() > 0 {
        let init = starts.drop_last();
        assert forall|i: int| 0 <= i < init.len() implies d.markets.contains_key(
            #[trigger] init[i],
        ) by {
            assert(init[i] == starts[i]);
        }
        assert(starts.last() == starts[starts.len() - 1]);
        known_markets_are_of_their_windows(d, init);
    }
}

/// After a change the windows that are wanted are the ones subscribed to; markets and
/// opening prices stay.  Nothing changes while they are the same or a market is not
/// known, and a subscription that has all tokens that are wanted and more is not
/// renewed.
pub proof fn subscriptions_follow_the_windows(
    d: Directory,
    now: int,
    after: Directory,
    r: SubscribePlan,
)
    requires
        is_sync(d, now, after, r),
    ensures
        ({
            let known = forall|i: int|
                0 <= i < wanted(now).len() ==> d.markets.contains_key(#[trigger] wanted(now)[i]);
            let had = tokens_of(known_markets(d, d.subscribed));
            let wants = tokens_of(known_markets(d, wanted(now)));
            &&& wanted(now) == d.subscribed ==> r is Unchanged
            &&& wanted(now) != d.subscribed && !known ==> r is Unresolved
            &&& r is Unchanged || r is Unresolved ==> after == d
            &&& wanted(now) != d.subscribed && known ==> after.subscribed == wanted(now) && after
                == (Directory { subscribed: wanted(now), ..d })
            &&& wanted(now) != d.subscribed && known && wants.subset_of(had) && wants != had && had
                != Set::<Seq<char>>::empty() ==> r is Rolled
            &&& wanted(now) != d.subscribed && known && !(wants.subset_of(had) && wants != had
                && had != Set::<Seq<char>>::empty()) ==> (r matches SubscribePlan::Subscribe(m)
                && market_views(m@) == known_markets(d, wanted(now)))
        }),
{
}

} // verus!
