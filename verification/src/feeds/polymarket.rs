//! Polymarket: the best asks of the subscribed markets' tokens.
use vstd::prelude::*;
use crate::gamma::{views, Market, MarketInfo};
use crate::json::{
    any_amount, field, item_amount, item_is, item_nested, item_text, message_of, nested, read,
    read_message, same_amount, text_item, Item, ItemView, Json, JsonView,
};
use crate::strategy::tape::valid_ask;
use crate::text::{number, number_text, same};
use crate::units::{ask_ok, clamp, clamped, MAX_ASK};

verus! {

/// Quotes of a market's tokens.
#[derive(Clone, Copy, Debug, PartialEq, Eq, Structural)]
pub struct PolyQuote {
    pub t: i64,
    pub start_ts: i64,
    pub up_ask: i64,
    pub down_ask: i64,
}

/// Quotes with their asks held within what the books can take.
pub open spec fn held_quote(q: PolyQuote) -> PolyQuote {
    PolyQuote {
        up_ask: clamped(q.up_ask as int, -MAX_ASK, MAX_ASK as int) as i64,
        down_ask: clamped(q.down_ask as int, -MAX_ASK, MAX_ASK as int) as i64,
        ..q
    }
}

/// Holds the asks of quotes within what the books can take.  That concerns only
/// asks that count for nothing, before and after.
pub fn hold_asks(q: &PolyQuote) -> (r: PolyQuote)
    ensures
        r == held_quote(*q),
        ask_ok(r.up_ask as int),
        ask_ok(r.down_ask as int),
        valid_ask(q.up_ask as int) || ask_ok(q.up_ask as int) ==> r.up_ask == q.up_ask,
        valid_ask(q.down_ask as int) || ask_ok(q.down_ask as int) ==> r.down_ask == q.down_ask,
        valid_ask(r.up_ask as int) == valid_ask(q.up_ask as int),
        valid_ask(r.down_ask as int) == valid_ask(q.down_ask as int),
{
    PolyQuote {
        t: q.t,
        start_ts: q.start_ts,
        up_ask: clamp(q.up_ask, -MAX_ASK, MAX_ASK),
        down_ask: clamp(q.down_ask, -MAX_ASK, MAX_ASK),
    }
}

/// A token of a subscribed market.
#[derive(Debug)]
pub struct Token {
    pub id: String,
    pub start_ts: i64,
    pub is_up: bool,
}

/// The asks that are known of a market's tokens.
#[derive(Clone, Copy, Debug, PartialEq, Eq, Structural)]
pub struct MarketBook {
    pub start_ts: i64,
    pub up_ask: Option<i64>,
    pub down_ask: Option<i64>,
}

/// A token of a subscribed market.
pub struct TokenView {
    pub id: Seq<char>,
    pub start_ts: i64,
    pub is_up: bool,
}

impl View for Token {
    type V = TokenView;

    open spec fn view(&self) -> TokenView {
        TokenView { id: self.id@, start_ts: self.start_ts, is_up: self.is_up }
    }
}

/// The subscribed tokens and what is known of their markets.
pub struct Subscribed {
    pub tokens: Seq<TokenView>,
    pub books: Seq<MarketBook>,
    /// Key of the markets whose subscription has been sent.
    pub key: Seq<char>,
}

/// The markets' views.
pub open spec fn market_views(markets: Seq<MarketInfo>) -> Seq<Market> {
    markets.map_values(|m: MarketInfo| m@)
}

/// The tokens of the first `n` markets.
pub open spec fn tokens_of(markets: Seq<Market>, n: int) -> Seq<TokenView>
    decreases n,
{
    if n <= 0 {
        Seq::empty()
    } else {
        let m = markets[n - 1];
        tokens_of(markets, n - 1).push(
            TokenView { id: m.up_token_id, start_ts: m.start_ts, is_up: true },
        ).push(TokenView { id: m.down_token_id, start_ts: m.start_ts, is_up: false })
    }
}

/// The names of tokens.
pub open spec fn ids_of(tokens: Seq<TokenView>) -> Seq<Seq<char>> {
    tokens.map_values(|t: TokenView| t.id)
}

/// The last of the first `n` tokens with a name.
pub open spec fn token_named(tokens: Seq<TokenView>, id: Seq<char>, n: int) -> Option<TokenView>
    decreases n,
{
    if n <= 0 {
        None
    } else if tokens[n - 1].id == id {
        Some(tokens[n - 1])
    } else {
        token_named(tokens, id, n - 1)
    }
}

/// Position of a market's book at or after `i`, or the number of books.
pub open spec fn book_at(books: Seq<MarketBook>, start_ts: i64, i: int) -> int
    decreases books.len() - i,
{
    if 0 <= i < books.len() && books[i].start_ts != start_ts {
        book_at(books, start_ts, i + 1)
    } else {
        i
    }
}

/// What is known of a market: what was known, nothing if it is new.
pub open spec fn book_kept(books: Seq<MarketBook>, start_ts: i64) -> MarketBook {
    let i = book_at(books, start_ts, 0);
    if i < books.len() {
        books[i]
    } else {
        MarketBook { start_ts, up_ask: None, down_ask: None }
    }
}

/// What is known of the first `n` markets, one book for each.
pub open spec fn books_of(books: Seq<MarketBook>, markets: Seq<Market>, n: int) -> Seq<MarketBook>
    decreases n,
{
    if n <= 0 {
        Seq::empty()
    } else {
        let rest = books_of(books, markets, n - 1);
        let start_ts = markets[n - 1].start_ts;
        if book_at(rest, start_ts, 0) < rest.len() {
            rest
        } else {
            rest.push(book_kept(books, start_ts))
        }
    }
}

/// What is subscribed after the markets have changed.
pub open spec fn resubscribed(s: Subscribed, markets: Seq<Market>) -> Subscribed {
    Subscribed {
        tokens: tokens_of(markets, markets.len() as int),
        books: books_of(s.books, markets, markets.len() as int),
        key: s.key,
    }
}

/// The opening times of the first `n` markets, with commas between them.
pub open spec fn key_of(markets: Seq<Market>, n: int) -> Seq<char>
    decreases n,
{
    if n <= 0 {
        Seq::empty()
    } else if n == 1 {
        number_text(markets[0].start_ts as int)
    } else {
        key_of(markets, n - 1) + ","@ + number_text(markets[n - 1].start_ts as int)
    }
}

/// The price of a level.
pub open spec fn level_price(level: ItemView) -> Option<int> {
    match nested(Some(level)) {
        Some(v) => any_amount(field(v, "price"@)),
        None => None,
    }
}

/// The best price of the first `n` levels: the lowest of asks, the highest of
/// bids.
pub open spec fn best_of(levels: Seq<ItemView>, is_ask: bool, n: int) -> Option<int>
    decreases n,
{
    if n <= 0 {
        None
    } else {
        let best = best_of(levels, is_ask, n - 1);
        match (level_price(levels[n - 1]), best) {
            (None, _) => best,
            (Some(p), None) => Some(p),
            (Some(p), Some(b)) => if (is_ask && p < b) || (!is_ask && p > b) {
                Some(p)
            } else {
                best
            },
        }
    }
}

/// The books after a token's ask has changed.
pub open spec fn ask_set(books: Seq<MarketBook>, token: TokenView, ask: Option<i64>) -> Seq<
    MarketBook,
> {
    let i = book_at(books, token.start_ts, 0);
    if i >= books.len() {
        books
    } else if token.is_up {
        books.update(i, MarketBook { up_ask: ask, ..books[i] })
    } else {
        books.update(i, MarketBook { down_ask: ask, ..books[i] })
    }
}

/// An amount as an ask.
pub open spec fn as_ask(a: Option<int>) -> Option<i64> {
    match a {
        Some(p) => Some(p as i64),
        None => None,
    }
}

/// The token that a message names.
pub open spec fn named_token(s: Subscribed, v: JsonView) -> Option<TokenView> {
    let id = match text_item(field(v, "asset_id"@)) {
        Some(t) => t,
        None => Seq::empty(),
    };
    token_named(s.tokens, id, s.tokens.len() as int)
}

/// The books after a full book: its best ask is the token's, none if it has no
/// asks.
pub open spec fn book_applied(s: Subscribed, v: JsonView) -> Seq<MarketBook> {
    match (named_token(s, v), nested(field(v, "asks"@))) {
        (Some(token), Some(JsonView::Array(levels))) => ask_set(
            s.books,
            token,
            as_ask(best_of(levels, true, levels.len() as int)),
        ),
        _ => s.books,
    }
}

/// The books after a change of a token's best ask.
pub open spec fn change_applied(s: Subscribed, v: JsonView) -> Seq<MarketBook> {
    match (named_token(s, v), any_amount(field(v, "best_ask"@))) {
        (Some(token), Some(ask)) => ask_set(s.books, token, Some(ask as i64)),
        _ => s.books,
    }
}

/// The books after the first `n` changes of a list.
pub open spec fn changes_applied(s: Subscribed, changes: Seq<ItemView>, n: int) -> Seq<MarketBook>
    decreases n,
{
    if n <= 0 {
        s.books
    } else {
        let before = Subscribed { books: changes_applied(s, changes, n - 1), ..s };
        match nested(Some(changes[n - 1])) {
            Some(v) => change_applied(before, v),
            None => before.books,
        }
    }
}

/// What is subscribed after a message.
pub open spec fn message_applied(s: Subscribed, v: JsonView) -> Subscribed {
    let kind = text_item(field(v, "event_type"@));
    Subscribed {
        books: if kind == Some("book"@) {
            book_applied(s, v)
        } else if kind == Some("best_bid_ask"@) {
            change_applied(s, v)
        } else if kind == Some("price_change"@) {
            match nested(field(v, "price_changes"@)) {
                Some(JsonView::Array(changes)) => changes_applied(
                    s,
                    changes,
                    changes.len() as int,
                ),
                _ => s.books,
            }
        } else {
            s.books
        },
        ..s
    }
}

/// The quotes of the first `n` books that have both asks.
pub open spec fn quotes_of(books: Seq<MarketBook>, t: i64, n: int) -> Seq<PolyQuote>
    decreases n,
{
    if n <= 0 {
        Seq::empty()
    } else {
        let rest = quotes_of(books, t, n - 1);
        let b = books[n - 1];
        match (b.up_ask, b.down_ask) {
            (Some(up), Some(down)) => rest.push(
                PolyQuote { t, start_ts: b.start_ts, up_ask: up, down_ask: down },
            ),
            _ => rest,
        }
    }
}

/// The opening times of markets, with commas between them.
pub fn subscription_key(markets: &Vec<MarketInfo>) -> (r: String)
    ensures
        r@ == key_of(market_views(markets@), markets.len() as int),
{
    let ghost view = market_views(markets@);
    let mut r: String = String::new();
    let mut n: usize = 0;
    while n < markets.len()
        invariant
            n <= markets.len(),
            view == market_views(markets@),
            r@ == key_of(view, n as int),
        decreases markets.len() - n,
    {
        proof {
            assert(view[n as int] == markets@[n as int]@);
        }
        if n > 0 {
            r.append(",");
        }
        r.append(number(markets[n].start_ts).as_str());
        proof {
            if n == 0 {
                assert(r@ =~= number_text(view[0].start_ts as int));
            }
        }
        n = n + 1;
    }
    r
}

/// The best price of levels.
pub fn best_price(levels: &Vec<Item>, is_ask: bool) -> (r: Option<i64>)
    ensures
        same_amount(
            r,
            best_of(levels@.map_values(|i: Item| i@), is_ask, levels.len() as int),
        ),
{
    let ghost view = levels@.map_values(|i: Item| i@);
    let mut best: Option<i64> = None;
    let mut n: usize = 0;
    while n < levels.len()
        invariant
            n <= levels.len(),
            view == levels@.map_values(|i: Item| i@),
            same_amount(best, best_of(view, is_ask, n as int)),
        decreases levels.len() - n,
    {
        proof {
            assert(view[n as int] == levels@[n as int]@);
        }
        let price: Option<i64> = match item_nested(Some(&levels[n])) {
            Some(level) => item_amount(level.get("price")),
            None => None,
        };
        if let Some(p) = price {
            let better: bool = match best {
                None => true,
                Some(b) => (is_ask && p < b) || (!is_ask && p > b),
            };
            if better {
                best = Some(p);
            }
        }
        n = n + 1;
    }
    best
}

/// The subscribed tokens and what is known of their markets.
pub struct PolyFeed {
    pub tokens: Vec<Token>,
    pub books: Vec<MarketBook>,
    pub key: String,
}

impl View for PolyFeed {
    type V = Subscribed;

    open spec fn view(&self) -> Subscribed {
        Subscribed {
            tokens: self.tokens@.map_values(|t: Token| t@),
            books: self.books@,
            key: self.key@,
        }
    }
}

/// Position of a market's book.
fn find_book(books: &Vec<MarketBook>, start_ts: i64) -> (r: usize)
    ensures
        r == book_at(books@, start_ts, 0),
        r <= books.len(),
{
    let mut i: usize = 0;
    while i < books.len() && books[i].start_ts != start_ts
        invariant
            i <= books.len(),
            book_at(books@, start_ts, 0) == book_at(books@, start_ts, i as int),
        decreases books.len() - i,
    {
        i = i + 1;
    }
    i
}

impl PolyFeed {
    /// Nothing subscribed.
    pub fn new() -> (r: PolyFeed)
        ensures
            r@ == (Subscribed { tokens: Seq::empty(), books: Seq::empty(), key: Seq::empty() }),
    {
        let r: PolyFeed = PolyFeed {
            tokens: Vec::new(),
            books: Vec::new(),
            key: String::new(),
        };
        proof {
            assert(r@.key =~= Seq::<char>::empty());
            assert(r@.tokens =~= Seq::<TokenView>::empty());
            assert(r@.books =~= Seq::<MarketBook>::empty());
        }
        r
    }

    /// Subscribes to markets, and gives the names of their tokens.
    pub fn subscribe(&mut self, markets: &Vec<MarketInfo>) -> (r: Vec<String>)
        ensures
            final(self)@ == resubscribed(old(self)@, market_views(markets@)),
            views(r@) == ids_of(final(self)@.tokens),
    {
        let ghost view = market_views(markets@);
        let ghost before = self.books@;
        let mut tokens: Vec<Token> = Vec::new();
        let mut ids: Vec<String> = Vec::new();
        let mut books: Vec<MarketBook> = Vec::new();
        let mut n: usize = 0;
        proof {
            assert(tokens@.map_values(|t: Token| t@) =~= Seq::<TokenView>::empty());
            assert(views(ids@) =~= ids_of(tokens@.map_values(|t: Token| t@)));
        }
        while n < markets.len()
            invariant
                n <= markets.len(),
                view == market_views(markets@),
                self.books@ == before,
                self.key@ == old(self).key@,
                tokens@.map_values(|t: Token| t@) == tokens_of(view, n as int),
                views(ids@) == ids_of(tokens_of(view, n as int)),
                books@ == books_of(before, view, n as int),
            decreases markets.len() - n,
        {
            let m: &MarketInfo = &markets[n];
            proof {
                assert(view[n as int] == markets@[n as int]@);
            }
            let up: Token = Token { id: m.up_token_id.clone(), start_ts: m.start_ts, is_up: true };
            let down: Token = Token {
                id: m.down_token_id.clone(),
                start_ts: m.start_ts,
                is_up: false,
            };
            let ghost ids_before = ids@;
            ids.push(m.up_token_id.clone());
            ids.push(m.down_token_id.clone());
            tokens.push(up);
            tokens.push(down);
            proof {
                assert(tokens@.map_values(|t: Token| t@) =~= tokens_of(view, n + 1));
                assert(views(ids@) =~= views(ids_before).push(m.up_token_id@).push(
                    m.down_token_id@,
                ));
                assert(ids_of(tokens_of(view, n + 1)) =~= ids_of(tokens_of(view, n as int)).push(
                    m.up_token_id@,
                ).push(m.down_token_id@));
            }
            if find_book(&books, m.start_ts) >= books.len() {
                let i: usize = find_book(&self.books, m.start_ts);
                let book: MarketBook = if i < self.books.len() {
                    self.books[i]
                } else {
                    MarketBook { start_ts: m.start_ts, up_ask: None, down_ask: None }
                };
                books.push(book);
            }
            n = n + 1;
        }
        self.tokens = tokens;
        self.books = books;
        ids
    }

    /// Notes that the subscription to markets has been sent.
    pub fn sent(&mut self, markets: &Vec<MarketInfo>)
        ensures
            final(self)@ == (Subscribed {
                key: key_of(market_views(markets@), markets.len() as int),
                ..old(self)@
            }),
    {
        self.key = subscription_key(markets);
    }

    /// Whether the subscription to markets has been sent.
    pub fn is_current(&self, markets: &Vec<MarketInfo>) -> (r: bool)
        ensures
            r == (self@.key == key_of(market_views(markets@), markets.len() as int)),
    {
        same(self.key.as_str(), subscription_key(markets).as_str())
    }

    /// The token with a name.
    fn token(&self, id: &str) -> (r: Option<(i64, bool)>)
        ensures
            match (r, token_named(self@.tokens, id@, self@.tokens.len() as int)) {
                (Some(a), Some(b)) => a.0 == b.start_ts && a.1 == b.is_up,
                (None, None) => true,
                _ => false,
            },
    {
        let ghost view = self@.tokens;
        let mut n: usize = self.tokens.len();
        while n > 0
            invariant
                n <= self.tokens.len(),
                view == self.tokens@.map_values(|t: Token| t@),
                token_named(view, id@, n as int) == token_named(view, id@, view.len() as int),
                view == self@.tokens,
            decreases n,
        {
            proof {
                assert(view[n - 1] == self.tokens@[n - 1]@);
            }
            if same(self.tokens[n - 1].id.as_str(), id) {
                return Some((self.tokens[n - 1].start_ts, self.tokens[n - 1].is_up));
            }
            n = n - 1;
        }
        None
    }

    /// The token that a message names.
    fn named(&self, v: &Json) -> (r: Option<(i64, bool)>)
        ensures
            match (r, named_token(self@, v@)) {
                (Some(a), Some(b)) => a.0 == b.start_ts && a.1 == b.is_up,
                (None, None) => true,
                _ => false,
            },
    {
        let id: String = match item_text(v.get("asset_id")) {
            Some(t) => t,
            None => String::new(),
        };
        self.token(id.as_str())
    }

    /// Sets a token's ask.
    fn set_ask(&mut self, token: (i64, bool), ask: Option<i64>)
        requires
        ensures
            final(self)@.tokens == old(self)@.tokens,
            final(self)@.key == old(self)@.key,
            forall|t: TokenView|
                t.start_ts == token.0 && t.is_up == token.1 ==> final(self)@.books
                    == #[trigger] ask_set(old(self)@.books, t, ask),
    {
        let i: usize = find_book(&self.books, token.0);
        if i < self.books.len() {
            let mut book: MarketBook = self.books[i];
            proof {
                assert(book == self@.books[i as int]);
            }
            if token.1 {
                book.up_ask = ask;
            } else {
                book.down_ask = ask;
            }
            self.books.set(i, book);
        }
    }

    /// Applies a change of a token's best ask.
    fn apply_change(&mut self, v: &Json)
        ensures
            final(self)@.tokens == old(self)@.tokens,
            final(self)@.key == old(self)@.key,
            final(self)@.books == change_applied(old(self)@, v@),
    {
        if let Some(token) = self.named(v) {
            let ask: Option<i64> = item_amount(v.get("best_ask"));
            if ask.is_some() {
                self.set_ask(token, ask);
            }
        }
    }

    /// Applies a message that has been read.
    pub fn apply_msg(&mut self, v: &Json)
        ensures
            final(self)@ == message_applied(old(self)@, v@),
    {
        let kind: Option<&Item> = v.get("event_type");
        if item_is(kind, "book") {
            if let Some(token) = self.named(v) {
                if let Some(Json::Array(levels)) = item_nested(v.get("asks")) {
                    let best: Option<i64> = best_price(&levels, true);
                    self.set_ask(token, best);
                }
            }
        } else if item_is(kind, "best_bid_ask") {
            self.apply_change(v);
        } else if item_is(kind, "price_change") {
            if let Some(Json::Array(changes)) = item_nested(v.get("price_changes")) {
                let ghost view = changes@.map_values(|i: Item| i@);
                let ghost before = self@;
                let mut n: usize = 0;
                while n < changes.len()
                    invariant
                        n <= changes.len(),
                        view == changes@.map_values(|i: Item| i@),
                        self@.tokens == before.tokens,
                        self@.key == before.key,
                        self@.books == changes_applied(before, view, n as int),
                    decreases changes.len() - n,
                {
                    proof {
                        assert(view[n as int] == changes@[n as int]@);
                    }
                    let inner: Option<Json> = item_nested(Some(&changes[n]));
                    if let Some(change) = inner {
                        self.apply_change(&change);
                    }
                    n = n + 1;
                }
            }
        }
    }

    /// Applies a message's text, whatever the white space around it, and gives the
    /// quotes at `t` of the markets with both asks; nothing for a text that is not
    /// JSON.
    pub fn apply_text(&mut self, text: &str, t: i64) -> (r: Vec<PolyQuote>)
        ensures
            match message_of(text@) {
                Some(v) => {
                    &&& final(self)@ == message_applied(old(self)@, v)
                    &&& r@ == quotes_of(
                        final(self)@.books,
                        t,
                        final(self)@.books.len() as int,
                    )
                },
                None => final(self)@ == old(self)@ && r@ == Seq::<PolyQuote>::empty(),
            },
    {
        match read_message(text) {
            Some(v) => {
                self.apply_msg(&v);
                self.quotes(t)
            },
            None => Vec::new(),
        }
    }

    /// The quotes at `t` of the markets with both asks.
    pub fn quotes(&self, t: i64) -> (r: Vec<PolyQuote>)
        ensures
            r@ == quotes_of(self@.books, t, self@.books.len() as int),
    {
        let mut r: Vec<PolyQuote> = Vec::new();
        let mut n: usize = 0;
        while n < self.books.len()
            invariant
                n <= self.books.len(),
                r@ == quotes_of(self@.books, t, n as int),
            decreases self.books.len() - n,
        {
            let b: MarketBook = self.books[n];
            proof {
                assert(b == self@.books[n as int]);
            }
            if let (Some(up_ask), Some(down_ask)) = (b.up_ask, b.down_ask) {
                r.push(PolyQuote { t, start_ts: b.start_ts, up_ask, down_ask });
            }
            n = n + 1;
        }
        r
    }
}

/// The best of asks is the price of one of them, and none has a lower one; the
/// best of bids likewise the highest.
pub proof fn the_best_price_is_the_best(levels: Seq<ItemView>, is_ask: bool, n: int)
    requires
        0 <= n <= levels.len(),
    ensures
        match best_of(levels, is_ask, n) {
            Some(best) => {
                &&& exists|k: int|
                    0 <= k < n && level_price(#[trigger] levels[k]) == Some(best)
                &&& forall|k: int|
                    0 <= k < n ==> (level_price(#[trigger] levels[k]) matches Some(p) ==> if is_ask {
                        best <= p
                    } else {
                        best >= p
                    })
            },
            None => forall|k: int| 0 <= k < n ==> level_price(#[trigger] levels[k]) is None,
        },
    decreases n,
{
    if n > 0 {
        the_best_price_is_the_best(levels, is_ask, n - 1);
        let best = best_of(levels, is_ask, n - 1);
        let p = level_price(levels[n - 1]);
        if best is Some && best_of(levels, is_ask, n) == best {
            let k = choose|k: int|
                0 <= k < n - 1 && level_price(#[trigger] levels[k]) == Some(best->0);
            assert(level_price(levels[k]) == Some(best->0));
        }
    }
}

/// A market that stays subscribed keeps what is known of it.
pub proof fn markets_that_stay_keep_their_asks(
    s: Subscribed,
    markets: Seq<Market>,
    n: int,
    start_ts: i64,
)
    requires
        0 <= n <= markets.len(),
        exists|k: int| 0 <= k < n && (#[trigger] markets[k]).start_ts == start_ts,
    ensures
        ({
            let books = books_of(s.books, markets, n);
            let i = book_at(books, start_ts, 0);
            0 <= i < books.len() && books[i] == book_kept(s.books, start_ts)
        }),
    decreases n,
{
    let books = books_of(s.books, markets, n);
    let rest = books_of(s.books, markets, n - 1);
    let added = markets[n - 1].start_ts;
    books_have_their_times(s.books, markets, n - 1);
    if exists|k: int| 0 <= k < n - 1 && (#[trigger] markets[k]).start_ts == start_ts {
        markets_that_stay_keep_their_asks(s, markets, n - 1, start_ts);
        book_found(rest, start_ts, 0);
        book_found(books, start_ts, 0);
        let i = book_at(rest, start_ts, 0);
        assert(books[i] == rest[i]);
        let j = book_at(books, start_ts, 0);
        assert(j <= i);
        assert(books[j] == rest[j]);
    } else {
        assert(added == start_ts);
        book_found(rest, start_ts, 0);
        book_found(books, start_ts, 0);
        book_found(s.books, start_ts, 0);
        if book_at(rest, start_ts, 0) < rest.len() {
            let i = book_at(rest, start_ts, 0);
            let k = choose|k: int|
                0 <= k < n - 1 && (#[trigger] markets[k]).start_ts == rest[i].start_ts;
            assert(markets[k].start_ts == start_ts);
        } else {
            let last = books.len() - 1;
            assert(books[last] == book_kept(s.books, start_ts));
            assert(forall|k: int| 0 <= k < rest.len() ==> #[trigger] books[k] == rest[k]);
        }
    }
}

proof fn book_found(books: Seq<MarketBook>, start_ts: i64, i: int)
    requires
        0 <= i <= books.len(),
    ensures
        i <= book_at(books, start_ts, i) <= books.len(),
        forall|k: int|
            i <= k < book_at(books, start_ts, i) ==> (#[trigger] books[k]).start_ts != start_ts,
        book_at(books, start_ts, i) < books.len() ==> books[book_at(books, start_ts, i)].start_ts
            == start_ts,
    decreases books.len() - i,
{
    if i < books.len() && books[i].start_ts != start_ts {
        book_found(books, start_ts, i + 1);
    }
}

proof fn books_have_their_times(books: Seq<MarketBook>, markets: Seq<Market>, n: int)
    requires
        n <= markets.len(),
    ensures
        forall|i: int|
            0 <= i < books_of(books, markets, n).len() ==> exists|k: int|
                0 <= k < n && (#[trigger] markets[k]).start_ts == (#[trigger] books_of(
                    books,
                    markets,
                    n,
                )[i]).start_ts,
    decreases n,
{
    if n > 0 {
        books_have_their_times(books, markets, n - 1);
        let rest = books_of(books, markets, n - 1);
        let all = books_of(books, markets, n);
        let start_ts = markets[n - 1].start_ts;
        book_found(books, start_ts, 0);
        assert forall|i: int| 0 <= i < all.len() implies exists|k: int|
            0 <= k < n && (#[trigger] markets[k]).start_ts == (#[trigger] all[i]).start_ts by {
            if i < rest.len() {
                assert(all[i] == rest[i]);
                let k = choose|k: int|
                    0 <= k < n - 1 && (#[trigger] markets[k]).start_ts == rest[i].start_ts;
                assert(markets[k].start_ts == all[i].start_ts);
            } else {
                assert(markets[n - 1].start_ts == all[i].start_ts);
            }
        }
    }
}

} // verus!
