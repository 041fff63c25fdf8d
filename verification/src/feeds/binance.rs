//! Binance: the middle of the best bid and ask.
use vstd::prelude::*;
use crate::json::{
    field, item_nested, item_text, item_text_amount, item_whole, json_of, nested, read,
    same_amount, text_amount, text_item, whole_item, Item, Json, JsonView,
};
use crate::text::{contains, has_part};
use crate::units::{abs, magnitude, time_ok, CENT};

verus! {

/// How long the stream is quiet before prices are asked for.
pub const REST_POLL_MS: i64 = 2_000;

/// A price of bitcoin.
#[derive(Clone, Copy, Debug, PartialEq, Eq, Structural)]
pub struct BtcQuote {
    pub t: i64,
    pub price: i64,
}

/// The middle of a bid and an ask that are both above nothing.
pub open spec fn middle(bid: Option<int>, ask: Option<int>) -> Option<int> {
    match (bid, ask) {
        (Some(b), Some(a)) => if b > 0 && a > 0 {
            Some((b + a) / 2)
        } else {
            None
        },
        _ => None,
    }
}

/// The middle of a bid and an ask that are both above nothing.
pub fn mid(bid: Option<i64>, ask: Option<i64>) -> (r: Option<i64>)
    ensures
        forall|b: Option<int>, a: Option<int>|
            same_amount(bid, b) && same_amount(ask, a) ==> same_amount(r, #[trigger] middle(b, a)),
        r matches Some(p) ==> p >= 0,
{
    match (bid, ask) {
        (Some(b), Some(a)) => if b > 0 && a > 0 {
            Some(((b as i128 + a as i128) / 2) as i64)
        } else {
            None
        },
        _ => None,
    }
}

/// Whether a message of a stream is a quote: no trade, and either of the quote
/// stream or with a bid and an ask.
pub open spec fn is_quote(stream: Seq<char>, data: JsonView) -> bool {
    !has_part(stream, "aggTrade"@) && (has_part(stream, "bookTicker"@) || (field(data, "b"@) is Some
        && field(data, "a"@) is Some))
}

/// The quote that a message of a stream is; its time is the event's, else now.
pub open spec fn quote_of(stream: Seq<char>, data: JsonView, now_ms: i64) -> Option<BtcQuote> {
    if is_quote(stream, data) {
        match middle(text_amount(field(data, "b"@)), text_amount(field(data, "a"@))) {
            Some(price) => Some(
                BtcQuote {
                    t: match whole_item(field(data, "E"@)) {
                        Some(t) => t as i64,
                        None => now_ms,
                    },
                    price: price as i64,
                },
            ),
            None => None,
        }
    } else {
        None
    }
}

/// The stream that a message names, or nothing.
pub open spec fn stream_of(v: JsonView) -> Seq<char> {
    match text_item(field(v, "stream"@)) {
        Some(s) => s,
        None => Seq::empty(),
    }
}

/// The quote that a message is: that of its data if it has any, else its own.
pub open spec fn message_quote(v: JsonView, now_ms: i64) -> Option<BtcQuote> {
    match field(v, "data"@) {
        None => quote_of(Seq::empty(), v, now_ms),
        Some(item) => match nested(Some(item)) {
            Some(data) => quote_of(stream_of(v), data, now_ms),
            None => None,
        },
    }
}

/// The quote that a message of a stream is.
pub fn book_ticker_mid(stream: &str, data: &Json, now_ms: i64) -> (r: Option<BtcQuote>)
    ensures
        r == quote_of(stream@, data@, now_ms),
        r matches Some(q) ==> q.price >= 0,
{
    if contains(stream, "aggTrade") {
        return None;
    }
    if !contains(stream, "bookTicker") && (data.get("b").is_none() || data.get("a").is_none()) {
        return None;
    }
    match mid(item_text_amount(data.get("b")), item_text_amount(data.get("a"))) {
        Some(price) => {
            let t: i64 = match item_whole(data.get("E")) {
                Some(t) => t,
                None => now_ms,
            };
            Some(BtcQuote { t, price })
        },
        None => None,
    }
}

/// The quote that a message is.
pub fn message_mid(v: &Json, now_ms: i64) -> (r: Option<BtcQuote>)
    ensures
        r == message_quote(v@, now_ms),
        r matches Some(q) ==> q.price >= 0,
{
    let data: Option<&Item> = v.get("data");
    if data.is_none() {
        let empty: String = String::new();
        return book_ticker_mid(empty.as_str(), v, now_ms);
    }
    let stream: String = match item_text(v.get("stream")) {
        Some(s) => s,
        None => String::new(),
    };
    match item_nested(data) {
        Some(inner) => book_ticker_mid(stream.as_str(), &inner, now_ms),
        None => None,
    }
}

/// The quote that a text is.
pub fn parse_book_ticker_mid(text: &str, now_ms: i64) -> (r: Option<BtcQuote>)
    ensures
        r == match json_of(text@) {
            Some(v) => message_quote(v, now_ms),
            None => None,
        },
        r matches Some(q) ==> q.price >= 0,
{
    match read(text) {
        Some(v) => message_mid(&v, now_ms),
        None => None,
    }
}

/// The quote of an answer to a request, at `now_ms`.
pub open spec fn rest_quote(v: JsonView, now_ms: i64) -> Option<BtcQuote> {
    match middle(text_amount(field(v, "bidPrice"@)), text_amount(field(v, "askPrice"@))) {
        Some(price) => Some(BtcQuote { t: now_ms, price: price as i64 }),
        None => None,
    }
}

/// The quote of an answer to a request.
pub fn rest_mid(v: &Json, now_ms: i64) -> (r: Option<BtcQuote>)
    ensures
        r == rest_quote(v@, now_ms),
        r matches Some(q) ==> q.price >= 0,
{
    match mid(item_text_amount(v.get("bidPrice")), item_text_amount(v.get("askPrice"))) {
        Some(price) => Some(BtcQuote { t: now_ms, price }),
        None => None,
    }
}

/// The quote of the text of an answer to a request.
pub fn parse_rest_mid(text: &str, now_ms: i64) -> (r: Option<BtcQuote>)
    ensures
        r == match json_of(text@) {
            Some(v) => rest_quote(v, now_ms),
            None => None,
        },
        r matches Some(q) ==> q.price >= 0,
{
    match read(text) {
        Some(v) => rest_mid(&v, now_ms),
        None => None,
    }
}

/// The stream of quotes, with prices that are asked for as its backup.
#[derive(Clone, Copy, Debug, PartialEq, Eq, Structural)]
pub struct BinanceFeed {
    /// Last price that was passed on.
    pub last_mid: Option<i64>,
    /// When the stream last spoke.
    pub last_ws_ms: i64,
}

/// Whether a message keeps the stream alive.
pub open spec fn keeps_alive(text: Seq<char>) -> bool {
    has_part(text, "bookTicker"@) || has_part(text, "aggTrade"@)
}

/// The price of a message of the stream.
pub open spec fn streamed(text: Seq<char>, now_ms: i64) -> Option<BtcQuote> {
    match json_of(text) {
        Some(v) => message_quote(v, now_ms),
        None => None,
    }
}

/// The feed after a message.
pub open spec fn feed_spoken(f: BinanceFeed, text: Seq<char>, now_ms: i64) -> BinanceFeed {
    BinanceFeed {
        last_ws_ms: if keeps_alive(text) {
            now_ms
        } else {
            f.last_ws_ms
        },
        last_mid: match streamed(text, now_ms) {
            Some(q) => Some(q.price),
            None => f.last_mid,
        },
    }
}

/// Whether the stream has been quiet long enough to ask for a price.
pub open spec fn is_quiet(f: BinanceFeed, now_ms: int) -> bool {
    now_ms - f.last_ws_ms >= REST_POLL_MS
}

/// Whether a price is the last one to less than a cent.
pub open spec fn repeats(f: BinanceFeed, price: int) -> bool {
    f.last_mid matches Some(p) && magnitude(p - price) < CENT
}

/// Whether a feed is in range.
pub open spec fn feed_ok(f: BinanceFeed) -> bool {
    time_ok(f.last_ws_ms as int) && (f.last_mid matches Some(p) ==> p >= 0)
}

impl BinanceFeed {
    /// A stream that has just been opened.
    pub fn new(now_ms: i64) -> (r: BinanceFeed)
        ensures
            r == (BinanceFeed { last_mid: None, last_ws_ms: now_ms }),
    {
        BinanceFeed { last_mid: None, last_ws_ms: now_ms }
    }

    /// Takes a message of the stream and gives the price to pass on.
    pub fn on_text(&mut self, text: &str, now_ms: i64) -> (r: Option<BtcQuote>)
        requires
            feed_ok(*old(self)),
            time_ok(now_ms as int),
        ensures
            r == streamed(text@, now_ms),
            *final(self) == feed_spoken(*old(self), text@, now_ms),
            feed_ok(*final(self)),
    {
        if contains(text, "bookTicker") || contains(text, "aggTrade") {
            self.last_ws_ms = now_ms;
        }
        let q: Option<BtcQuote> = parse_book_ticker_mid(text, now_ms);
        match q {
            Some(q) => {
                self.last_mid = Some(q.price);
            },
            None => {},
        }
        q
    }

    /// Whether a price is to be asked for.
    pub fn rest_due(&self, now_ms: i64) -> (r: bool)
        requires
            feed_ok(*self),
            time_ok(now_ms as int),
        ensures
            r == is_quiet(*self, now_ms as int),
    {
        now_ms - self.last_ws_ms >= REST_POLL_MS
    }

    /// Takes a price that was asked for and gives the one to pass on: none that
    /// repeats the last one.
    pub fn on_rest(&mut self, q: BtcQuote) -> (r: Option<BtcQuote>)
        requires
            feed_ok(*old(self)),
            q.price >= 0,
        ensures
            r == (if repeats(*old(self), q.price as int) {
                None
            } else {
                Some(q)
            }),
            *final(self) == (BinanceFeed {
                last_mid: if r is Some {
                    Some(q.price)
                } else {
                    old(self).last_mid
                },
                ..*old(self)
            }),
            feed_ok(*final(self)),
    {
        match self.last_mid {
            Some(p) => if abs(p - q.price) < CENT {
                return None;
            },
            None => {},
        }
        self.last_mid = Some(q.price);
        Some(q)
    }
}

/// While the stream speaks, no price is asked for: not in the two seconds after
/// any of its messages.
pub proof fn a_speaking_stream_is_not_doubled(
    f: BinanceFeed,
    text: Seq<char>,
    now_ms: i64,
    later: int,
)
    requires
        keeps_alive(text),
        later < now_ms + REST_POLL_MS,
    ensures
        !is_quiet(feed_spoken(f, text, now_ms), later),
{
}

/// A price that the stream has passed on is not passed on again when it is
/// asked for.
pub proof fn the_backup_repeats_no_price(f: BinanceFeed, text: Seq<char>, now_ms: i64)
    requires
        streamed(text, now_ms) is Some,
    ensures
        repeats(
            feed_spoken(f, text, now_ms),
            streamed(text, now_ms)->0.price as int,
        ),
{
}

/// The wait before the next attempt to connect: twice the last one, half a
/// minute at most.
pub fn next_backoff(seconds: u64) -> (r: u64)
    ensures
        r == (if seconds >= 15 {
            30
        } else {
            2 * seconds
        }),
{
    if seconds >= 15 {
        30
    } else {
        2 * seconds
    }
}

} // verus!
