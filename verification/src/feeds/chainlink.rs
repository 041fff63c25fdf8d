//! The thirty-second average and the spot price behind it.
use vstd::prelude::*;
use crate::json::{
    any_amount, field, item_amount, item_is, item_nested, item_text, item_whole, message_of,
    nested, read, read_message, text_item, whole_item, Item, ItemView, Json, JsonView,
};
use crate::text::{lowered, same, to_lower};
use super::binance::BtcQuote;

verus! {

/// How long the average keeps the spot price out.
pub const TWAP_FRESH_MS: i64 = 15_000;

/// How deep arrays in arrays are read.
pub const MAX_DEPTH: u64 = 128;

/// Whether a topic is the average.
pub open spec fn is_average(topic: Option<Seq<char>>) -> bool {
    topic == Some("crypto_prices_twap_thirty"@)
}

/// Whether a topic is the spot price.
pub open spec fn is_spot(topic: Option<Seq<char>>) -> bool {
    topic == Some("crypto_prices_chainlink"@) || topic == Some("prices.crypto.chainlink"@)
}

/// The time of a payload: its own if it is in milliseconds, else now.
pub open spec fn payload_time(payload: JsonView, now_ms: i64) -> i64 {
    match whole_item(field(payload, "timestamp"@)) {
        Some(t) => if t > 1_000_000_000_000 {
            t as i64
        } else {
            now_ms
        },
        None => now_ms,
    }
}

/// The price of a bitcoin payload at its time.
pub open spec fn payload_quote(payload: JsonView, now_ms: i64) -> Option<BtcQuote> {
    let symbol = match text_item(field(payload, "symbol"@)) {
        Some(s) => lowered(s),
        None => "btc/usd"@,
    };
    match any_amount(field(payload, "value"@)) {
        Some(p) => if symbol == "btc/usd"@ && p > 0 {
            Some(BtcQuote { t: payload_time(payload, now_ms), price: p as i64 })
        } else {
            None
        },
        None => None,
    }
}

/// The prices that have come in and the time of the last average.
pub struct Oracle {
    pub quotes: Seq<BtcQuote>,
    pub last_twap_ms: int,
}

/// What a quote of the average or of the spot price adds: the average always
/// counts, the spot price while the average is not fresh.
pub open spec fn quote_counted(o: Oracle, average: bool, q: BtcQuote) -> Oracle {
    if average {
        Oracle { quotes: o.quotes.push(q), last_twap_ms: q.t as int }
    } else if o.last_twap_ms > 0 && q.t - o.last_twap_ms < TWAP_FRESH_MS {
        o
    } else {
        Oracle { quotes: o.quotes.push(q), ..o }
    }
}

/// What a message that is no array adds.
pub open spec fn update_counted(o: Oracle, v: JsonView, now_ms: i64) -> Oracle {
    let topic = text_item(field(v, "topic"@));
    if !is_average(topic) && !is_spot(topic) {
        o
    } else {
        match nested(field(v, "payload"@)) {
            Some(payload) => match payload_quote(payload, now_ms) {
                Some(q) => quote_counted(o, is_average(topic), q),
                None => o,
            },
            None => o,
        }
    }
}

/// What a message adds: that of each of its items if it is an array.
pub open spec fn message_counted(o: Oracle, v: JsonView, now_ms: i64, depth: int) -> Oracle
    decreases depth, 0int, 0int,
{
    if depth <= 0 {
        o
    } else {
        match v {
            JsonView::Array(items) => items_counted(o, items, items.len() as int, now_ms, depth - 1),
            _ => update_counted(o, v, now_ms),
        }
    }
}

/// What the first `n` items of an array add.
pub open spec fn items_counted(
    o: Oracle,
    items: Seq<ItemView>,
    n: int,
    now_ms: i64,
    depth: int,
) -> Oracle
    decreases depth, 1int, n,
{
    if n <= 0 {
        o
    } else {
        let before = items_counted(o, items, n - 1, now_ms, depth);
        match nested(Some(items[n - 1])) {
            Some(v) => message_counted(before, v, now_ms, depth),
            None => before,
        }
    }
}

/// The price of a bitcoin payload at its time.
pub fn quote_of_payload(payload: &Json, now_ms: i64) -> (r: Option<BtcQuote>)
    requires
        now_ms >= 0,
    ensures
        r == payload_quote(payload@, now_ms),
        r matches Some(q) ==> q.price > 0 && q.t >= 0,
{
    if let Some(s) = item_text(payload.get("symbol")) {
        let symbol: String = to_lower(s.as_str());
        if !same(symbol.as_str(), "btc/usd") {
            return None;
        }
    }
    match item_amount(payload.get("value")) {
        Some(price) => {
            if price <= 0 {
                return None;
            }
            let t: i64 = match item_whole(payload.get("timestamp")) {
                Some(t) => if t > 1_000_000_000_000 {
                    t
                } else {
                    now_ms
                },
                None => now_ms,
            };
            Some(BtcQuote { t, price })
        },
        None => None,
    }
}

/// The prices that come in.
pub struct OracleFeed {
    pub quotes: Vec<BtcQuote>,
    pub last_twap_ms: i64,
}

impl View for OracleFeed {
    type V = Oracle;

    open spec fn view(&self) -> Oracle {
        Oracle { quotes: self.quotes@, last_twap_ms: self.last_twap_ms as int }
    }
}

impl OracleFeed {
    /// Counts a quote.
    pub fn count(&mut self, average: bool, q: BtcQuote)
        requires
            q.t >= 0,
        ensures
            final(self)@ == quote_counted(old(self)@, average, q),
    {
        if average {
            self.last_twap_ms = q.t;
        } else if self.last_twap_ms > 0 && q.t - self.last_twap_ms < TWAP_FRESH_MS {
            return;
        }
        self.quotes.push(q);
    }

    /// Counts a message that is no array.
    fn count_update(&mut self, v: &Json, now_ms: i64)
        requires
            now_ms >= 0,
        ensures
            final(self)@ == update_counted(old(self)@, v@, now_ms),
    {
        let topic: Option<&Item> = v.get("topic");
        let average: bool = item_is(topic, "crypto_prices_twap_thirty");
        let spot: bool = item_is(topic, "crypto_prices_chainlink") || item_is(
            topic,
            "prices.crypto.chainlink",
        );
        if !average && !spot {
            return;
        }
        if let Some(payload) = item_nested(v.get("payload")) {
            if let Some(q) = quote_of_payload(&payload, now_ms) {
                self.count(average, q);
            }
        }
    }

    /// Counts a message that has been read.
    pub fn handle_msg(&mut self, v: &Json, now_ms: i64, depth: u64)
        requires
            now_ms >= 0,
        ensures
            final(self)@ == message_counted(old(self)@, v@, now_ms, depth as int),
        decreases depth,
    {
        if depth == 0 {
            return;
        }
        match v {
            Json::Array(items) => {
                let ghost view = items@.map_values(|i: Item| i@);
                let ghost before = self@;
                let mut n: usize = 0;
                while n < items.len()
                    invariant
                        n <= items.len(),
                        now_ms >= 0,
                        depth > 0,
                        view == items@.map_values(|i: Item| i@),
                        self@ == items_counted(before, view, n as int, now_ms, depth - 1),
                    decreases items.len() - n,
                {
                    proof {
                        assert(view[n as int] == items@[n as int]@);
                    }
                    let inner: Option<Json> = item_nested(Some(&items[n]));
                    if let Some(j) = inner {
                        self.handle_msg(&j, now_ms, depth - 1);
                    }
                    n = n + 1;
                }
            },
            _ => {
                self.count_update(v, now_ms);
            },
        }
    }

    /// Counts a message's text, whatever the white space around it.
    pub fn handle_text(&mut self, text: &str, now_ms: i64)
        requires
            now_ms >= 0,
        ensures
            final(self)@ == match message_of(text@) {
                Some(v) => message_counted(old(self)@, v, now_ms, MAX_DEPTH as int),
                None => old(self)@,
            },
    {
        if let Some(v) = read_message(text) {
            self.handle_msg(&v, now_ms, MAX_DEPTH);
        }
    }
}

/// While the average is fresh the spot price changes nothing.
pub proof fn a_fresh_average_keeps_the_spot_price_out(o: Oracle, average: BtcQuote, spot: BtcQuote)
    requires
        average.t > 0,
        spot.t - average.t < TWAP_FRESH_MS,
    ensures
        quote_counted(quote_counted(o, true, average), false, spot) == quote_counted(
            o,
            true,
            average,
        ),
{
}

} // verus!
