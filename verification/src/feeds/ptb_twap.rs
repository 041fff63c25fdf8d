//! The sixty-second average that sets the strike.
use vstd::prelude::*;
use crate::decimal::{amount_of, huge, is_digit, is_huge, read_amount, read_nanos};
use crate::json::{
    any_amount, field, item_amount, item_is, item_nested, item_text, json_of, nested, read,
    same_amount, text_item, Item, ItemView, Json, JsonView,
};
use crate::text::{chars_of, lowered, same, to_lower, trim, trimmed};
use crate::units::time_ok;
use super::binance::BtcQuote;

verus! {

/// Shortest time between two prices that count.
pub const MIN_TICK_MS: i64 = 1_000;

/// Whether a text is digits from `i` on.
pub open spec fn digits_from(s: Seq<char>, i: int) -> bool {
    forall|k: int| i <= k < s.len() ==> is_digit(#[trigger] s[k])
}

/// Whether a text is a whole number: digits, or a minus and digits.
pub open spec fn is_whole(s: Seq<char>) -> bool {
    digits_from(s, 0) || (s.len() > 0 && s[0] == '-' && digits_from(s, 1))
}

/// The price of a full-accuracy text: a whole number counts trillionths of
/// millionths of a dollar, and so does anything over ten billion.
pub open spec fn full_price(s: Seq<char>) -> Option<int> {
    if s.len() == 0 {
        None
    } else if is_whole(s) || is_huge(s) {
        amount_of(s, -9)
    } else {
        amount_of(s, 9)
    }
}

/// The price of a full-accuracy value.
pub open spec fn full_value(i: ItemView) -> Option<int> {
    match i {
        ItemView::Text(s) => full_price(trimmed(s)),
        ItemView::Number(s) => full_price(s),
        _ => None,
    }
}

/// The price of a payload: its full-accuracy value if that is one, else its
/// value.
pub open spec fn payload_price(v: JsonView) -> Option<int> {
    let plain = any_amount(field(v, "value"@));
    match field(v, "full_accuracy_value"@) {
        Some(raw) => match full_value(raw) {
            Some(p) => Some(p),
            None => plain,
        },
        None => plain,
    }
}

/// The price of a bitcoin payload, above nothing.
pub open spec fn bitcoin_price(v: JsonView) -> Option<int> {
    let symbol = match text_item(field(v, "symbol"@)) {
        Some(s) => lowered(s),
        None => Seq::empty(),
    };
    match payload_price(v) {
        Some(p) => if symbol == "btc/usd"@ && p > 0 {
            Some(p)
        } else {
            None
        },
        None => None,
    }
}

/// The price of an update of the sixty-second average.
pub open spec fn update_price(v: JsonView) -> Option<int> {
    if text_item(field(v, "topic"@)) == Some("crypto_prices_twap_sixty"@) && text_item(
        field(v, "type"@),
    ) == Some("update"@) {
        match nested(field(v, "payload"@)) {
            Some(payload) => bitcoin_price(payload),
            None => None,
        }
    } else {
        None
    }
}

/// Whether a price counts at `now_ms`: a second after the last one that did.
pub open spec fn tick_counts(last_tick_ms: int, now_ms: int) -> bool {
    !(last_tick_ms > 0 && now_ms - last_tick_ms < MIN_TICK_MS)
}

/// Whether a text is digits from `i` on.
fn all_digits(s: &Vec<char>, i: usize) -> (r: bool)
    requires
        i <= s.len(),
    ensures
        r == digits_from(s@, i as int),
{
    let mut n: usize = i;
    while n < s.len()
        invariant
            i <= n <= s.len(),
            forall|k: int| i <= k < n ==> is_digit(#[trigger] s@[k]),
        decreases s.len() - n,
    {
        if !('0' <= s[n] && s[n] <= '9') {
            proof {
                assert(!is_digit(s@[n as int]));
            }
            return false;
        }
        n = n + 1;
    }
    true
}

/// The price of a full-accuracy text.
pub fn parse_full(text: &str) -> (r: Option<i64>)
    ensures
        same_amount(r, full_price(text@)),
{
    let chars: Vec<char> = chars_of(text);
    if chars.len() == 0 {
        return None;
    }
    if all_digits(&chars, 0) || (chars[0] == '-' && all_digits(&chars, 1)) || huge(text) {
        read_amount(text, -9)
    } else {
        read_nanos(text)
    }
}

/// The price of a full-accuracy value.
pub fn parse_e18(raw: &Item) -> (r: Option<i64>)
    ensures
        same_amount(r, full_value(raw@)),
{
    match raw {
        Item::Text(s) => {
            let t: String = trim(s.as_str());
            parse_full(t.as_str())
        },
        Item::Number(s) => parse_full(s.as_str()),
        _ => None,
    }
}

/// The price of a payload that has been read.
pub fn payload_px(payload: &Json) -> (r: Option<i64>)
    ensures
        same_amount(r, payload_price(payload@)),
{
    let raw: Option<&Item> = payload.get("full_accuracy_value");
    if let Some(item) = raw {
        let full: Option<i64> = parse_e18(item);
        if full.is_some() {
            return full;
        }
    }
    item_amount(payload.get("value"))
}

/// The price of a payload's text.
pub fn parse_px(payload: &str) -> (r: Option<i64>)
    ensures
        same_amount(
            r,
            match json_of(payload@) {
                Some(v) => payload_price(v),
                None => None,
            },
        ),
{
    match read(payload) {
        Some(v) => payload_px(&v),
        None => None,
    }
}

/// The price of a bitcoin payload.
pub fn bitcoin_px(payload: &Json) -> (r: Option<i64>)
    ensures
        same_amount(r, bitcoin_price(payload@)),
        r matches Some(p) ==> p > 0,
{
    let symbol: String = match item_text(payload.get("symbol")) {
        Some(s) => to_lower(s.as_str()),
        None => String::new(),
    };
    if !same(symbol.as_str(), "btc/usd") {
        return None;
    }
    match payload_px(payload) {
        Some(p) => if p > 0 {
            Some(p)
        } else {
            None
        },
        None => None,
    }
}

/// The price of an update.
pub fn update_px(v: &Json) -> (r: Option<i64>)
    ensures
        same_amount(r, update_price(v@)),
        r matches Some(p) ==> p > 0,
{
    if !item_is(v.get("topic"), "crypto_prices_twap_sixty") || !item_is(v.get("type"), "update") {
        return None;
    }
    match item_nested(v.get("payload")) {
        Some(payload) => bitcoin_px(&payload),
        None => None,
    }
}

/// The price of a message's text at `now_ms`, if it counts.  Its time is the
/// clock's: the message's own lags.
pub fn parse(text: &str, last_tick_ms: i64, now_ms: i64) -> (r: Option<BtcQuote>)
    requires
        time_ok(last_tick_ms as int),
        time_ok(now_ms as int),
    ensures
        match (
            r,
            match json_of(text@) {
                Some(v) => update_price(v),
                None => None,
            },
        ) {
            (Some(q), Some(p)) => q == (BtcQuote { t: now_ms, price: p as i64 }) && tick_counts(
                last_tick_ms as int,
                now_ms as int,
            ),
            (None, Some(_)) => !tick_counts(last_tick_ms as int, now_ms as int),
            (None, None) => true,
            (Some(_), None) => false,
        },
        r matches Some(q) ==> q.price > 0,
{
    let px: Option<i64> = match read(text) {
        Some(v) => update_px(&v),
        None => None,
    };
    match px {
        Some(price) => if last_tick_ms > 0 && now_ms - last_tick_ms < MIN_TICK_MS {
            None
        } else {
            Some(BtcQuote { t: now_ms, price })
        },
        None => None,
    }
}

} // verus!
