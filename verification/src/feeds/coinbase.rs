//! Coinbase: the middle of the best bid and ask, else the last price.
use vstd::prelude::*;
use crate::json::{
    field, item_is, item_text_amount, json_of, read, same_amount, text_amount, text_item, Json,
    JsonView,
};

verus! {

/// The price of a ticker: the middle of its bid and ask if it has both, else
/// its price; only above nothing.
pub open spec fn ticker_price(v: JsonView) -> Option<int> {
    let price = match (text_amount(field(v, "best_bid"@)), text_amount(field(v, "best_ask"@))) {
        (Some(b), Some(a)) => (b + a) / 2,
        _ => match text_amount(field(v, "price"@)) {
            Some(p) => p,
            None => 0,
        },
    };
    if text_item(field(v, "type"@)) == Some("ticker"@) && price > 0 {
        Some(price)
    } else {
        None
    }
}

/// The price of a ticker.
pub fn ticker_mid(v: &Json) -> (r: Option<i64>)
    ensures
        same_amount(r, ticker_price(v@)),
        r matches Some(p) ==> p > 0,
{
    if !item_is(v.get("type"), "ticker") {
        return None;
    }
    let bid: Option<i64> = item_text_amount(v.get("best_bid"));
    let ask: Option<i64> = item_text_amount(v.get("best_ask"));
    let price: i64 = match (bid, ask) {
        (Some(b), Some(a)) => {
            let sum: i128 = b as i128 + a as i128;
            if sum > 0 {
                (sum / 2) as i64
            } else {
                0
            }
        },
        _ => match item_text_amount(v.get("price")) {
            Some(p) => p,
            None => 0,
        },
    };
    if price > 0 {
        Some(price)
    } else {
        None
    }
}

/// The price that a message's text has.  A text that is not JSON ends the
/// session, which the outer `None` says.
pub fn parse_ticker(text: &str) -> (r: Option<Option<i64>>)
    ensures
        match (r, json_of(text@)) {
            (Some(price), Some(v)) => same_amount(price, ticker_price(v)),
            (None, None) => true,
            _ => false,
        },
        r matches Some(Some(p)) ==> p > 0,
{
    match read(text) {
        Some(v) => Some(ticker_mid(&v)),
        None => None,
    }
}

} // verus!
