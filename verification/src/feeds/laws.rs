//! What the messages of the feeds come to.
use vstd::prelude::*;
use crate::decimal::{amount_of, decimal_of, in_units};
use crate::gamma::Market;
use crate::json::{
    any_amount, field, json_of, nested, text_amount, text_item, whole_item, ItemView, JsonView,
};
use crate::text::{has_part, lowered, number_text};
use crate::units::magnitude;
use super::binance::{
    feed_spoken, is_quiet, message_quote, middle, quote_of, repeats, rest_quote, streamed,
    BinanceFeed, BtcQuote,
};
use super::chainlink::{
    items_counted, message_counted, payload_quote, quote_counted, update_counted, Oracle,
};
use super::coinbase::ticker_price;
use super::polymarket::{
    best_of, book_at, book_kept, books_of, held_quote, key_of, level_price, message_applied,
    quotes_of, resubscribed, the_best_price_is_the_best, token_named, tokens_of, MarketBook,
    PolyQuote, Subscribed, TokenView,
};
use super::ptb_twap::{bitcoin_price, full_price, payload_price, tick_counts, update_price};

verus! {

/// Whether a message is of a kind and names the token at `k`, the last of its
/// name, whose market has the book at `i`, the first of its market.
pub open spec fn speaks_of(
    s: Subscribed,
    v: JsonView,
    kind: Seq<char>,
    k: int,
    i: int,
) -> bool {
    &&& text_item(field(v, "event_type"@)) == Some(kind)
    &&& 0 <= k < s.tokens.len()
    &&& text_item(field(v, "asset_id"@)) == Some(s.tokens[k].id)
    &&& forall|n: int| k < n < s.tokens.len() ==> (#[trigger] s.tokens[n]).id != s.tokens[k].id
    &&& 0 <= i < s.books.len()
    &&& s.books[i].start_ts == s.tokens[k].start_ts
    &&& forall|n: int| 0 <= n < i ==> (#[trigger] s.books[n]).start_ts != s.tokens[k].start_ts
}

/// Whether `ask` is the lowest price of levels: one of them has it and none has a
/// lower one; nothing if none has a price.
pub open spec fn is_lowest(ask: Option<i64>, levels: Seq<ItemView>) -> bool {
    match ask {
        Some(a) => exists|p: int| #[trigger]
            is_lowest_price(p, levels) && a == p as i64,
        None => forall|k: int| 0 <= k < levels.len() ==> level_price(#[trigger] levels[k]) is None,
    }
}

/// Whether a price is that of one of the levels and no level has a lower one.
pub open spec fn is_lowest_price(p: int, levels: Seq<ItemView>) -> bool {
    &&& exists|k: int| 0 <= k < levels.len() && level_price(#[trigger] levels[k]) == Some(p)
    &&& forall|k: int|
        0 <= k < levels.len() ==> (level_price(#[trigger] levels[k]) matches Some(q) ==> p <= q)
}

/// Whether books are others but for one side of the book at `i`.
pub open spec fn only_side_changed(
    before: Seq<MarketBook>,
    after: Seq<MarketBook>,
    i: int,
    up: bool,
) -> bool {
    &&& after.len() == before.len()
    &&& forall|n: int| 0 <= n < before.len() && n != i ==> #[trigger] after[n] == before[n]
    &&& after[i].start_ts == before[i].start_ts
    &&& up ==> after[i].down_ask == before[i].down_ask
    &&& !up ==> after[i].up_ask == before[i].up_ask
}

/// A book gives its token, UP or DOWN, the lowest price of its asks, none if no
/// level has a price; nothing else changes.
pub proof fn a_book_gives_its_lowest_ask(
    s: Subscribed,
    v: JsonView,
    levels: Seq<ItemView>,
    k: int,
    i: int,
)
    requires
        speaks_of(s, v, "book"@, k, i),
        nested(field(v, "asks"@)) == Some(JsonView::Array(levels)),
    ensures
        ({
            let after = message_applied(s, v);
            &&& after.tokens == s.tokens
            &&& only_side_changed(s.books, after.books, i, s.tokens[k].is_up)
            &&& s.tokens[k].is_up ==> is_lowest(after.books[i].up_ask, levels)
            &&& !s.tokens[k].is_up ==> is_lowest(after.books[i].down_ask, levels)
        }),
{
    the_last_of_a_name(s.tokens, k, s.tokens.len() as int);
    the_first_of_a_market(s.books, i, s.tokens[k].start_ts, 0);
    the_best_price_is_the_best(levels, true, levels.len() as int);
    if let Some(best) = best_of(levels, true, levels.len() as int) {
        assert(is_lowest_price(best, levels));
    }
}

/// A level's price is the amount of its `price`, a number or the text of one.
pub proof fn a_level_has_the_price_it_says(level: Seq<char>, inner: JsonView)
    requires
        json_of(level) == Some(inner),
    ensures
        level_price(ItemView::Nested(level)) == any_amount(field(inner, "price"@)),
        forall|text: Seq<char>|
            field(inner, "price"@) == Some(ItemView::Text(text)) ==> level_price(
                ItemView::Nested(level),
            ) == #[trigger] amount_of(text, 9),
        forall|text: Seq<char>|
            field(inner, "price"@) == Some(ItemView::Number(text)) ==> level_price(
                ItemView::Nested(level),
            ) == #[trigger] amount_of(text, 9),
{
}

/// A change of the best ask gives its token that ask, and nothing else changes;
/// one that says no ask changes nothing.
pub proof fn a_change_gives_its_ask(s: Subscribed, v: JsonView, k: int, i: int)
    requires
        speaks_of(s, v, "best_bid_ask"@, k, i),
    ensures
        ({
            let after = message_applied(s, v);
            let ask = any_amount(field(v, "best_ask"@));
            &&& ask is None ==> after == s
            &&& ask is Some ==> {
                &&& only_side_changed(s.books, after.books, i, s.tokens[k].is_up)
                &&& s.tokens[k].is_up ==> after.books[i].up_ask == Some(ask->0 as i64)
                &&& !s.tokens[k].is_up ==> after.books[i].down_ask == Some(ask->0 as i64)
            }
        }),
{
    reveal_strlit("best_bid_ask");
    reveal_strlit("book");
    assert("best_bid_ask"@.len() != "book"@.len());
    the_last_of_a_name(s.tokens, k, s.tokens.len() as int);
    the_first_of_a_market(s.books, i, s.tokens[k].start_ts, 0);
}

/// A list of changes is applied one after the other: a list with one more change
/// is the shorter list and then that change.
pub proof fn changes_come_one_after_the_other(
    s: Subscribed,
    changes: Seq<ItemView>,
    n: int,
    inner: JsonView,
    k: int,
    i: int,
)
    requires
        0 < n <= changes.len(),
        nested(Some(changes[n - 1])) == Some(inner),
        speaks_of(
            Subscribed {
                books: super::polymarket::changes_applied(s, changes, n - 1),
                ..s
            },
            inner,
            text_item(field(inner, "event_type"@))->0,
            k,
            i,
        ),
        any_amount(field(inner, "best_ask"@)) is Some,
    ensures
        ({
            let before = super::polymarket::changes_applied(s, changes, n - 1);
            let after = super::polymarket::changes_applied(s, changes, n);
            let ask = any_amount(field(inner, "best_ask"@))->0 as i64;
            &&& only_side_changed(before, after, i, s.tokens[k].is_up)
            &&& s.tokens[k].is_up ==> after[i].up_ask == Some(ask)
            &&& !s.tokens[k].is_up ==> after[i].down_ask == Some(ask)
        }),
{
    let before = super::polymarket::changes_applied(s, changes, n - 1);
    the_last_of_a_name(s.tokens, k, s.tokens.len() as int);
    the_first_of_a_market(before, i, s.tokens[k].start_ts, 0);
}

/// A message with a list of changes leads to what all of them lead to.
pub proof fn all_changes_are_applied(s: Subscribed, v: JsonView, changes: Seq<ItemView>)
    requires
        text_item(field(v, "event_type"@)) == Some("price_change"@),
        nested(field(v, "price_changes"@)) == Some(JsonView::Array(changes)),
    ensures
        message_applied(s, v).books == super::polymarket::changes_applied(
            s,
            changes,
            changes.len() as int,
        ),
        super::polymarket::changes_applied(s, changes, 0) == s.books,
{
    reveal_strlit("best_bid_ask");
    reveal_strlit("book");
    reveal_strlit("price_change");
    assert("price_change"@.len() != "book"@.len());
    assert("price_change"@[0] != "best_bid_ask"@[0]);
}

/// A message that names no subscribed token changes nothing.
pub proof fn strangers_change_nothing(s: Subscribed, v: JsonView)
    requires
        text_item(field(v, "event_type"@)) != Some("price_change"@),
        forall|n: int|
            0 <= n < s.tokens.len() ==> Some((#[trigger] s.tokens[n]).id) != text_item(
                field(v, "asset_id"@),
            ) && s.tokens[n].id.len() > 0,
    ensures
        message_applied(s, v) == s,
{
    let id = match text_item(field(v, "asset_id"@)) {
        Some(t) => t,
        None => Seq::empty(),
    };
    no_such_name(s.tokens, id, s.tokens.len() as int);
}

proof fn no_such_name(tokens: Seq<TokenView>, id: Seq<char>, n: int)
    requires
        n <= tokens.len(),
        forall|k: int| 0 <= k < n ==> (#[trigger] tokens[k]).id != id,
    ensures
        token_named(tokens, id, n) is None,
    decreases n,
{
    if n > 0 {
        assert(tokens[n - 1].id != id);
        no_such_name(tokens, id, n - 1);
    }
}

proof fn the_last_of_a_name(tokens: Seq<TokenView>, k: int, n: int)
    requires
        0 <= k < n <= tokens.len(),
        forall|i: int| k < i < n ==> (#[trigger] tokens[i]).id != tokens[k].id,
    ensures
        token_named(tokens, tokens[k].id, n) == Some(tokens[k]),
    decreases n,
{
    if k < n - 1 {
        assert(tokens[n - 1].id != tokens[k].id);
        the_last_of_a_name(tokens, k, n - 1);
    }
}

proof fn the_first_of_a_market(books: Seq<MarketBook>, i: int, start_ts: i64, from: int)
    requires
        0 <= from <= i < books.len(),
        books[i].start_ts == start_ts,
        forall|n: int| 0 <= n < i ==> (#[trigger] books[n]).start_ts != start_ts,
    ensures
        book_at(books, start_ts, from) == i,
    decreases i - from,
{
    if from < i {
        assert(books[from].start_ts != start_ts);
        the_first_of_a_market(books, i, start_ts, from + 1);
    }
}

/// Each subscribed market has two tokens: first the one that pays if bitcoin ends
/// above, then the one that pays if it does not.
pub proof fn a_market_has_two_tokens(markets: Seq<Market>, n: int, k: int)
    requires
        0 <= k < n <= markets.len(),
    ensures
        tokens_of(markets, n).len() == 2 * n,
        tokens_of(markets, n)[2 * k] == (TokenView {
            id: markets[k].up_token_id,
            start_ts: markets[k].start_ts,
            is_up: true,
        }),
        tokens_of(markets, n)[2 * k + 1] == (TokenView {
            id: markets[k].down_token_id,
            start_ts: markets[k].start_ts,
            is_up: false,
        }),
    decreases n,
{
    if n > 1 && k < n - 1 {
        a_market_has_two_tokens(markets, n - 1, k);
    } else if n > 1 {
        a_market_has_two_tokens(markets, n - 1, n - 2);
    } else {
        assert(tokens_of(markets, 0).len() == 0);
    }
}

/// A market is quoted if and only if both its asks are known, at those asks and
/// at the time asked for.
pub proof fn markets_with_both_asks_are_quoted(books: Seq<MarketBook>, t: i64, n: int)
    requires
        0 <= n <= books.len(),
    ensures
        forall|q: PolyQuote| #[trigger]
            quotes_of(books, t, n).contains(q) <==> q.t == t && exists|k: int|
                0 <= k < n && (#[trigger] books[k]).start_ts == q.start_ts && books[k].up_ask
                    == Some(q.up_ask) && books[k].down_ask == Some(q.down_ask),
        quotes_of(books, t, n).len() <= n,
    decreases n,
{
    if n > 0 {
        markets_with_both_asks_are_quoted(books, t, n - 1);
        let rest = quotes_of(books, t, n - 1);
        let all = quotes_of(books, t, n);
        let b = books[n - 1];
        assert forall|q: PolyQuote| #[trigger] all.contains(q) <==> q.t == t && exists|k: int|
            0 <= k < n && (#[trigger] books[k]).start_ts == q.start_ts && books[k].up_ask == Some(
                q.up_ask,
            ) && books[k].down_ask == Some(q.down_ask) by {
            if all.contains(q) {
                let j = choose|j: int| 0 <= j < all.len() && all[j] == q;
                if j < rest.len() {
                    assert(rest[j] == q);
                    assert(rest.contains(q));
                } else {
                    assert(books[n - 1].start_ts == q.start_ts);
                }
            }
            if q.t == t && (exists|k: int|
                0 <= k < n && (#[trigger] books[k]).start_ts == q.start_ts && books[k].up_ask
                    == Some(q.up_ask) && books[k].down_ask == Some(q.down_ask)) {
                let k = choose|k: int|
                    0 <= k < n && (#[trigger] books[k]).start_ts == q.start_ts && books[k].up_ask
                        == Some(q.up_ask) && books[k].down_ask == Some(q.down_ask);
                if k < n - 1 {
                    assert(rest.contains(q));
                    let j = choose|j: int| 0 <= j < rest.len() && rest[j] == q;
                    assert(all[j] == q);
                } else {
                    assert(all[all.len() - 1] == q);
                }
            }
        }
    } else {
        assert(quotes_of(books, t, n).len() == 0);
    }
}

/// The middle of a bid and an ask lies between them, as far from the one as from
/// the other; there is none unless both are above nothing.
pub proof fn the_middle_lies_between(bid: int, ask: int)
    ensures
        middle(Some(bid), Some(ask)) is Some <==> bid > 0 && ask > 0,
        middle(Some(bid), Some(ask)) matches Some(m) ==> 2 * m <= bid + ask < 2 * m + 2,
        middle(Some(bid), Some(ask)) == middle(Some(ask), Some(bid)),
        middle(None, Some(ask)) is None,
        middle(Some(bid), None) is None,
{
}

/// A message of the quote stream of Binance is the middle of its bid and ask, at
/// the time of its event; a message of the trade stream is no price.
pub proof fn binance_quotes_its_middle(stream: Seq<char>, data: JsonView, now: i64, b: int, a: int)
    requires
        text_amount(field(data, "b"@)) == Some(b),
        text_amount(field(data, "a"@)) == Some(a),
        b > 0,
        a > 0,
        b + a <= i64::MAX,
    ensures
        has_part(stream, "aggTrade"@) ==> quote_of(stream, data, now) is None,
        !has_part(stream, "aggTrade"@) ==> quote_of(stream, data, now) is Some,
        quote_of(stream, data, now) matches Some(q) ==> {
            &&& 2 * q.price <= a + b < 2 * q.price + 2
            &&& whole_item(field(data, "E"@)) is None ==> q.t == now
            &&& whole_item(field(data, "E"@)) is Some ==> q.t == whole_item(
                field(data, "E"@),
            )->0 as i64
        },
{
    assert(field(data, "b"@) is Some);
    assert(field(data, "a"@) is Some);
}

/// A message of several streams is that of its data.
pub proof fn binance_messages_wrap_their_data(
    v: JsonView,
    stream: Seq<char>,
    data: Seq<char>,
    inner: JsonView,
    now: i64,
)
    requires
        field(v, "data"@) == Some(ItemView::Nested(data)),
        json_of(data) == Some(inner),
        text_item(field(v, "stream"@)) == Some(stream),
    ensures
        message_quote(v, now) == quote_of(stream, inner, now),
{
}

/// An answer of Binance is the middle of its bid and ask, now.
pub proof fn an_answer_is_its_middle(v: JsonView, now: i64, b: int, a: int)
    requires
        text_amount(field(v, "bidPrice"@)) == Some(b),
        text_amount(field(v, "askPrice"@)) == Some(a),
        b + a <= i64::MAX,
    ensures
        rest_quote(v, now) is Some <==> b > 0 && a > 0,
        rest_quote(v, now) matches Some(q) ==> q.t == now && 2 * q.price <= a + b < 2 * q.price + 2,
{
}

/// Prices are asked for once the stream has been quiet for two seconds, and one
/// that differs from the last by less than a cent is not passed on.
pub proof fn a_quiet_stream_is_asked(f: BinanceFeed, text: Seq<char>, now: i64, later: int)
    ensures
        is_quiet(f, later) <==> later >= f.last_ws_ms + 2_000,
        (has_part(text, "bookTicker"@) || has_part(text, "aggTrade"@)) ==> feed_spoken(
            f,
            text,
            now,
        ).last_ws_ms == now,
        !has_part(text, "bookTicker"@) && !has_part(text, "aggTrade"@) ==> feed_spoken(
            f,
            text,
            now,
        ).last_ws_ms == f.last_ws_ms,
        streamed(text, now) matches Some(q) ==> feed_spoken(f, text, now).last_mid == Some(q.price),
        streamed(text, now) is None ==> feed_spoken(f, text, now).last_mid == f.last_mid,
        forall|p: int| #[trigger]
            repeats(f, p) <==> f.last_mid is Some && -10_000_000 < f.last_mid->0 - p < 10_000_000,
{
}

/// A ticker of Coinbase is the middle of its best bid and ask, else its price; what
/// is no ticker, and what is not above nothing, is no price.
pub proof fn coinbase_quotes_its_middle(v: JsonView)
    ensures
        ({
            let bid = text_amount(field(v, "best_bid"@));
            let ask = text_amount(field(v, "best_ask"@));
            let last = text_amount(field(v, "price"@));
            let ticker = text_item(field(v, "type"@)) == Some("ticker"@);
            &&& !ticker ==> ticker_price(v) is None
            &&& ticker && bid is Some && ask is Some && bid->0 + ask->0 >= 2 ==> (ticker_price(
                v,
            ) matches Some(p) && 2 * p <= bid->0 + ask->0 < 2 * p + 2)
            &&& ticker && bid is Some && ask is Some && bid->0 + ask->0 < 2 ==> ticker_price(
                v,
            ) is None
            &&& ticker && (bid is None || ask is None) && last is Some && last->0 > 0
                ==> ticker_price(v) == last
            &&& ticker && (bid is None || ask is None) && (last is None || last->0 <= 0)
                ==> ticker_price(v) is None
        }),
{
}

/// The sixty-second average is an update of its own topic, of bitcoin in dollars
/// and above nothing; at its full accuracy where that can be read, else at its
/// value.
pub proof fn the_strike_average_is_its_own_topic(v: JsonView, payload: JsonView)
    requires
        nested(field(v, "payload"@)) == Some(payload),
    ensures
        ({
            let ours = text_item(field(v, "topic"@)) == Some("crypto_prices_twap_sixty"@)
                && text_item(field(v, "type"@)) == Some("update"@) && text_item(
                field(payload, "symbol"@),
            ) is Some && lowered(text_item(field(payload, "symbol"@))->0) == "btc/usd"@;
            let p = payload_price(payload);
            &&& update_price(v) is Some <==> ours && p is Some && p->0 > 0
            &&& update_price(v) is Some ==> update_price(v) == p
        }),
{
    reveal_strlit("btc/usd");
    assert("btc/usd"@.len() > 0);
}

/// A price at full accuracy goes before the plain one; a whole number, and one over ten
/// billion, counts billionths of billionths, anything else dollars.
pub proof fn full_accuracy_goes_first(payload: JsonView, text: Seq<char>)
    requires
        field(payload, "full_accuracy_value"@) == Some(ItemView::Number(text)),
    ensures
        full_price(text) is Some ==> payload_price(payload) == full_price(text),
        full_price(text) is None ==> payload_price(payload) == any_amount(
            field(payload, "value"@),
        ),
        text.len() > 0 && (forall|k: int|
            0 <= k < text.len() ==> '0' <= (#[trigger] text[k]) <= '9') ==> full_price(text)
            == amount_of(text, -9),
        text.len() > 0 && (decimal_of(text) matches Some(d) && magnitude(in_units(d, 9))
            > 10_000_000_000_000_000_000) ==> full_price(text) == amount_of(text, -9),
        text.len() > 0 && (exists|k: int| 0 <= k < text.len() && #[trigger] text[k] == '.') && !(
        decimal_of(text) matches Some(d) && magnitude(in_units(d, 9)) > 10_000_000_000_000_000_000)
            ==> full_price(text) == amount_of(text, 9),
{
}

/// An average counts if none counted in the second before.
pub proof fn averages_count_once_a_second(last: int, now: int)
    ensures
        tick_counts(last, now) <==> last <= 0 || now >= last + 1_000,
{
}

/// A thirty-second average always counts and is remembered; a spot price counts
/// once the last average is fifteen seconds old.
pub proof fn spot_prices_stand_in(o: Oracle, q: BtcQuote)
    ensures
        quote_counted(o, true, q).quotes == o.quotes.push(q),
        quote_counted(o, true, q).last_twap_ms == q.t,
        quote_counted(o, false, q).last_twap_ms == o.last_twap_ms,
        o.last_twap_ms <= 0 || q.t >= o.last_twap_ms + 15_000 ==> quote_counted(
            o,
            false,
            q,
        ).quotes == o.quotes.push(q),
        o.last_twap_ms > 0 && q.t < o.last_twap_ms + 15_000 ==> quote_counted(o, false, q) == o,
{
}

/// A message of the oracle counts by its topic: the thirty-second average, the
/// spot price under either name, and nothing else; its payload is bitcoin in
/// dollars above nothing, at its own time if that is in milliseconds.
pub proof fn the_oracle_counts_by_topic(o: Oracle, v: JsonView, payload: JsonView, now: i64, p: int)
    requires
        nested(field(v, "payload"@)) == Some(payload),
        any_amount(field(payload, "value"@)) == Some(p),
        field(payload, "symbol"@) is None,
    ensures
        ({
            let topic = text_item(field(v, "topic"@));
            let stamp = whole_item(field(payload, "timestamp"@));
            let q = BtcQuote {
                t: if stamp is Some && stamp->0 > 1_000_000_000_000 {
                    stamp->0 as i64
                } else {
                    now
                },
                price: p as i64,
            };
            &&& p <= 0 ==> update_counted(o, v, now) == o
            &&& p > 0 && topic == Some("crypto_prices_twap_thirty"@) ==> update_counted(o, v, now)
                == quote_counted(o, true, q)
            &&& p > 0 && topic == Some("crypto_prices_chainlink"@) ==> update_counted(o, v, now)
                == quote_counted(o, false, q)
            &&& p > 0 && topic == Some("prices.crypto.chainlink"@) ==> update_counted(o, v, now)
                == quote_counted(o, false, q)
            &&& topic == Some("crypto_prices_twap_sixty"@) || topic is None ==> update_counted(
                o,
                v,
                now,
            ) == o
        }),
{
    reveal_strlit("crypto_prices_twap_thirty");
    reveal_strlit("crypto_prices_chainlink");
    reveal_strlit("prices.crypto.chainlink");
    reveal_strlit("crypto_prices_twap_sixty");
    assert("crypto_prices_twap_thirty"@.len() != "crypto_prices_chainlink"@.len());
    assert("crypto_prices_twap_thirty"@.len() != "prices.crypto.chainlink"@.len());
    assert("crypto_prices_twap_sixty"@.len() != "crypto_prices_twap_thirty"@.len());
    assert("crypto_prices_twap_sixty"@.len() != "prices.crypto.chainlink"@.len());
    assert("crypto_prices_twap_sixty"@.len() != "crypto_prices_chainlink"@.len());
}

/// Payloads of other currencies are passed over.
pub proof fn the_oracle_is_of_bitcoin(payload: JsonView, now: i64, symbol: Seq<char>)
    requires
        text_item(field(payload, "symbol"@)) == Some(symbol),
    ensures
        lowered(symbol) != "btc/usd"@ ==> payload_quote(payload, now) is None,
        lowered(symbol) == "btc/usd"@ && any_amount(field(payload, "value"@)) is Some && any_amount(
            field(payload, "value"@),
        )->0 > 0 ==> payload_quote(payload, now) is Some,
        lowered(symbol) != "btc/usd"@ ==> bitcoin_price(payload) is None,
{
}

/// The items of a list count one after the other.
pub proof fn lists_count_item_by_item(
    o: Oracle,
    items: Seq<ItemView>,
    n: int,
    inner: JsonView,
    now: i64,
    depth: int,
)
    requires
        0 < n <= items.len(),
        nested(Some(items[n - 1])) == Some(inner),
        depth > 0,
    ensures
        items_counted(o, items, n, now, depth) == message_counted(
            items_counted(o, items, n - 1, now, depth),
            inner,
            now,
            depth,
        ),
        message_counted(o, JsonView::Array(items), now, depth + 1) == items_counted(
            o,
            items,
            items.len() as int,
            now,
            depth,
        ),
        !(inner is Array) ==> message_counted(o, inner, now, depth) == update_counted(
            o,
            inner,
            now,
        ),
{
}

/// What is known of a market that is subscribed to anew.
pub open spec fn has_its_book(
    before: Seq<MarketBook>,
    after: Seq<MarketBook>,
    start_ts: i64,
) -> bool {
    exists|i: int|
        {
            &&& 0 <= i < after.len()
            &&& (#[trigger] after[i]).start_ts == start_ts
            &&& forall|k: int|
                0 <= k < before.len() && (#[trigger] before[k]).start_ts == start_ts && (forall|j: int|
                    0 <= j < k ==> (#[trigger] before[j]).start_ts != start_ts) ==> after[i]
                    == before[k]
            &&& (forall|k: int| 0 <= k < before.len() ==> (#[trigger] before[k]).start_ts
                != start_ts) ==> after[i].up_ask is None && after[i].down_ask is None
        }
}

proof fn the_book_of_a_market(books: Seq<MarketBook>, start_ts: i64, i: int)
    requires
        0 <= i <= books.len(),
    ensures
        i <= book_at(books, start_ts, i) <= books.len(),
        forall|k: int|
            i <= k < book_at(books, start_ts, i) ==> (#[trigger] books[k]).start_ts != start_ts,
        book_at(books, start_ts, i) < books.len() ==> books[book_at(books, start_ts, i)].start_ts
            == start_ts,
    decreases books.len() - i,
{
    if i < books.len() && books[i].start_ts != start_ts {
        the_book_of_a_market(books, start_ts, i + 1);
    }
}

proof fn a_kept_book_is_its_own(before: Seq<MarketBook>, start_ts: i64)
    ensures
        book_kept(before, start_ts).start_ts == start_ts,
        forall|k: int|
            0 <= k < before.len() && (#[trigger] before[k]).start_ts == start_ts && (forall|j: int|
                0 <= j < k ==> (#[trigger] before[j]).start_ts != start_ts) ==> book_kept(
                before,
                start_ts,
            ) == before[k],
        (forall|k: int| 0 <= k < before.len() ==> (#[trigger] before[k]).start_ts != start_ts)
            ==> book_kept(before, start_ts).up_ask is None && book_kept(
            before,
            start_ts,
        ).down_ask is None,
{
    the_book_of_a_market(before, start_ts, 0);
    let b = book_at(before, start_ts, 0);
    assert forall|k: int|
        0 <= k < before.len() && (#[trigger] before[k]).start_ts == start_ts && (forall|j: int|
            0 <= j < k ==> (#[trigger] before[j]).start_ts != start_ts) implies book_kept(
        before,
        start_ts,
    ) == before[k] by {
        if b < k {
            assert(before[b].start_ts != start_ts);
        }
    }
}

proof fn books_are_kept(before: Seq<MarketBook>, markets: Seq<Market>, n: int, m: int)
    requires
        0 <= m < n <= markets.len(),
    ensures
        has_its_book(before, books_of(before, markets, n), markets[m].start_ts),
        forall|i: int|
            0 <= i < books_of(before, markets, n).len() ==> #[trigger] books_of(
                before,
                markets,
                n,
            )[i] == book_kept(before, books_of(before, markets, n)[i].start_ts),
    decreases n,
{
    let after = books_of(before, markets, n);
    let rest = books_of(before, markets, n - 1);
    let start_ts = markets[n - 1].start_ts;
    if n - 1 > 0 {
        books_are_kept(before, markets, n - 1, if m < n - 1 { m } else { 0 });
    }
    the_book_of_a_market(rest, start_ts, 0);
    a_kept_book_is_its_own(before, start_ts);
    assert forall|i: int| 0 <= i < after.len() implies #[trigger] after[i] == book_kept(
        before,
        after[i].start_ts,
    ) by {
        if i < rest.len() {
            assert(after[i] == rest[i]);
        }
    }
    if m < n - 1 {
        let i = choose|i: int|
            {
                &&& 0 <= i < rest.len()
                &&& (#[trigger] rest[i]).start_ts == markets[m].start_ts
                &&& forall|k: int|
                    0 <= k < before.len() && (#[trigger] before[k]).start_ts == markets[m].start_ts
                        && (forall|j: int|
                        0 <= j < k ==> (#[trigger] before[j]).start_ts != markets[m].start_ts)
                        ==> rest[i] == before[k]
                &&& (forall|k: int| 0 <= k < before.len() ==> (#[trigger] before[k]).start_ts
                    != markets[m].start_ts) ==> rest[i].up_ask is None && rest[i].down_ask is None
            };
        assert(after[i] == rest[i]);
    } else {
        let i = book_at(rest, start_ts, 0);
        if i < rest.len() {
            assert(after[i] == rest[i]);
            assert(after[i] == book_kept(before, start_ts));
        } else {
            assert(after[rest.len() as int] == book_kept(before, start_ts));
        }
    }
}

/// A subscription to markets keeps what is known of those that were subscribed to, and
/// knows nothing yet of the others.
pub proof fn a_subscription_keeps_what_is_known(s: Subscribed, markets: Seq<Market>, m: int)
    requires
        0 <= m < markets.len(),
    ensures
        has_its_book(s.books, resubscribed(s, markets).books, markets[m].start_ts),
        resubscribed(s, markets).tokens == tokens_of(markets, markets.len() as int),
        resubscribed(s, markets).key == s.key,
{
    books_are_kept(s.books, markets, markets.len() as int, m);
}

/// Subscriptions are told apart by the opening seconds of their markets, with commas
/// between them.
pub proof fn a_subscription_is_known_by_its_windows(markets: Seq<Market>, n: int)
    requires
        1 <= n < markets.len(),
    ensures
        key_of(markets, 0).len() == 0,
        key_of(markets, 1) == number_text(markets[0].start_ts as int),
        key_of(markets, n + 1) == key_of(markets, n) + ","@ + number_text(
            markets[n].start_ts as int,
        ),
{
}

/// A quote stays as it is within a thousand dollars either way; asks beyond are held at
/// that.
pub proof fn asks_are_held_in_range(q: PolyQuote)
    ensures
        held_quote(q).t == q.t,
        held_quote(q).start_ts == q.start_ts,
        magnitude(q.up_ask as int) <= 1_000_000_000_000 ==> held_quote(q).up_ask == q.up_ask,
        magnitude(q.down_ask as int) <= 1_000_000_000_000 ==> held_quote(q).down_ask == q.down_ask,
        q.up_ask > 1_000_000_000_000 ==> held_quote(q).up_ask == 1_000_000_000_000,
        q.down_ask > 1_000_000_000_000 ==> held_quote(q).down_ask == 1_000_000_000_000,
{
}

} // verus!
