//! The market directory and the official opening price.
use vstd::prelude::*;
use crate::calendar::{chrono_iso, iso_text};
use crate::decimal::{read_whole, whole_of};
use crate::json::{
    any_amount, field, item_amount, item_nested, item_whole, json_of, nested, read, seen,
    seen_json, whole_item, Item, ItemView, Json, JsonView,
};
use crate::text::{
    contains, has_part, lowered, number, number_text, raised, same, to_lower, to_upper, trim,
    trimmed,
};
use crate::units::{abs, magnitude, MAX_MS};

verus! {

/// Seconds of a window.
pub const WINDOW_SEC: i64 = 300;

/// Address of the market directory.
pub const GAMMA_BASE: &'static str = "https://gamma-api.polymarket.com";

/// Address that opening prices are asked for at.
pub const DEFAULT_PTB_URL: &'static str = "https://polymarket.com/api/crypto/crypto-price";

/// Time between attempts at an opening price.
pub const PTB_RETRY_MS: u64 = 250;

/// Attempts at an opening price.
pub const PTB_ATTEMPTS: u32 = 80;

/// How often an opening price must come back the same.
pub const PTB_STABLE: u32 = 4;

/// Opening prices closer than this are the same.
pub const PTB_EPSILON: i64 = 100_000;

/// A market.
#[derive(Debug)]
pub struct MarketInfo {
    pub slug: String,
    pub title: String,
    pub start_ts: i64,
    pub end_ts: i64,
    pub up_token_id: String,
    pub down_token_id: String,
    pub twap_enabled: bool,
    pub twap_lookback_sec: i64,
}

/// A market.
pub struct Market {
    pub slug: Seq<char>,
    pub title: Seq<char>,
    pub start_ts: i64,
    pub end_ts: i64,
    pub up_token_id: Seq<char>,
    pub down_token_id: Seq<char>,
    pub twap_enabled: bool,
    pub twap_lookback_sec: i64,
}

impl View for MarketInfo {
    type V = Market;

    open spec fn view(&self) -> Market {
        Market {
            slug: self.slug@,
            title: self.title@,
            start_ts: self.start_ts,
            end_ts: self.end_ts,
            up_token_id: self.up_token_id@,
            down_token_id: self.down_token_id@,
            twap_enabled: self.twap_enabled,
            twap_lookback_sec: self.twap_lookback_sec,
        }
    }
}

impl Clone for MarketInfo {
    fn clone(&self) -> (r: MarketInfo)
        ensures
            r@ == self@,
    {
        MarketInfo {
            slug: self.slug.clone(),
            title: self.title.clone(),
            start_ts: self.start_ts,
            end_ts: self.end_ts,
            up_token_id: self.up_token_id.clone(),
            down_token_id: self.down_token_id.clone(),
            twap_enabled: self.twap_enabled,
            twap_lookback_sec: self.twap_lookback_sec,
        }
    }
}

/// Why a market or an opening price could not be had.
#[derive(Clone, Copy, Debug, PartialEq, Eq, Structural)]
pub enum GammaError {
    /// The answer is no market.
    NoMarket,
    /// There are fewer than two tokens.
    TokenCount(usize),
    /// An outcome has no token.
    NoToken,
    /// There is no opening price above nothing.
    NoOpenPrice,
}

/// The name of the market that opens at a second.
pub open spec fn slug_of(start_ts: int) -> Seq<char> {
    "btc-updown-5m-"@ + number_text(start_ts)
}

/// The name of the market that opens at a second.
pub fn btc5m_slug(start_ts: i64) -> (r: String)
    ensures
        r@ == slug_of(start_ts as int),
{
    let mut r: String = "btc-updown-5m-".to_string();
    r.append(number(start_ts).as_str());
    r
}

/// The address of the events of a market in a directory.
pub fn events_url(base: &str, slug: &str) -> (r: String)
    ensures
        r@ == base@ + "/events?slug="@ + slug@,
{
    let mut r: String = base.to_string();
    r.append("/events?slug=");
    r.append(slug);
    r
}

/// The address of a market in a directory.
pub fn market_url(base: &str, slug: &str) -> (r: String)
    ensures
        r@ == base@ + "/markets/slug/"@ + slug@,
{
    let mut r: String = base.to_string();
    r.append("/markets/slug/");
    r.append(slug);
    r
}

/// The texts among the first `n` items of an array.
pub open spec fn texts(items: Seq<ItemView>, n: int) -> Seq<Seq<char>>
    decreases n,
{
    if n <= 0 {
        Seq::empty()
    } else {
        match items[n - 1] {
            ItemView::Text(s) => texts(items, n - 1).push(s),
            _ => texts(items, n - 1),
        }
    }
}

/// Whether all items of an array are texts.
pub open spec fn all_texts(items: Seq<ItemView>) -> bool {
    forall|i: int| 0 <= i < items.len() ==> (#[trigger] items[i]) is Text
}

/// The texts of an array; if `strict`, none unless all its items are texts.
pub open spec fn array_texts(v: Option<JsonView>, strict: bool) -> Seq<Seq<char>> {
    match v {
        Some(JsonView::Array(items)) => if strict && !all_texts(items) {
            Seq::empty()
        } else {
            texts(items, items.len() as int)
        },
        _ => Seq::empty(),
    }
}

/// The texts of a list that is an array, or a text of one.
pub open spec fn list_texts(i: Option<ItemView>) -> Seq<Seq<char>> {
    match i {
        Some(ItemView::Nested(s)) => array_texts(json_of(s), false),
        Some(ItemView::Text(s)) => array_texts(json_of(s), true),
        _ => Seq::empty(),
    }
}

/// The views of texts.
pub open spec fn views(v: Seq<String>) -> Seq<Seq<char>> {
    v.map_values(|s: String| s@)
}

/// The texts of an array.
pub fn texts_of(v: &Option<Json>, strict: bool) -> (r: Vec<String>)
    ensures
        views(r@) == array_texts(seen_json(*v), strict),
{
    let mut r: Vec<String> = Vec::new();
    proof {
        assert(views(r@) =~= Seq::<Seq<char>>::empty());
    }
    if let Some(Json::Array(items)) = v {
        let ghost view = items@.map_values(|i: Item| i@);
        let mut n: usize = 0;
        while n < items.len()
            invariant
                n <= items.len(),
                view == items@.map_values(|i: Item| i@),
                views(r@) == texts(view, n as int),
                strict ==> forall|i: int| 0 <= i < n ==> (#[trigger] view[i]) is Text,
                seen_json(*v) == Some(JsonView::Array(view)),
            decreases items.len() - n,
        {
            proof {
                assert(view[n as int] == items@[n as int]@);
            }
            match &items[n] {
                Item::Text(s) => {
                    let t: String = s.clone();
                    proof {
                        assert(views(r@.push(t)) =~= views(r@).push(t@));
                    }
                    r.push(t);
                },
                _ => {
                    if strict {
                        let none: Vec<String> = Vec::new();
                        proof {
                            assert(!(view[n as int] is Text));
                            assert(views(none@) =~= Seq::<Seq<char>>::empty());
                        }
                        return none;
                    }
                },
            }
            n = n + 1;
        }
    }
    r
}

/// The texts of a list that is an array, or a text of one.
pub fn parse_json_array(value: Option<&Item>) -> (r: Vec<String>)
    ensures
        views(r@) == list_texts(seen(value)),
{
    match value {
        Some(Item::Nested(s)) => texts_of(&read(s.as_str()), false),
        Some(Item::Text(s)) => texts_of(&read(s.as_str()), true),
        _ => {
            let none: Vec<String> = Vec::new();
            proof {
                assert(views(none@) =~= Seq::<Seq<char>>::empty());
            }
            none
        },
    }
}

/// What `str::to_lowercase` makes of a text.
pub uninterp spec fn lowercase(s: Seq<char>) -> Seq<char>;

/// Calls `str::to_lowercase` of std.  Claimed is that what comes back depends
/// on the text alone; what Unicode makes of a given text is not stated.
#[verifier::external_body]
fn lower_unicode(s: &str) -> (r: String)
    ensures
        r@ == lowercase(s@),
{
    s.to_lowercase()
}

/// Position of the first label at or after `i` that is one of two words, or
/// the number of labels.
pub open spec fn label_at(labels: Seq<Seq<char>>, a: Seq<char>, b: Seq<char>, i: int) -> int
    decreases labels.len() - i,
{
    if 0 <= i < labels.len() && labels[i] != a && labels[i] != b {
        label_at(labels, a, b, i + 1)
    } else {
        i
    }
}

/// Position of the UP token: that of its label, else the first.
pub open spec fn up_index(labels: Seq<Seq<char>>) -> int {
    let i = label_at(labels, "up"@, "yes"@, 0);
    if i < labels.len() {
        i
    } else {
        0
    }
}

/// Position of the DOWN token: that of its label, else the first that UP does
/// not have of the first two.
pub open spec fn down_index(labels: Seq<Seq<char>>) -> int {
    let i = label_at(labels, "down"@, "no"@, 0);
    if i < labels.len() {
        i
    } else if up_index(labels) == 0 {
        1
    } else {
        0
    }
}

/// The UP and the DOWN token, by their labels.
pub open spec fn picked(labels: Seq<Seq<char>>, tokens: Seq<Seq<char>>) -> Result<
    (Seq<char>, Seq<char>),
    GammaError,
> {
    if tokens.len() < 2 {
        Err(GammaError::TokenCount(tokens.len() as usize))
    } else if up_index(labels) >= tokens.len() || down_index(labels) >= tokens.len() {
        Err(GammaError::NoToken)
    } else {
        Ok((tokens[up_index(labels)], tokens[down_index(labels)]))
    }
}

/// Position of the first label that is one of two words.
fn find_label(labels: &Vec<String>, a: &str, b: &str) -> (r: usize)
    ensures
        r == label_at(views(labels@), a@, b@, 0),
        r <= labels.len(),
{
    let ghost view = views(labels@);
    let mut i: usize = 0;
    while i < labels.len()
        invariant
            i <= labels.len(),
            view == views(labels@),
            label_at(view, a@, b@, 0) == label_at(view, a@, b@, i as int),
        decreases labels.len() - i,
    {
        proof {
            assert(view[i as int] == labels@[i as int]@);
        }
        if same(labels[i].as_str(), a) || same(labels[i].as_str(), b) {
            return i;
        }
        i = i + 1;
    }
    i
}

/// Whether a pick is the one of a contract.
pub open spec fn same_pick(
    r: Result<(String, String), GammaError>,
    p: Result<(Seq<char>, Seq<char>), GammaError>,
) -> bool {
    match (r, p) {
        (Ok(a), Ok(b)) => a.0@ == b.0 && a.1@ == b.1,
        (Err(a), Err(b)) => a == b,
        _ => false,
    }
}

/// The UP and the DOWN token, by labels in small letters.
pub fn pick_by_labels(labels: &Vec<String>, token_ids: &Vec<String>) -> (r: Result<
    (String, String),
    GammaError,
>)
    ensures
        same_pick(r, picked(views(labels@), views(token_ids@))),
{
    let ghost tokens = views(token_ids@);
    if token_ids.len() < 2 {
        return Err(GammaError::TokenCount(token_ids.len()));
    }
    let up: usize = find_label(labels, "up", "yes");
    let up_idx: usize = if up < labels.len() {
        up
    } else {
        0
    };
    let down: usize = find_label(labels, "down", "no");
    let down_idx: usize = if down < labels.len() {
        down
    } else if up_idx == 0 {
        1
    } else {
        0
    };
    if up_idx >= token_ids.len() || down_idx >= token_ids.len() {
        return Err(GammaError::NoToken);
    }
    proof {
        assert(tokens[up_idx as int] == token_ids@[up_idx as int]@);
        assert(tokens[down_idx as int] == token_ids@[down_idx as int]@);
    }
    Ok((token_ids[up_idx].clone(), token_ids[down_idx].clone()))
}

/// Labels in small letters.
pub open spec fn small_labels(outcomes: Seq<Seq<char>>) -> Seq<Seq<char>> {
    outcomes.map_values(|s: Seq<char>| lowercase(s))
}

/// The UP and the DOWN token, by their outcomes' names.
pub fn pick_up_down(outcomes: &Vec<String>, token_ids: &Vec<String>) -> (r: Result<
    (String, String),
    GammaError,
>)
    ensures
        same_pick(r, picked(small_labels(views(outcomes@)), views(token_ids@))),
{
    let mut labels: Vec<String> = Vec::new();
    let mut i: usize = 0;
    while i < outcomes.len()
        invariant
            i <= outcomes.len(),
            labels.len() == i,
            forall|k: int| 0 <= k < i ==> (#[trigger] labels@[k])@ == lowercase(outcomes@[k]@),
        decreases outcomes.len() - i,
    {
        labels.push(lower_unicode(outcomes[i].as_str()));
        i = i + 1;
    }
    proof {
        assert(views(labels@) =~= small_labels(views(outcomes@)));
    }
    pick_by_labels(&labels, token_ids)
}

/// Whether a value is a question: a text, or none.
pub open spec fn is_question(i: Option<ItemView>) -> bool {
    match i {
        None => true,
        Some(ItemView::Null) => true,
        Some(ItemView::Text(_)) => true,
        _ => false,
    }
}

/// Whether a value is a question.
fn question_ok(i: Option<&Item>) -> (r: bool)
    ensures
        r == is_question(seen(i)),
{
    match i {
        None => true,
        Some(Item::Null) => true,
        Some(Item::Text(_)) => true,
        _ => false,
    }
}

/// The market that a value is, by its fields' names: an object with a question
/// for one, or an array of the four fields in order.
pub open spec fn as_market(v: JsonView) -> Option<JsonView> {
    match v {
        JsonView::Object(_) => if is_question(field(v, "question"@)) {
            Some(v)
        } else {
            None
        },
        JsonView::Array(items) => if items.len() == 4 && is_question(Some(items[0])) {
            Some(
                JsonView::Object(
                    seq![
                        ("question"@, items[0]),
                        ("clobTokenIds"@, items[1]),
                        ("outcomes"@, items[2]),
                        ("cryptoMarketConfig"@, items[3]),
                    ],
                ),
            )
        } else {
            None
        },
        JsonView::Lone(_) => None,
    }
}

/// The market that a value is.
fn to_market(v: Json) -> (r: Option<Json>)
    ensures
        seen_json(r) == as_market(v@),
{
    match v {
        Json::Object(pairs) => {
            let m: Json = Json::Object(pairs);
            if question_ok(m.get("question")) {
                Some(m)
            } else {
                None
            }
        },
        Json::Array(items) => {
            let ghost view = items@.map_values(|i: Item| i@);
            let mut items: Vec<Item> = items;
            if items.len() != 4 {
                return None;
            }
            proof {
                assert(view[0] == items@[0]@ && view[1] == items@[1]@);
                assert(view[2] == items@[2]@ && view[3] == items@[3]@);
            }
            if !question_ok(Some(&items[0])) {
                return None;
            }
            let config: Item = items.remove(3);
            let outcomes: Item = items.remove(2);
            let tokens: Item = items.remove(1);
            let question: Item = items.remove(0);
            let mut pairs: Vec<(String, Item)> = Vec::new();
            pairs.push(("question".to_string(), question));
            pairs.push(("clobTokenIds".to_string(), tokens));
            pairs.push(("outcomes".to_string(), outcomes));
            pairs.push(("cryptoMarketConfig".to_string(), config));
            let m: Json = Json::Object(pairs);
            proof {
                assert(m@ == as_market(v@)->0) by {
                    assert(m@->Object_0 =~= as_market(v@)->0->Object_0);
                }
            }
            Some(m)
        },
        Json::Lone(_) => None,
    }
}

/// Whether the first `n` items of an array are markets.
pub open spec fn are_markets(items: Seq<ItemView>, n: int) -> bool {
    forall|i: int|
        0 <= i < n ==> (nested(Some(#[trigger] items[i])) matches Some(v) && as_market(v) is Some)
}

/// The markets of an event: those that it names, or the one field of an array.
pub open spec fn event_markets(event: JsonView) -> Option<ItemView> {
    match event {
        JsonView::Array(items) => if items.len() == 1 {
            Some(items[0])
        } else {
            None
        },
        _ => field(event, "markets"@),
    }
}

/// The first market of an event.
pub open spec fn event_market(event: JsonView) -> Option<JsonView> {
    match nested(event_markets(event)) {
        Some(JsonView::Array(items)) => if items.len() > 0 && are_markets(
            items,
            items.len() as int,
        ) {
            as_market(nested(Some(items[0]))->0)
        } else {
            None
        },
        _ => None,
    }
}

/// The event of an answer: its first item if it is an array, else itself.
pub open spec fn answer_event(body: JsonView) -> Option<JsonView> {
    match body {
        JsonView::Array(items) => if items.len() > 0 {
            nested(Some(items[0]))
        } else {
            None
        },
        _ => Some(body),
    }
}

/// The market of an answer.
pub open spec fn answer_market(body: JsonView) -> Option<JsonView> {
    match answer_event(body) {
        Some(event) => event_market(event),
        None => None,
    }
}

/// The first market of an event.
pub fn market_of_event(event: &Json) -> (r: Option<Json>)
    ensures
        seen_json(r) == event_market(event@),
{
    let markets: Option<Json> = match event {
        Json::Array(items) => {
            let ghost view = items@.map_values(|i: Item| i@);
            if items.len() != 1 {
                return None;
            }
            proof {
                assert(view[0] == items@[0]@);
            }
            item_nested(Some(&items[0]))
        },
        _ => item_nested(event.get("markets")),
    };
    match markets {
        Some(Json::Array(items)) => {
            let ghost view = items@.map_values(|i: Item| i@);
            if items.len() == 0 {
                return None;
            }
            let mut n: usize = 0;
            while n < items.len()
                invariant
                    n <= items.len(),
                    view == items@.map_values(|i: Item| i@),
                    are_markets(view, n as int),
                    nested(event_markets(event@)) == Some(JsonView::Array(view)),
                decreases items.len() - n,
            {
                proof {
                    assert(view[n as int] == items@[n as int]@);
                }
                let inner: Option<Json> = item_nested(Some(&items[n]));
                let ok: bool = match inner {
                    Some(m) => to_market(m).is_some(),
                    None => false,
                };
                if !ok {
                    proof {
                        assert(!(nested(Some(view[n as int])) matches Some(v) && as_market(v)
                            is Some));
                    }
                    return None;
                }
                n = n + 1;
            }
            proof {
                assert(view[0] == items@[0]@);
            }
            match item_nested(Some(&items[0])) {
                Some(m) => to_market(m),
                None => None,
            }
        },
        _ => None,
    }
}

/// The market of an answer that has been read.
pub fn market_of_answer(body: &Json) -> (r: Option<Json>)
    ensures
        seen_json(r) == answer_market(body@),
{
    match body {
        Json::Array(items) => {
            if items.len() == 0 {
                return None;
            }
            proof {
                let view = items@.map_values(|i: Item| i@);
                assert(view[0] == items@[0]@);
            }
            match item_nested(Some(&items[0])) {
                Some(event) => market_of_event(&event),
                None => None,
            }
        },
        _ => market_of_event(body),
    }
}

/// The market of an answer's text.
pub fn parse_events(text: &str) -> (r: Option<Json>)
    ensures
        seen_json(r) == (match json_of(text@) {
            Some(body) => answer_market(body),
            None => None,
        }),
{
    match read(text) {
        Some(body) => market_of_answer(&body),
        None => None,
    }
}

/// The market of a text that is one.
pub fn parse_market(text: &str) -> (r: Result<Json, GammaError>)
    ensures
        match (
            r,
            match json_of(text@) {
                Some(v) => as_market(v),
                None => None,
            },
        ) {
            (Ok(m), Some(v)) => m@ == v,
            (Err(e), None) => e == GammaError::NoMarket,
            _ => false,
        },
{
    match read(text) {
        Some(v) => match to_market(v) {
            Some(m) => Ok(m),
            None => Err(GammaError::NoMarket),
        },
        None => Err(GammaError::NoMarket),
    }
}

/// Whether the strike is an average, and over how many seconds: as the market
/// says, else as set.
pub open spec fn twap_of(config: Option<JsonView>, default_on: bool, default_lookback: int) -> (
    bool,
    int,
) {
    match config {
        Some(c) => (
            match field(c, "twapEnabled"@) {
                Some(ItemView::Bool(b)) => b,
                _ => default_on,
            },
            match whole_item(field(c, "twapLookbackSeconds"@)) {
                Some(s) => if s > 0 {
                    s
                } else {
                    default_lookback
                },
                None => default_lookback,
            },
        ),
        None => (default_on, default_lookback),
    }
}

/// Whether the strike is an average, and over how many seconds.
pub fn parse_twap_cfg(config: &Option<Json>, default_on: bool, default_lookback: i64) -> (r: (
    bool,
    i64,
))
    ensures
        (r.0, r.1 as int) == twap_of(seen_json(*config), default_on, default_lookback as int),
{
    match config {
        Some(c) => {
            let enabled: bool = match c.get("twapEnabled") {
                Some(Item::Bool(b)) => *b,
                _ => default_on,
            };
            let lookback: i64 = match item_whole(c.get("twapLookbackSeconds")) {
                Some(s) => if s > 0 {
                    s
                } else {
                    default_lookback
                },
                None => default_lookback,
            };
            (enabled, lookback)
        },
        None => (default_on, default_lookback),
    }
}

/// Whether a setting is on: it says `true` or `1`.
pub open spec fn setting_on(raw: Option<Seq<char>>, default: bool) -> bool {
    match raw {
        Some(s) => lowered(trimmed(s)) == "true"@ || lowered(trimmed(s)) == "1"@,
        None => default,
    }
}

/// The view of an optional text.
pub open spec fn optional_text(s: Option<&str>) -> Option<Seq<char>> {
    match s {
        Some(t) => Some(t@),
        None => None,
    }
}

/// Whether a setting is on.
pub fn env_bool(raw: Option<&str>, default: bool) -> (r: bool)
    ensures
        r == setting_on(optional_text(raw), default),
{
    match raw {
        Some(s) => {
            let t: String = trim(s);
            let v: String = to_lower(t.as_str());
            same(v.as_str(), "true") || same(v.as_str(), "1")
        },
        None => default,
    }
}

/// The whole number that a setting is, else the default.
pub open spec fn setting_whole(raw: Option<Seq<char>>, default: int) -> int {
    match raw {
        Some(s) => match whole_of(trimmed(s)) {
            Some(n) => n,
            None => default,
        },
        None => default,
    }
}

/// The whole number that a setting is, else the default.
pub fn env_i64(raw: Option<&str>, default: i64) -> (r: i64)
    ensures
        r == setting_whole(optional_text(raw), default as int),
{
    match raw {
        Some(s) => {
            let t: String = trim(s);
            match read_whole(t.as_str()) {
                Some(n) => n,
                None => default,
            }
        },
        None => default,
    }
}

/// The seconds of the average that are set: sixty if they are not, one at
/// least.
pub fn default_lookback(raw: Option<&str>) -> (r: i64)
    ensures
        r == (if setting_whole(optional_text(raw), 60) >= 1 {
            setting_whole(optional_text(raw), 60)
        } else {
            1
        }),
{
    let n: i64 = env_i64(raw, 60);
    if n >= 1 {
        n
    } else {
        1
    }
}

/// The market of a directory entry.
pub open spec fn market_of(v: JsonView, start_ts: i64, default_on: bool, default_lookback: int) -> Result<
    Market,
    GammaError,
> {
    let tokens = list_texts(field(v, "clobTokenIds"@));
    let labels = small_labels(list_texts(field(v, "outcomes"@)));
    let twap = twap_of(nested(field(v, "cryptoMarketConfig"@)), default_on, default_lookback);
    match picked(labels, tokens) {
        Ok((up, down)) => Ok(
            Market {
                slug: slug_of(start_ts as int),
                title: match field(v, "question"@) {
                    Some(ItemView::Text(s)) => s,
                    _ => slug_of(start_ts as int),
                },
                start_ts,
                end_ts: (start_ts + WINDOW_SEC) as i64,
                up_token_id: up,
                down_token_id: down,
                twap_enabled: twap.0,
                twap_lookback_sec: twap.1 as i64,
            },
        ),
        Err(e) => Err(e),
    }
}

/// The market of a directory entry that has been read.
pub fn market_info(v: &Json, start_ts: i64, default_on: bool, default_lookback: i64) -> (r: Result<
    MarketInfo,
    GammaError,
>)
    requires
        -MAX_MS <= start_ts <= MAX_MS,
    ensures
        match (r, market_of(v@, start_ts, default_on, default_lookback as int)) {
            (Ok(a), Ok(b)) => a@ == b,
            (Err(a), Err(b)) => a == b,
            _ => false,
        },
{
    let tokens: Vec<String> = parse_json_array(v.get("clobTokenIds"));
    let outcomes: Vec<String> = parse_json_array(v.get("outcomes"));
    let (up_token_id, down_token_id) = match pick_up_down(&outcomes, &tokens) {
        Ok(p) => p,
        Err(e) => return Err(e),
    };
    let config: Option<Json> = item_nested(v.get("cryptoMarketConfig"));
    let (twap_enabled, twap_lookback_sec) = parse_twap_cfg(&config, default_on, default_lookback);
    let slug: String = btc5m_slug(start_ts);
    let title: String = match v.get("question") {
        Some(Item::Text(s)) => s.clone(),
        _ => slug.clone(),
    };
    Ok(
        MarketInfo {
            slug,
            title,
            start_ts,
            end_ts: start_ts + WINDOW_SEC,
            up_token_id,
            down_token_id,
            twap_enabled,
            twap_lookback_sec,
        },
    )
}

/// The address that an opening price is asked for at.
pub open spec fn ptb_address(
    base: Seq<char>,
    asset: Seq<char>,
    start_sec: int,
    twap_enabled: bool,
    twap_lookback_sec: int,
) -> Seq<char> {
    let plain = base + "?symbol="@ + raised(asset) + "&eventStartTime="@ + iso_text(start_sec)
        + "&variant=fiveminute&endDate="@ + iso_text(start_sec + WINDOW_SEC);
    if twap_enabled {
        plain + "&twapEnabled=true&twapLookbackSeconds="@ + number_text(
            if twap_lookback_sec >= 1 {
                twap_lookback_sec
            } else {
                1
            },
        )
    } else {
        plain
    }
}

/// The address that an opening price is asked for at.
pub fn ptb_url(
    base: &str,
    asset: &str,
    start_sec: i64,
    twap_enabled: bool,
    twap_lookback_sec: i64,
) -> (r: String)
    requires
        0 <= start_sec <= MAX_MS - WINDOW_SEC,
    ensures
        r@ == ptb_address(
            base@,
            asset@,
            start_sec as int,
            twap_enabled,
            twap_lookback_sec as int,
        ),
{
    let mut r: String = base.to_string();
    r.append("?symbol=");
    r.append(to_upper(asset).as_str());
    r.append("&eventStartTime=");
    r.append(chrono_iso(start_sec).as_str());
    r.append("&variant=fiveminute&endDate=");
    r.append(chrono_iso(start_sec + WINDOW_SEC).as_str());
    if twap_enabled {
        r.append("&twapEnabled=true&twapLookbackSeconds=");
        let lookback: i64 = if twap_lookback_sec >= 1 {
            twap_lookback_sec
        } else {
            1
        };
        r.append(number(lookback).as_str());
    }
    r
}

/// The opening price of an answer, above nothing.
pub open spec fn open_price(v: JsonView) -> Option<int> {
    match any_amount(field(v, "openPrice"@)) {
        Some(p) => if p > 0 {
            Some(p)
        } else {
            None
        },
        None => None,
    }
}

/// The opening price of an answer that has been read.
pub fn open_price_of(v: &Json) -> (r: Result<i64, GammaError>)
    ensures
        match (r, open_price(v@)) {
            (Ok(a), Some(b)) => a == b,
            (Err(e), None) => e == GammaError::NoOpenPrice,
            _ => false,
        },
        r matches Ok(p) ==> p > 0,
{
    match item_amount(v.get("openPrice")) {
        Some(p) => if p > 0 {
            Ok(p)
        } else {
            Err(GammaError::NoOpenPrice)
        },
        None => Err(GammaError::NoOpenPrice),
    }
}

/// The opening price of an answer's text.
pub fn parse_open_price(text: &str) -> (r: Result<i64, GammaError>)
    ensures
        match (
            r,
            match json_of(text@) {
                Some(v) => open_price(v),
                None => None,
            },
        ) {
            (Ok(a), Some(b)) => a == b,
            (Err(e), None) => e == GammaError::NoOpenPrice,
            _ => false,
        },
        r matches Ok(p) ==> p > 0,
{
    match read(text) {
        Some(v) => open_price_of(&v),
        None => Err(GammaError::NoOpenPrice),
    }
}

/// Whether an error's text speaks of too many requests.
pub fn is_rate_limited(message: &str) -> (r: bool)
    ensures
        r == has_part(message@, "429"@),
{
    contains(message, "429")
}

/// Waiting for an opening price that stops moving.
#[derive(Clone, Copy, Debug, PartialEq, Eq, Structural)]
pub struct PtbWait {
    pub last_px: Option<i64>,
    pub same: u32,
    pub attempts: u32,
}

/// What to do after an attempt at an opening price.
#[derive(Clone, Copy, Debug, PartialEq, Eq, Structural)]
pub enum PtbStep {
    /// The price has come back the same often enough.
    Locked(i64),
    /// Wait and try again.
    Retry,
    /// That was the last attempt; the price that came last, if any.
    GiveUp(Option<i64>),
}

/// The wait after an attempt.
pub open spec fn ptb_waited(w: PtbWait, px: Option<i64>) -> PtbWait {
    let attempts = (w.attempts + 1) as u32;
    match px {
        Some(p) => if w.last_px matches Some(prev) && magnitude(prev - p) < PTB_EPSILON {
            PtbWait { same: (w.same + 1) as u32, attempts, ..w }
        } else {
            PtbWait { last_px: Some(p), same: 1, attempts }
        },
        None => PtbWait { attempts, ..w },
    }
}

/// What to do after an attempt.
pub open spec fn ptb_step(w: PtbWait, px: Option<i64>) -> PtbStep {
    let after = ptb_waited(w, px);
    match px {
        Some(p) => if after.same >= PTB_STABLE && after.last_px == w.last_px && w.last_px is Some
            && magnitude(w.last_px->0 - p) < PTB_EPSILON {
            PtbStep::Locked(p)
        } else if after.attempts >= PTB_ATTEMPTS {
            PtbStep::GiveUp(after.last_px)
        } else {
            PtbStep::Retry
        },
        None => if after.attempts >= PTB_ATTEMPTS {
            PtbStep::GiveUp(after.last_px)
        } else {
            PtbStep::Retry
        },
    }
}

/// Whether a wait is valid.
pub open spec fn wait_ok(w: PtbWait) -> bool {
    &&& w.attempts < PTB_ATTEMPTS
    &&& w.same <= w.attempts
    &&& w.last_px matches Some(p) ==> p > 0
}

impl PtbWait {
    /// A wait that has not begun.
    pub fn new() -> (r: PtbWait)
        ensures
            r == (PtbWait { last_px: None, same: 0, attempts: 0 }),
            wait_ok(r),
    {
        PtbWait { last_px: None, same: 0, attempts: 0 }
    }

    /// Takes the outcome of an attempt: a price, or nothing.
    pub fn attempt(&mut self, px: Option<i64>) -> (r: PtbStep)
        requires
            wait_ok(*old(self)),
            px matches Some(p) ==> p > 0,
        ensures
            *final(self) == ptb_waited(*old(self), px),
            r == ptb_step(*old(self), px),
            r is Retry ==> wait_ok(*final(self)),
    {
        self.attempts = self.attempts + 1;
        if let Some(p) = px {
            let same_px: bool = match self.last_px {
                Some(prev) => abs(prev - p) < PTB_EPSILON,
                None => false,
            };
            if same_px {
                self.same = self.same + 1;
                if self.same >= PTB_STABLE {
                    return PtbStep::Locked(p);
                }
            } else {
                self.last_px = Some(p);
                self.same = 1;
            }
        }
        if self.attempts >= PTB_ATTEMPTS {
            PtbStep::GiveUp(self.last_px)
        } else {
            PtbStep::Retry
        }
    }
}

/// The wait after the first `n` of some prices.
pub open spec fn waited_through(prices: Seq<i64>, n: int) -> PtbWait
    decreases n,
{
    if n <= 0 {
        PtbWait { last_px: None, same: 0, attempts: 0 }
    } else {
        ptb_waited(waited_through(prices, n - 1), Some(prices[n - 1]))
    }
}

/// A price that moves at every attempt is never locked.
pub proof fn a_moving_price_is_not_locked(prices: Seq<i64>, n: int)
    requires
        0 <= n < prices.len(),
        forall|i: int, j: int|
            #![trigger prices[i], prices[j]]
            0 <= i < prices.len() && j == i + 1 && j < prices.len() ==> magnitude(
                prices[i] - prices[j],
            ) >= PTB_EPSILON,
    ensures
        !(ptb_step(waited_through(prices, n), Some(prices[n])) is Locked),
        n > 0 ==> waited_through(prices, n).last_px == Some(prices[n - 1]),
    decreases n,
{
    if n > 0 {
        a_moving_price_is_not_locked(prices, n - 1);
        if n > 1 {
            assert(magnitude(prices[n - 2] - prices[n - 1]) >= PTB_EPSILON);
        }
        assert(magnitude(prices[n - 1] - prices[n]) >= PTB_EPSILON);
    }
}

/// A price that has stopped moving is locked when it comes for the fourth time.
pub proof fn a_price_at_rest_is_locked(w: PtbWait, px: i64)
    requires
        w.attempts <= PTB_ATTEMPTS - PTB_STABLE,
        w.last_px matches Some(p) ==> magnitude(p - px) >= PTB_EPSILON,
    ensures
        ({
            let once = ptb_waited(w, Some(px));
            let twice = ptb_waited(once, Some(px));
            let thrice = ptb_waited(twice, Some(px));
            &&& ptb_step(w, Some(px)) is Retry
            &&& ptb_step(once, Some(px)) is Retry
            &&& ptb_step(twice, Some(px)) is Retry
            &&& ptb_step(thrice, Some(px)) == PtbStep::Locked(px)
        }),
{
}

} // verus!
