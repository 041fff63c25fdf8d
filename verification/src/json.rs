//! JSON messages, one level at a time.
//!
//! What stands inside an array or an object is a value, or the text of an array
//! or an object of its own.
use serde_json::Value;
use vstd::prelude::*;
use crate::decimal::{amount_of, read_nanos, read_whole, whole_of};
use crate::text::{same, trim, trimmed};

verus! {

/// A value inside an array or an object; `Nested` holds the text of an inner
/// array or object.
#[derive(Debug)]
pub enum Item {
    Null,
    Bool(bool),
    Number(String),
    Text(String),
    Nested(String),
}

/// A message: a lone value, an array or an object.
#[derive(Debug)]
pub enum Json {
    Lone(Item),
    Array(Vec<Item>),
    Object(Vec<(String, Item)>),
}

/// A value inside an array or an object.
pub enum ItemView {
    Null,
    Bool(bool),
    Number(Seq<char>),
    Text(Seq<char>),
    Nested(Seq<char>),
}

/// A message.
pub enum JsonView {
    Lone(ItemView),
    Array(Seq<ItemView>),
    Object(Seq<(Seq<char>, ItemView)>),
}

impl View for Item {
    type V = ItemView;

    open spec fn view(&self) -> ItemView {
        match self {
            Item::Null => ItemView::Null,
            Item::Bool(b) => ItemView::Bool(*b),
            Item::Number(s) => ItemView::Number(s@),
            Item::Text(s) => ItemView::Text(s@),
            Item::Nested(s) => ItemView::Nested(s@),
        }
    }
}

impl View for Json {
    type V = JsonView;

    open spec fn view(&self) -> JsonView {
        match self {
            Json::Lone(i) => JsonView::Lone(i@),
            Json::Array(v) => JsonView::Array(v@.map_values(|i: Item| i@)),
            Json::Object(v) => JsonView::Object(
                v@.map_values(|p: (String, Item)| (p.0@, p.1@)),
            ),
        }
    }
}

/// What `serde_json::from_str` makes of a text: nothing if the text is not
/// JSON, else its value, seen one level deep.  An object's keys are distinct;
/// numbers and inner values are given as serde_json writes them.
pub uninterp spec fn json_of(text: Seq<char>) -> Option<JsonView>;

/// Reads a JSON text with `serde_json::from_str`; inner arrays and objects are
/// written out again as text.  Claimed is that what comes back depends on the
/// text alone; what it is for a given text is not stated.
#[verifier::external_body]
pub(crate) fn parse_json(text: &str) -> (r: Option<Json>)
    ensures
        match (r, json_of(text@)) {
            (Some(a), Some(b)) => a@ == b,
            (None, None) => true,
            _ => false,
        },
{
    let item = |v: &Value| match v {
        Value::Null => Item::Null,
        Value::Bool(b) => Item::Bool(*b),
        Value::Number(n) => Item::Number(n.to_string()),
        Value::String(s) => Item::Text(s.clone()),
        inner => Item::Nested(inner.to_string()),
    };
    serde_json::from_str::<Value>(text).ok().map(|v| match v {
        Value::Array(a) => Json::Array(a.iter().map(item).collect()),
        Value::Object(m) => {
            Json::Object(m.iter().map(|(k, v)| (k.clone(), item(v))).collect())
        }
        lone => Json::Lone(item(&lone)),
    })
}

/// The value of a key among pairs from `i` on.
pub open spec fn pair_of(pairs: Seq<(Seq<char>, ItemView)>, key: Seq<char>, i: int) -> Option<
    ItemView,
>
    decreases pairs.len() - i,
{
    if !(0 <= i < pairs.len()) {
        None
    } else if pairs[i].0 == key {
        Some(pairs[i].1)
    } else {
        pair_of(pairs, key, i + 1)
    }
}

/// The value of a key; only an object has any.
pub open spec fn field(j: JsonView, key: Seq<char>) -> Option<ItemView> {
    match j {
        JsonView::Object(pairs) => pair_of(pairs, key, 0),
        _ => None,
    }
}

/// The text that a value is.
pub open spec fn text_item(i: Option<ItemView>) -> Option<Seq<char>> {
    match i {
        Some(ItemView::Text(s)) => Some(s),
        _ => None,
    }
}

/// The amount that a text is, in billionths.
pub open spec fn text_amount(i: Option<ItemView>) -> Option<int> {
    match i {
        Some(ItemView::Text(s)) => amount_of(s, 9),
        _ => None,
    }
}

/// The amount that a number or a text is, in billionths.
pub open spec fn any_amount(i: Option<ItemView>) -> Option<int> {
    match i {
        Some(ItemView::Number(s)) => amount_of(s, 9),
        Some(ItemView::Text(s)) => amount_of(s, 9),
        _ => None,
    }
}

/// The whole number that a number is.
pub open spec fn whole_item(i: Option<ItemView>) -> Option<int> {
    match i {
        Some(ItemView::Number(s)) => whole_of(s),
        _ => None,
    }
}

/// The message that a value has inside it.
pub open spec fn nested(i: Option<ItemView>) -> Option<JsonView> {
    match i {
        Some(ItemView::Nested(s)) => json_of(s),
        _ => None,
    }
}

/// An optional amount that is the one of a contract.
pub open spec fn same_amount(a: Option<i64>, b: Option<int>) -> bool {
    match (a, b) {
        (Some(x), Some(y)) => x == y,
        (None, None) => true,
        _ => false,
    }
}

/// The view of an optional value.
pub open spec fn seen(i: Option<&Item>) -> Option<ItemView> {
    match i {
        Some(item) => Some(item@),
        None => None,
    }
}

/// The view of an optional message.
pub open spec fn seen_json(j: Option<Json>) -> Option<JsonView> {
    match j {
        Some(json) => Some(json@),
        None => None,
    }
}

/// The view of an optional text.
pub open spec fn seen_text(s: Option<String>) -> Option<Seq<char>> {
    match s {
        Some(text) => Some(text@),
        None => None,
    }
}

impl Json {
    /// The value of a key.
    pub fn get(&self, key: &str) -> (r: Option<&Item>)
        ensures
            seen(r) == field(self@, key@),
    {
        match self {
            Json::Object(pairs) => {
                let ghost view = pairs@.map_values(|p: (String, Item)| (p.0@, p.1@));
                let mut i: usize = 0;
                while i < pairs.len()
                    invariant
                        i <= pairs.len(),
                        view == pairs@.map_values(|p: (String, Item)| (p.0@, p.1@)),
                        pair_of(view, key@, 0) == pair_of(view, key@, i as int),
                        self@ == JsonView::Object(view),
                    decreases pairs.len() - i,
                {
                    proof {
                        assert(view[i as int] == (pairs@[i as int].0@, pairs@[i as int].1@));
                    }
                    if same(pairs[i].0.as_str(), key) {
                        return Some(&pairs[i].1);
                    }
                    i = i + 1;
                }
                None
            },
            _ => None,
        }
    }
}

/// Reads a JSON text.
pub fn read(text: &str) -> (r: Option<Json>)
    ensures
        seen_json(r) == json_of(text@),
{
    parse_json(text)
}

/// The message that a socket's text is, whatever the white space around it: none
/// if it is empty or the answer to a ping.
pub open spec fn message_of(text: Seq<char>) -> Option<JsonView> {
    let t = trimmed(text);
    if t.len() == 0 || t == "PONG"@ {
        None
    } else {
        json_of(t)
    }
}

/// Reads the message that a socket's text is.
pub fn read_message(text: &str) -> (r: Option<Json>)
    ensures
        seen_json(r) == message_of(text@),
{
    let t: String = trim(text);
    if t.as_str().is_empty() || same(t.as_str(), "PONG") {
        return None;
    }
    read(t.as_str())
}

/// The text that a value is.
pub fn item_text(i: Option<&Item>) -> (r: Option<String>)
    ensures
        seen_text(r) == text_item(seen(i)),
{
    match i {
        Some(Item::Text(s)) => Some(s.clone()),
        _ => None,
    }
}

/// Whether a value is a given text.
pub fn item_is(i: Option<&Item>, text: &str) -> (r: bool)
    ensures
        r == (text_item(seen(i)) == Some(text@)),
{
    match i {
        Some(Item::Text(s)) => same(s.as_str(), text),
        _ => false,
    }
}

/// The amount that a text is.
pub fn item_text_amount(i: Option<&Item>) -> (r: Option<i64>)
    ensures
        same_amount(r, text_amount(seen(i))),
{
    match i {
        Some(Item::Text(s)) => read_nanos(s.as_str()),
        _ => None,
    }
}

/// The amount that a number or a text is.
pub fn item_amount(i: Option<&Item>) -> (r: Option<i64>)
    ensures
        same_amount(r, any_amount(seen(i))),
{
    match i {
        Some(Item::Number(s)) => read_nanos(s.as_str()),
        Some(Item::Text(s)) => read_nanos(s.as_str()),
        _ => None,
    }
}

/// The whole number that a number is.
pub fn item_whole(i: Option<&Item>) -> (r: Option<i64>)
    ensures
        same_amount(r, whole_item(seen(i))),
{
    match i {
        Some(Item::Number(s)) => read_whole(s.as_str()),
        _ => None,
    }
}

/// The message that a value has inside it.
pub fn item_nested(i: Option<&Item>) -> (r: Option<Json>)
    ensures
        seen_json(r) == nested(seen(i)),
{
    match i {
        Some(Item::Nested(s)) => parse_json(s.as_str()),
        _ => None,
    }
}

} // verus!
