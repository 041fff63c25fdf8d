//! What texts, numbers, dates and answers are read as.
use vstd::prelude::*;
use crate::calendar::{date_of, day_number, is_date, iso_text};
use crate::decimal::{
    amount_of, decimal_of, digits_end, in_units, is_digit, shifted, ten, value, Decimal,
};
use crate::gamma::{
    answer_market, array_texts, as_market, event_market, event_markets, label_at, list_texts,
    market_of, open_price, picked, ptb_address, ptb_step, ptb_waited, setting_on, setting_whole,
    slug_of, small_labels, texts, twap_of, GammaError, PtbStep, PtbWait,
};
use crate::json::{
    any_amount, field, json_of, message_of, nested, pair_of, text_amount, whole_item, ItemView,
    JsonView,
};
use crate::text::{
    capital, digits_of, is_space, lead, lowered, number_text, padded, raised, small, tail, trimmed,
};
use crate::units::magnitude;

verus! {

proof fn leading_space(s: Seq<char>, i: int)
    requires
        0 <= i <= s.len(),
    ensures
        i <= lead(s, i) <= s.len(),
        forall|k: int| i <= k < lead(s, i) ==> is_space(#[trigger] s[k]),
        lead(s, i) < s.len() ==> !is_space(s[lead(s, i)]),
    decreases s.len() - i,
{
    if i < s.len() && is_space(s[i]) {
        leading_space(s, i + 1);
    }
}

proof fn trailing_space(s: Seq<char>, n: int)
    requires
        0 <= n <= s.len(),
    ensures
        0 <= tail(s, n) <= n,
        forall|k: int| tail(s, n) <= k < n ==> is_space(#[trigger] s[k]),
        tail(s, n) > 0 ==> !is_space(s[tail(s, n) - 1]),
    decreases n,
{
    if n > 0 && is_space(s[n - 1]) {
        trailing_space(s, n - 1);
    }
}

/// A trimmed text is what stands between the space at the ends of a text: outside it
/// there is nothing but space, and neither of its ends is.
pub proof fn trimming_takes_the_space_off(s: Seq<char>)
    ensures
        trimmed(s).len() > 0 ==> !is_space(trimmed(s)[0]) && !is_space(trimmed(s).last()),
        trimmed(s).len() > 0 ==> exists|a: int, b: int|
            0 <= a <= b <= s.len() && trimmed(s) == #[trigger] s.subrange(a, b) && (forall|k: int|
                0 <= k < s.len() && !(a <= k < b) ==> is_space(#[trigger] s[k])),
        trimmed(s).len() == 0 ==> forall|k: int| 0 <= k < s.len() ==> is_space(#[trigger] s[k]),
{
    leading_space(s, 0);
    trailing_space(s, s.len() as int);
    let a = lead(s, 0);
    let b = tail(s, s.len() as int);
    if a < b {
        assert(trimmed(s) == s.subrange(a, b));
    } else {
        assert forall|k: int| 0 <= k < s.len() implies is_space(#[trigger] s[k]) by {
            if k >= a {
                assert(k >= b);
            }
        }
    }
}

/// A blank, a tab and the ends of lines are space; what can be seen of ASCII is not.
pub proof fn blanks_are_space(c: char)
    ensures
        c as int == 0x20 || 0x9 <= c as int <= 0xd ==> is_space(c),
        0x21 <= c as int <= 0x7e ==> !is_space(c),
{
}

/// Small letters: each ASCII capital is 32 lower in the table than its small letter, and
/// all other characters stay.
pub proof fn letters_change_their_case(s: Seq<char>, i: int)
    requires
        0 <= i < s.len(),
    ensures
        lowered(s).len() == s.len(),
        raised(s).len() == s.len(),
        65 <= s[i] as int <= 90 ==> lowered(s)[i] as int == s[i] as int + 32,
        !(65 <= s[i] as int <= 90) ==> lowered(s)[i] == s[i],
        97 <= s[i] as int <= 122 ==> raised(s)[i] as int == s[i] as int - 32,
        !(97 <= s[i] as int <= 122) ==> raised(s)[i] == s[i],
{
}

/// Padding puts zeros before a text up to a width, and leaves a longer one.
pub proof fn padding_puts_zeros_before(s: Seq<char>, width: int)
    ensures
        s.len() >= width ==> padded(s, width) == s,
        s.len() < width ==> padded(s, width).len() == width && padded(s, width).skip(
            width - s.len(),
        ) == s && forall|i: int|
            0 <= i < width - s.len() ==> #[trigger] padded(s, width)[i] == '0',
    decreases width - s.len(),
{
    if s.len() < width {
        let longer = seq!['0'] + s;
        padding_puts_zeros_before(longer, width);
        let p = padded(s, width);
        assert(p == padded(longer, width));
        if longer.len() < width {
            assert(p.skip(width - longer.len()) == longer);
            assert forall|i: int| 0 <= i < width - s.len() implies #[trigger] p[i] == '0' by {
                if i == width - longer.len() {
                    assert(p.skip(width - longer.len())[0] == p[i]);
                }
            }
            assert(p.skip(width - s.len()) =~= s) by {
                assert forall|k: int| 0 <= k < s.len() implies p.skip(width - s.len())[k]
                    == s[k] by {
                    assert(p.skip(width - longer.len())[k + 1] == longer[k + 1]);
                }
            }
        } else {
            assert(p == longer);
            assert(p.skip(width - s.len()) =~= s);
        }
    }
}

/// A value of a message is that of the first pair with its key; what is no object has
/// none.
pub proof fn a_value_is_that_of_its_key(j: JsonView, key: Seq<char>, k: int)
    ensures
        !(j is Object) ==> field(j, key) is None,
        j matches JsonView::Object(pairs) ==> {
            &&& 0 <= k < pairs.len() && pairs[k].0 == key && (forall|i: int|
                0 <= i < k ==> (#[trigger] pairs[i]).0 != key) ==> field(j, key) == Some(pairs[k].1)
            &&& (forall|i: int| 0 <= i < pairs.len() ==> (#[trigger] pairs[i]).0 != key) ==> field(
                j,
                key,
            ) is None
        },
{
    if let JsonView::Object(pairs) = j {
        if 0 <= k < pairs.len() && pairs[k].0 == key && (forall|i: int|
            0 <= i < k ==> (#[trigger] pairs[i]).0 != key) {
            a_pair_is_found(pairs, key, 0, k);
        }
        if forall|i: int| 0 <= i < pairs.len() ==> (#[trigger] pairs[i]).0 != key {
            no_pair_is_found(pairs, key, 0);
        }
    }
}

proof fn a_pair_is_found(pairs: Seq<(Seq<char>, ItemView)>, key: Seq<char>, i: int, k: int)
    requires
        0 <= i <= k < pairs.len(),
        pairs[k].0 == key,
        forall|j: int| i <= j < k ==> (#[trigger] pairs[j]).0 != key,
    ensures
        pair_of(pairs, key, i) == Some(pairs[k].1),
    decreases k - i,
{
    if i < k {
        assert(pairs[i].0 != key);
        a_pair_is_found(pairs, key, i + 1, k);
    }
}

proof fn no_pair_is_found(pairs: Seq<(Seq<char>, ItemView)>, key: Seq<char>, i: int)
    requires
        0 <= i <= pairs.len(),
        forall|j: int| 0 <= j < pairs.len() ==> (#[trigger] pairs[j]).0 != key,
    ensures
        pair_of(pairs, key, i) is None,
    decreases pairs.len() - i,
{
    if i < pairs.len() {
        assert(pairs[i].0 != key);
        no_pair_is_found(pairs, key, i + 1);
    }
}

/// An amount may be a number or a text of one, in billionths; a whole number is only a
/// number.
pub proof fn amounts_are_numbers_or_texts(s: Seq<char>, b: bool)
    ensures
        any_amount(Some(ItemView::Number(s))) == amount_of(s, 9),
        any_amount(Some(ItemView::Text(s))) == amount_of(s, 9),
        any_amount(Some(ItemView::Bool(b))) is None,
        any_amount(Some(ItemView::Null)) is None,
        any_amount(None) is None,
        text_amount(Some(ItemView::Text(s))) == amount_of(s, 9),
        text_amount(Some(ItemView::Number(s))) is None,
        text_amount(None) is None,
        whole_item(Some(ItemView::Text(s))) is None,
        nested(Some(ItemView::Nested(s))) == json_of(s),
        nested(Some(ItemView::Text(s))) is None,
{
}

/// A socket's text without anything in it, and the answer to a ping, are no messages;
/// all others are read without the space around them.
pub proof fn pongs_are_no_messages(text: Seq<char>)
    ensures
        trimmed(text).len() == 0 ==> message_of(text) is None,
        trimmed(text) == "PONG"@ ==> message_of(text) is None,
        trimmed(text).len() > 0 && trimmed(text) != "PONG"@ ==> message_of(text) == json_of(
            trimmed(text),
        ),
{
}

proof fn digits_stop(s: Seq<char>, i: int, to: int)
    requires
        0 <= i <= to <= s.len(),
        forall|k: int| i <= k < to ==> is_digit(#[trigger] s[k]),
        to < s.len() ==> !is_digit(s[to]),
    ensures
        digits_end(s, i) == to,
    decreases to - i,
{
    if i < to {
        assert(is_digit(s[i]));
        digits_stop(s, i + 1, to);
    }
}

/// A number is read from its digits, with or without a point among them: `whole.part`
/// is the digits of both as one number, as many places down as the part has digits.
/// A minus before it makes it negative.
pub proof fn a_number_is_read_from_its_digits(whole: Seq<char>, part: Seq<char>)
    requires
        whole.len() > 0,
        forall|k: int| 0 <= k < whole.len() ==> is_digit(#[trigger] whole[k]),
        forall|k: int| 0 <= k < part.len() ==> is_digit(#[trigger] part[k]),
    ensures
        ({
            let s = whole + seq!['.'] + part;
            let m = value(s, value(s, 0, 0, whole.len() as int), whole.len() as int + 1, s.len() as int);
            decimal_of(s) == Some(
                Decimal { negative: false, mantissa: m, exponent: -(part.len() as int) },
            )
        }),
        decimal_of(whole) == Some(
            Decimal {
                negative: false,
                mantissa: value(whole, 0, 0, whole.len() as int),
                exponent: 0,
            },
        ),
        ({
            let s = seq!['-'] + whole;
            decimal_of(s) == Some(
                Decimal {
                    negative: true,
                    mantissa: value(s, 0, 1, s.len() as int),
                    exponent: 0,
                },
            )
        }),
{
    let s = whole + seq!['.'] + part;
    let n = whole.len() as int;
    assert forall|k: int| 0 <= k < n implies is_digit(#[trigger] s[k]) by {
        assert(s[k] == whole[k]);
    }
    assert(s[n] == '.');
    digits_stop(s, 0, n);
    assert forall|k: int| n + 1 <= k < s.len() implies is_digit(#[trigger] s[k]) by {
        assert(s[k] == part[k - n - 1]);
    }
    digits_stop(s, n + 1, s.len() as int);
    assert(is_digit(s[0]));
    assert(is_digit(whole[0]));
    digits_stop(whole, 0, n);
    let t = seq!['-'] + whole;
    assert(t[0] == '-');
    assert forall|k: int| 1 <= k < t.len() implies is_digit(#[trigger] t[k]) by {
        assert(t[k] == whole[k - 1]);
    }
    digits_stop(t, 1, t.len() as int);
}

/// Digits are worth ten times as much a place further to the left.
pub proof fn a_digit_adds_its_value(s: Seq<char>, before: int, from: int, to: int)
    requires
        0 <= from < to <= s.len(),
    ensures
        value(s, before, from, to) == value(s, before, from, to - 1) * 10 + (s[to - 1] as int - 48),
        value(s, before, from, from) == before,
    decreases to - from,
{
    if from < to - 1 {
        a_digit_adds_its_value(s, before * 10 + (s[from] as int - 48), from + 1, to);
    } else {
        assert(value(s, before * 10 + (s[from] as int - 48), to, to) == before * 10 + (s[from] as int
            - 48));
    }
}

/// A number in units is its mantissa with its places shifted; what is finer than a unit
/// is dropped.
pub proof fn finer_places_are_dropped(d: Decimal, places: int)
    requires
        d.mantissa >= 0,
    ensures
        ({
            let n = in_units(d, places);
            let size = if d.negative {
                -n
            } else {
                n
            };
            &&& d.exponent + places >= 0 ==> size == d.mantissa * ten(d.exponent + places)
            &&& d.exponent + places < 0 ==> size * ten(-(d.exponent + places)) <= d.mantissa < (size
                + 1) * ten(-(d.exponent + places))
        }),
        ten(0) == 1,
        places > 0 ==> ten(places) == 10 * ten(places - 1),
{
    let k = d.exponent + places;
    if k < 0 {
        ten_is_positive(-k);
        let t = ten(-k);
        let q = d.mantissa / t;
        vstd::arithmetic::div_mod::lemma_fundamental_div_mod(d.mantissa, t);
        vstd::arithmetic::div_mod::lemma_mod_bound(d.mantissa, t);
        assert(t * q == q * t) by (nonlinear_arith);
        assert((q + 1) * t == q * t + t) by (nonlinear_arith);
    }
}

proof fn ten_is_positive(n: int)
    ensures
        ten(n) > 0,
    decreases n,
{
    if n > 0 {
        ten_is_positive(n - 1);
    }
}

/// The days of the months, and the leap years among the years.
pub proof fn months_have_their_days(y: int, m: int, d: int)
    ensures
        is_date((y, m, d)) <==> 1 <= m <= 12 && 1 <= d && d <= (if m == 4 || m == 6 || m == 9 || m
            == 11 {
            30int
        } else if m == 2 {
            if y % 400 == 0 || (y % 4 == 0 && y % 100 != 0) {
                29
            } else {
                28
            }
        } else {
            31
        }),
{
}

/// Days are counted from the first of January 1970, one after the other.
pub proof fn days_follow_each_other(y: int, m: int, d: int)
    ensures
        day_number((1970, 1, 1)) == 0,
        day_number((y, m, d + 1)) == day_number((y, m, d)) + 1,
{
}

/// The first of a month is the day after the last of the month before.
pub proof fn months_follow_each_other(y: int, m: int, last: int)
    requires
        1 <= m < 12,
        is_date((y, m, last)),
        !is_date((y, m, last + 1)),
    ensures
        day_number((y, m + 1, 1)) == day_number((y, m, last)) + 1,
{
}

/// New year's day is the day after the last of December.
#[verifier::spinoff_prover]
pub proof fn years_follow_each_other(y: int)
    ensures
        day_number((y + 1, 1, 1)) == day_number((y, 12, 31)) + 1,
{
    let x = y - 1;
    assert(y / 4 == x / 4 + (if y % 4 == 0 {
        1int
    } else {
        0
    }));
    assert(y / 100 == x / 100 + (if y % 100 == 0 {
        1int
    } else {
        0
    }));
    assert(y / 400 == x / 400 + (if y % 400 == 0 {
        1int
    } else {
        0
    }));
    assert(y % 400 == 0 ==> y % 100 == 0);
    assert(y % 100 == 0 ==> y % 4 == 0);
}

/// The name of a market is its opening second behind `btc-updown-5m-`.
pub proof fn a_market_is_named_after_its_open(start_ts: int)
    ensures
        slug_of(start_ts) == "btc-updown-5m-"@ + number_text(start_ts),
{
}

proof fn a_label_is_found(
    labels: Seq<Seq<char>>,
    a: Seq<char>,
    b: Seq<char>,
    i: int,
)
    requires
        0 <= i <= labels.len(),
    ensures
        ({
            let k = label_at(labels, a, b, i);
            &&& i <= k <= labels.len()
            &&& forall|j: int| i <= j < k ==> (#[trigger] labels[j]) != a && labels[j] != b
            &&& k < labels.len() ==> labels[k] == a || labels[k] == b
        }),
    decreases labels.len() - i,
{
    if i < labels.len() && labels[i] != a && labels[i] != b {
        a_label_is_found(labels, a, b, i + 1);
    }
}

/// The UP token is the one labelled `up` or `yes`, the DOWN token the one labelled
/// `down` or `no`.  Without such labels the first two tokens are UP and DOWN.
pub proof fn tokens_are_picked_by_their_labels(labels: Seq<Seq<char>>, tokens: Seq<Seq<char>>)
    requires
        tokens.len() >= 2,
    ensures
        picked(labels, tokens) matches Ok((up, down)) ==> {
            &&& forall|k: int|
                0 <= k < labels.len() && (#[trigger] labels[k] == "up"@ || labels[k] == "yes"@) && (
                forall|j: int|
                    0 <= j < k ==> (#[trigger] labels[j]) != "up"@ && labels[j] != "yes"@)
                    ==> k < tokens.len() && up == tokens[k]
            &&& forall|k: int|
                0 <= k < labels.len() && (#[trigger] labels[k] == "down"@ || labels[k] == "no"@) && (
                forall|j: int|
                    0 <= j < k ==> (#[trigger] labels[j]) != "down"@ && labels[j] != "no"@)
                    ==> k < tokens.len() && down == tokens[k]
        },
        labels.len() == 0 ==> picked(labels, tokens) == Ok::<_, GammaError>((tokens[0], tokens[1])),
        labels.len() <= tokens.len() ==> picked(labels, tokens) is Ok,
{
    a_label_is_found(labels, "up"@, "yes"@, 0);
    a_label_is_found(labels, "down"@, "no"@, 0);
    let u = label_at(labels, "up"@, "yes"@, 0);
    let d = label_at(labels, "down"@, "no"@, 0);
    if let Ok((up, down)) = picked(labels, tokens) {
        assert forall|k: int|
            0 <= k < labels.len() && (#[trigger] labels[k] == "up"@ || labels[k] == "yes"@) && (
            forall|j: int|
                0 <= j < k ==> (#[trigger] labels[j]) != "up"@ && labels[j]
                    != "yes"@) implies k < tokens.len() && up == tokens[k] by {
            if u < k {
                assert(labels[u] != "up"@);
            }
            assert(u == k);
        }
        assert forall|k: int|
            0 <= k < labels.len() && (#[trigger] labels[k] == "down"@ || labels[k] == "no"@) && (
            forall|j: int|
                0 <= j < k ==> (#[trigger] labels[j]) != "down"@ && labels[j]
                    != "no"@) implies k < tokens.len() && down == tokens[k] by {
            if d < k {
                assert(labels[d] != "down"@);
            }
            assert(d == k);
        }
    }
}

/// Fewer than two tokens are no market's.
pub proof fn a_market_needs_two_tokens(labels: Seq<Seq<char>>, tokens: Seq<Seq<char>>)
    requires
        tokens.len() < 2,
    ensures
        picked(labels, tokens) == Err::<(Seq<char>, Seq<char>), _>(
            GammaError::TokenCount(tokens.len() as usize),
        ),
{
}

/// A market opens at the second it is looked up for and lasts five minutes; it is named
/// after that second and has the tokens that its labels pick.
pub proof fn a_market_lasts_five_minutes(
    v: JsonView,
    start_ts: i64,
    on: bool,
    lookback: int,
)
    requires
        start_ts <= 9_000_000_000_000_000_000,
    ensures
        ({
            let tokens = list_texts(field(v, "clobTokenIds"@));
            let labels = small_labels(list_texts(field(v, "outcomes"@)));
            match (market_of(v, start_ts, on, lookback), picked(labels, tokens)) {
                (Ok(m), Ok((up, down))) => {
                    &&& m.start_ts == start_ts
                    &&& m.end_ts == start_ts + 300
                    &&& m.up_token_id == up
                    &&& m.down_token_id == down
                    &&& m.slug == "btc-updown-5m-"@ + number_text(start_ts as int)
                    &&& field(v, "question"@) matches Some(ItemView::Text(q)) ==> m.title == q
                    &&& !(field(v, "question"@) matches Some(ItemView::Text(_))) ==> m.title
                        == m.slug
                },
                (Err(a), Err(b)) => a == b,
                _ => false,
            }
        }),
{
}

/// Whether the strike is an average, and over how long, is as the market says, else as
/// set; a length that is not above nothing says nothing.
pub proof fn the_market_says_how_it_is_struck(c: JsonView, on: bool, lookback: int)
    ensures
        twap_of(None, on, lookback) == (on, lookback),
        field(c, "twapEnabled"@) == Some(ItemView::Bool(true)) ==> twap_of(
            Some(c),
            on,
            lookback,
        ).0,
        field(c, "twapEnabled"@) == Some(ItemView::Bool(false)) ==> !twap_of(
            Some(c),
            on,
            lookback,
        ).0,
        field(c, "twapEnabled"@) is None ==> twap_of(Some(c), on, lookback).0 == on,
        ({
            let s = whole_item(field(c, "twapLookbackSeconds"@));
            &&& s is Some && s->0 > 0 ==> twap_of(Some(c), on, lookback).1 == s->0
            &&& s is None || s->0 <= 0 ==> twap_of(Some(c), on, lookback).1 == lookback
        }),
{
}

/// A list has its texts, in their order; a list that is itself a text has them only if
/// it has nothing else.
pub proof fn lists_have_their_texts(items: Seq<ItemView>)
    requires
        forall|i: int| 0 <= i < items.len() ==> (#[trigger] items[i]) is Text,
    ensures
        array_texts(Some(JsonView::Array(items)), true).len() == items.len(),
        array_texts(Some(JsonView::Array(items)), true) == array_texts(
            Some(JsonView::Array(items)),
            false,
        ),
        forall|i: int|
            0 <= i < items.len() ==> Some(
                ItemView::Text(#[trigger] array_texts(Some(JsonView::Array(items)), true)[i]),
            ) == Some(items[i]),
{
    all_are_texts(items, items.len() as int);
}

proof fn all_are_texts(items: Seq<ItemView>, n: int)
    requires
        0 <= n <= items.len(),
        forall|i: int| 0 <= i < items.len() ==> (#[trigger] items[i]) is Text,
    ensures
        texts(items, n).len() == n,
        forall|i: int| 0 <= i < n ==> ItemView::Text(#[trigger] texts(items, n)[i]) == items[i],
    decreases n,
{
    if n > 0 {
        all_are_texts(items, n - 1);
        assert(items[n - 1] is Text);
    }
}

/// What is not a text spoils a list that is itself a text.
pub proof fn a_stranger_spoils_a_list(items: Seq<ItemView>, k: int)
    requires
        0 <= k < items.len(),
        !(items[k] is Text),
    ensures
        array_texts(Some(JsonView::Array(items)), true).len() == 0,
{
}

/// An opening price is above nothing.
pub proof fn an_opening_price_is_above_nothing(v: JsonView)
    ensures
        ({
            let p = any_amount(field(v, "openPrice"@));
            &&& p is Some && p->0 > 0 ==> open_price(v) == p
            &&& p is None || p->0 <= 0 ==> open_price(v) is None
        }),
{
}

/// A setting is on if it says `true` or `1`, in any case and with space around it.
pub proof fn a_switch_says_true_or_one(s: Seq<char>, default: bool)
    ensures
        setting_on(Some(s), default) <==> lowered(trimmed(s)) == "true"@ || lowered(trimmed(s))
            == "1"@,
        setting_on(None, default) == default,
        setting_whole(None, 60) == 60,
{
}

/// Each attempt at an opening price counts.  A price within a hundredth of a cent of
/// the last is the same, and one that has come back the same four times is locked;
/// any other starts the count anew.  After 80 attempts the last price is taken.
pub proof fn an_opening_price_is_waited_for(w: PtbWait, px: Option<i64>)
    requires
        w.attempts < 1_000_000,
        w.same < 1_000_000,
    ensures
        ({
            let after = ptb_waited(w, px);
            let same = px is Some && w.last_px is Some && magnitude(w.last_px->0 - px->0) < 100_000;
            &&& after.attempts == w.attempts + 1
            &&& px is None ==> after.last_px == w.last_px && after.same == w.same
            &&& same ==> after.last_px == w.last_px && after.same == w.same + 1
            &&& px is Some && !same ==> after.last_px == px && after.same == 1
            &&& same && w.same >= 3 ==> ptb_step(w, px) == PtbStep::Locked(px->0)
            &&& !(same && w.same >= 3) && w.attempts < 79 ==> ptb_step(w, px) is Retry
            &&& !(same && w.same >= 3) && w.attempts >= 79 ==> ptb_step(w, px) == PtbStep::GiveUp(
                after.last_px,
            )
        }),
{
}

/// The text of a second has its date and its time of day: hours of 3600 seconds,
/// minutes of 60, two digits each.
pub proof fn a_second_has_its_text(day: int, h: int, m: int, s: int)
    requires
        day >= 0,
        0 <= h < 24,
        0 <= m < 60,
        0 <= s < 60,
    ensures
        ({
            let date = date_of(day);
            iso_text(day * 86_400 + h * 3_600 + m * 60 + s) == padded(digits_of(date.0), 4)
                + seq!['-'] + padded(digits_of(date.1), 2) + seq!['-'] + padded(
                digits_of(date.2),
                2,
            ) + seq!['T'] + padded(digits_of(h), 2) + seq![':'] + padded(digits_of(m), 2)
                + seq![':'] + padded(digits_of(s), 2) + seq!['Z']
        }),
{
    let ts = day * 86_400 + h * 3_600 + m * 60 + s;
    assert(ts / 86_400 == day && ts % 86_400 == h * 3_600 + m * 60 + s);
}

/// An answer gives the first market of its first event, if all that the event lists are
/// markets; an answer without events gives none.
pub proof fn an_answer_gives_its_first_market(
    body: JsonView,
    event: JsonView,
    events: Seq<ItemView>,
    markets: Seq<ItemView>,
)
    requires
        body == JsonView::Array(events),
        event is Object,
        nested(field(event, "markets"@)) == Some(JsonView::Array(markets)),
    ensures
        events.len() == 0 ==> answer_market(body) is None,
        events.len() > 0 && nested(Some(events[0])) == Some(event) ==> {
            let all = forall|i: int|
                0 <= i < markets.len() ==> (nested(Some(#[trigger] markets[i])) matches Some(v)
                    && as_market(v) is Some);
            &&& markets.len() == 0 || !all ==> answer_market(body) is None
            &&& markets.len() > 0 && all ==> answer_market(body) == as_market(
                nested(Some(markets[0]))->0,
            )
        },
        answer_market(event) == event_market(event),
        event_markets(event) == field(event, "markets"@),
{
}

/// An object is a market if its question is a text or none; a lone value is no market.
pub proof fn a_market_is_an_object_with_a_question(v: JsonView, i: ItemView)
    requires
        v is Object,
    ensures
        field(v, "question"@) is None ==> as_market(v) == Some(v),
        field(v, "question"@) matches Some(ItemView::Text(_)) ==> as_market(v) == Some(v),
        field(v, "question"@) matches Some(ItemView::Number(_)) ==> as_market(v) is None,
        field(v, "question"@) matches Some(ItemView::Bool(_)) ==> as_market(v) is None,
        field(v, "question"@) matches Some(ItemView::Nested(_)) ==> as_market(v) is None,
        as_market(JsonView::Lone(i)) is None,
{
}

/// An opening price is asked for with the window's open and its end five minutes later,
/// and with the length of the average, a second at least, where it is one.
pub proof fn a_price_is_asked_for_from_open_to_end(
    base: Seq<char>,
    asset: Seq<char>,
    start: int,
    lookback: int,
)
    ensures
        ({
            let plain = base + "?symbol="@ + raised(asset) + "&eventStartTime="@ + iso_text(start)
                + "&variant=fiveminute&endDate="@ + iso_text(start + 300);
            &&& ptb_address(base, asset, start, false, lookback) == plain
            &&& lookback >= 1 ==> ptb_address(base, asset, start, true, lookback) == plain
                + "&twapEnabled=true&twapLookbackSeconds="@ + number_text(lookback)
            &&& lookback < 1 ==> ptb_address(base, asset, start, true, lookback) == ptb_address(
                base,
                asset,
                start,
                true,
                1,
            )
        }),
{
}

} // verus!
