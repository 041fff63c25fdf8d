use polybot::decimal::{huge, read_amount, read_nanos, read_whole};
use polybot::json::{item_amount, item_is, item_nested, item_text, item_whole, read, Item, Json};
use polybot::text::{
    contains, digits, number, padded_digits, same, starts_with, to_lower, to_upper, trim,
};
use polybot::units::{abs, clamp, integer_sqrt, round_div, trunc_div};

#[test]
fn texts() {
    assert!(same("ab", "ab") && !same("ab", "abc") && !same("ab", "aB"));
    assert_eq!(trim(" \t a b\u{a0}\n"), "a b");
    assert_eq!(trim("   "), "");
    assert_eq!(to_lower("ABC-\u{c4}z"), "abc-\u{c4}z");
    assert_eq!(to_upper("abc-\u{e4}Z"), "ABC-\u{e4}Z");
    assert!(contains("hello", "ell") && contains("a", "") && !contains("hel", "hell"));
    assert!(starts_with("0xab", "0x") && !starts_with("x0", "0x") && !starts_with("0", "0x"));
    assert_eq!(digits(18_446_744_073_709_551_615), "18446744073709551615");
    assert_eq!(number(i64::MIN), "-9223372036854775808");
    assert_eq!(number(0), "0");
    assert_eq!(padded_digits(7, 3), "007");
    assert_eq!(padded_digits(1_234, 3), "1234");
}

#[test]
fn decimals() {
    for (text, n) in [
        ("1", Some(1_000_000_000)),
        ("-0.5", Some(-500_000_000)),
        ("+2.25", Some(2_250_000_000)),
        (".5", Some(500_000_000)),
        ("5.", Some(5_000_000_000)),
        ("1e3", Some(1_000_000_000_000)),
        ("1.5E-3", Some(1_500_000)),
        ("0.0000000004", Some(0)),
        ("73727.594", Some(73_727_594_000_000)),
        ("", None),
        (".", None),
        ("-", None),
        ("1e", None),
        ("1 ", None),
        ("0x10", None),
        ("1.2.3", None),
    ] {
        assert_eq!(read_nanos(text), n, "{text}");
    }
}

#[test]
fn all_that_fits_is_read() {
    assert_eq!(read_nanos("9223372036.854775807"), Some(i64::MAX));
    assert_eq!(read_nanos("9223372036.854775808"), None);
    assert_eq!(read_nanos("-9223372036.8547758089"), Some(i64::MIN));
    assert_eq!(read_nanos("-9223372036.854775809"), None);
    assert_eq!(read_nanos(&format!("0.{}", "3".repeat(200_000))), Some(333_333_333));
    assert_eq!(read_nanos(&format!("{}7", "0".repeat(200_000))), Some(7_000_000_000));
    assert_eq!(read_nanos(&format!("12{}e-200000", "0".repeat(200_000))), Some(12_000_000_000));
    assert_eq!(read_nanos(&format!("0.{}5e200001", "0".repeat(200_000))), Some(5_000_000_000));
    let far = "9".repeat(50);
    assert_eq!(read_nanos(&format!("123e-{far}")), Some(0));
    assert_eq!(read_nanos(&format!("0.00e{far}")), Some(0));
    assert_eq!(read_nanos(&format!("0.01e{far}")), None);
    assert_eq!(read_nanos(&format!("1e{far}x")), None);
    assert!(huge(&format!("1e{far}")) && !huge(&format!("1e-{far}")));
}

#[test]
fn amounts_of_other_places() {
    assert_eq!(read_amount("68000000000000000000000", -9), Some(68_000_000_000_000));
    assert_eq!(read_amount("12.34", 2), Some(1_234));
    assert_eq!(read_amount("x", 2), None);
    assert!(huge("10000000001") && huge("1.1e10") && huge("-1.1e10"));
    assert!(!huge("10000000000") && !huge("9999999999.9"));
}

#[test]
fn whole_numbers() {
    assert_eq!(read_whole("-9223372036854775808"), Some(i64::MIN));
    assert_eq!(read_whole("9223372036854775808"), None);
    assert_eq!(read_whole("1.0"), None);
    assert_eq!(read_whole(""), None);
    assert_eq!(read_whole("+3"), Some(3));
}

#[test]
fn json_is_read_one_level_deep() {
    let v = read(r#"{"a": [1, "x"], "b": null, "c": true, "d": 1.5, "e": "t"}"#).unwrap();
    assert!(matches!(v.get("b"), Some(Item::Null)));
    assert!(matches!(v.get("c"), Some(Item::Bool(true))));
    assert!(v.get("f").is_none());
    assert_eq!(item_amount(v.get("d")), Some(1_500_000_000));
    assert_eq!(item_text(v.get("e")).as_deref(), Some("t"));
    assert!(item_is(v.get("e"), "t") && !item_is(v.get("d"), "t"));
    assert_eq!(item_whole(v.get("d")), None);
    let inner = item_nested(v.get("a")).unwrap();
    assert!(matches!(&inner, Json::Array(items) if items.len() == 2));
    if let Json::Array(items) = inner {
        assert_eq!(item_whole(Some(&items[0])), Some(1));
        assert_eq!(item_text(Some(&items[1])).as_deref(), Some("x"));
    }
    assert!(matches!(read("7"), Some(Json::Lone(Item::Number(n))) if n == "7"));
    assert!(read("{").is_none());
}

#[test]
fn arithmetic() {
    assert_eq!((clamp(5, 0, 3), clamp(-5, 0, 3), clamp(2, 0, 3)), (3, 0, 2));
    assert_eq!((abs(-5), abs(5)), (5, 5));
    assert_eq!((round_div(5, 2), round_div(-5, 2), round_div(4, 3)), (3, -3, 1));
    assert_eq!((trunc_div(5, 2), trunc_div(-5, 2)), (2, -2));
    assert_eq!((integer_sqrt(0), integer_sqrt(15), integer_sqrt(16)), (0, 3, 4));
}
