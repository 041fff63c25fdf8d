use polybot::feeds::ptb_twap::parse_px;

#[test]
fn e18_integer_string() {
    let p = r#"{ "full_accuracy_value": "68000000000000000000000", "value": 68000.0 }"#;
    let px = parse_px(p).unwrap() as f64 / 1e9;
    assert!((px - 68000.0).abs() < 1e-6);
}

#[test]
fn falls_back_to_value() {
    let p = r#"{ "value": "73727.594" }"#;
    let px = parse_px(p).unwrap() as f64 / 1e9;
    assert!((px - 73727.594).abs() < 1e-6);
}
