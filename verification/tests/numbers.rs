//! Numeric coercion: string and number spellings agree, unparseable fields
//! default to zero, and the supported range bounds what a candle can carry.
use crypto_transform_hub::binance::TimestampMode;
use crypto_transform_hub::my_transform;

fn run(payload: &str) -> Option<String> {
    my_transform(payload.as_bytes(), &TimestampMode::KlineOpenTime)
        .map(|r| String::from_utf8(r.value).unwrap())
}

fn open_field(payload: &str) -> String {
    let v = run(payload).expect("payload must convert");
    let json: serde_json::Value = serde_json::from_str(&v).unwrap();
    json["open"].to_string()
}

#[test]
fn string_and_number_spellings_agree() {
    let quoted = r#"{"result": [[0, "0.01086000", "1", "1", "1", "1"]]}"#;
    let bare = r#"{"result": [[0, 0.01086000, "1", "1", "1", "1"]]}"#;
    assert_eq!(run(quoted).unwrap(), run(bare).unwrap());
    assert!(run(quoted).unwrap().contains(r#""open":0.01086,"#));
}

#[test]
fn unparseable_field_defaults_to_zero() {
    assert_eq!(open_field(r#"{"result": [[0, "abc", "1", "1", "1", "1"]]}"#), "0.0");
    assert_eq!(open_field(r#"{"result": [[0, "", "1", "1", "1", "1"]]}"#), "0.0");
    assert_eq!(open_field(r#"{"result": [[0, "1.2.3", "1", "1", "1", "1"]]}"#), "0.0");
    assert_eq!(open_field(r#"{"result": [[0, "1e", "1", "1", "1", "1"]]}"#), "0.0");
}

#[test]
fn non_finite_spellings_coerce_to_zero() {
    assert_eq!(open_field(r#"{"result": [[0, "inf", "1", "1", "1", "1"]]}"#), "0.0");
    assert_eq!(open_field(r#"{"result": [[0, "-inf", "1", "1", "1", "1"]]}"#), "0.0");
    assert_eq!(open_field(r#"{"result": [[0, "NaN", "1", "1", "1", "1"]]}"#), "0.0");
}

#[test]
fn exponent_spellings_normalize() {
    assert_eq!(open_field(r#"{"result": [[0, "1.5e3", "1", "1", "1", "1"]]}"#), "1500.0");
    assert_eq!(open_field(r#"{"result": [[0, 2e-2, "1", "1", "1", "1"]]}"#), "0.02");
    assert_eq!(open_field(r#"{"result": [[0, "2E+1", "1", "1", "1", "1"]]}"#), "20.0");
    assert_eq!(open_field(r#"{"result": [[0, "-12.300", "1", "1", "1", "1"]]}"#), "-12.3");
    assert_eq!(open_field(r#"{"result": [[0, "+3", "1", "1", "1", "1"]]}"#), "3.0");
    assert_eq!(open_field(r#"{"result": [[0, "5.", "1", "1", "1", "1"]]}"#), "5.0");
    assert_eq!(open_field(r#"{"result": [[0, ".25", "1", "1", "1", "1"]]}"#), "0.25");
}

#[test]
fn minus_zero_normalizes_to_plain_zero() {
    assert_eq!(open_field(r#"{"result": [[0, "-0", "1", "1", "1", "1"]]}"#), "0.0");
    assert_eq!(open_field(r#"{"result": [[0, -0.000, "1", "1", "1", "1"]]}"#), "0.0");
}

#[test]
fn out_of_range_string_coerces_to_zero() {
    // beyond the supported magnitude either way
    assert_eq!(open_field(r#"{"result": [[0, "1e400", "1", "1", "1", "1"]]}"#), "0.0");
    assert_eq!(open_field(r#"{"result": [[0, "1e-400", "1", "1", "1", "1"]]}"#), "0.0");
}

#[test]
fn out_of_range_bare_number_drops_message() {
    // an unrepresentable bare JSON number fails the whole decode
    assert!(run(r#"{"result": [[0, 1e400, "1", "1", "1", "1"]]}"#).is_none());
    // a vanishingly small one underflows to zero instead
    assert_eq!(open_field(r#"{"result": [[0, 1e-400, "1", "1", "1", "1"]]}"#), "0.0");
}

#[test]
fn observed_timestamp_is_exact_millis() {
    let rec = my_transform(
        r#"{"result": [[0, "1", "1", "1", "1", "1"]]}"#.as_bytes(),
        &TimestampMode::Observed(-5),
    )
    .unwrap();
    assert!(String::from_utf8(rec.value).unwrap().contains(r#""timestamp":-5.0,"#));
}

#[test]
fn escaped_spelling_is_not_a_number() {
    // escape sequences are validated but kept raw, so an escaped digit
    // string does not read as a number and coerces to zero
    assert_eq!(open_field(r#"{"result": [[0, "\u0031", "1", "1", "1", "1"]]}"#), "0.0");
}

#[test]
fn extreme_observed_timestamps_are_exact() {
    let payload = r#"{"result": [[0, "1", "1", "1", "1", "1"]]}"#;
    let rec = my_transform(payload.as_bytes(), &TimestampMode::Observed(i64::MIN)).unwrap();
    assert!(String::from_utf8(rec.value)
        .unwrap()
        .contains(r#""timestamp":-9223372036854775808.0,"#));
    let rec = my_transform(payload.as_bytes(), &TimestampMode::Observed(i64::MAX)).unwrap();
    assert!(String::from_utf8(rec.value)
        .unwrap()
        .contains(r#""timestamp":9223372036854775807.0,"#));
}
