//! Drop semantics: malformed, partially-empty and unrelated payloads yield
//! zero output records; classification is deterministic and ordered.
use crypto_transform_hub::binance::TimestampMode;
use crypto_transform_hub::candle::ConversionError;
use crypto_transform_hub::my_transform;
use crypto_transform_hub::okx::OkxMessage;

fn run(payload: &str) -> Option<(Vec<u8>, Vec<u8>)> {
    my_transform(payload.as_bytes(), &TimestampMode::KlineOpenTime).map(|r| (r.key, r.value))
}

#[test]
fn empty_outer_array_drops() {
    assert!(run(r#"{"result": []}"#).is_none());
    assert!(run(r#"{"data": []}"#).is_none());
}

#[test]
fn empty_inner_array_drops() {
    assert!(run(r#"{"result": [[]]}"#).is_none());
    assert!(run(r#"{"data": [[]]}"#).is_none());
}

#[test]
fn short_row_drops() {
    // five cells where the kline schema needs six
    assert!(run(r#"{"result": [[1, "2", "3", "4", "5"]]}"#).is_none());
    // four cells where the candle-array schema needs five
    assert!(run(r#"{"data": [["1", "2", "3", "4"]]}"#).is_none());
}

#[test]
fn minimal_rows_convert() {
    assert!(run(r#"{"result": [[1, "2", "3", "4", "5", "6"]]}"#).is_some());
    assert!(run(r#"{"data": [["1", "2", "3", "4", "5"]]}"#).is_some());
}

#[test]
fn unrelated_payloads_drop() {
    assert!(run(r#"{"foo": 1}"#).is_none());
    assert!(run(r#"{"result": 5}"#).is_none());
    assert!(run(r#"{"result": [[true, "2", "3", "4", "5", "6"]]}"#).is_none());
    assert!(run(r#"{"data": [[null]]}"#).is_none());
    assert!(run(r#"[1, 2, 3]"#).is_none());
    assert!(run(r#""just a string""#).is_none());
    assert!(run("not json at all").is_none());
    assert!(run("").is_none());
    assert!(run("{}").is_none());
}

#[test]
fn malformed_json_drops() {
    assert!(run(r#"{"result": [[1, "2"]"#).is_none());
    assert!(run(r#"{"result": [[01]]}"#).is_none());
    assert!(run(r#"{"result": [[1,]]}"#).is_none());
    assert!(run(r#"{"result": [[1]], }"#).is_none());
    assert!(run("{\"result\": [[\"\x01\"]]}").is_none());
}

#[test]
fn trailing_garbage_drops() {
    let good = r#"{"result": [[1, "2", "3", "4", "5", "6"]]}"#;
    assert!(run(good).is_some());
    assert!(run(&format!("{good}x")).is_none());
    assert!(run(&format!("{good} ")).is_some());
}

#[test]
fn duplicate_required_key_drops() {
    assert!(run(r#"{"result": [], "result": [[1, "2", "3", "4", "5", "6"]]}"#).is_none());
    assert!(run(r#"{"price":"1","price":"2","open_24h":"1","volume_24h":"1","low_24h":"1","high_24h":"1"}"#).is_none());
}

#[test]
fn missing_required_field_drops() {
    // four of the five ticker fields present
    assert!(run(r#"{"price":"1","open_24h":"1","volume_24h":"1","low_24h":"1"}"#).is_none());
}

#[test]
fn unquoted_ticker_field_drops() {
    // the ticker schema requires quoted decimal strings
    assert!(
        run(r#"{"price":1,"open_24h":"1","volume_24h":"1","low_24h":"1","high_24h":"1"}"#)
            .is_none()
    );
}

#[test]
fn deep_nesting_in_ignored_member_drops() {
    let deep = format!(
        r#"{{"x": {}{}, "result": [[1, "2", "3", "4", "5", "6"]]}}"#,
        "[".repeat(200),
        "]".repeat(200)
    );
    assert!(run(&deep).is_none());
    let shallow = format!(
        r#"{{"x": {}{}, "result": [[1, "2", "3", "4", "5", "6"]]}}"#,
        "[".repeat(20),
        "]".repeat(20)
    );
    assert!(run(&shallow).is_some());
}

#[test]
fn conversion_is_idempotent() {
    let payloads = [
        r#"{"result": [[1655971200000, "0.01086000", "0.01086600", "0.01083600", "0.01083800", "2290.53800000"]]}"#,
        r#"{"price":"3659.37","open_24h":"3395.8","volume_24h":"94855.97317284","low_24h":"3369.06","high_24h":"3671.07"}"#,
        r#"{"data": [["1712597400000", "71338.4", "71338.8", "71338.1", "71338.8"]]}"#,
    ];
    for p in payloads {
        let a = run(p).expect("payload must convert");
        let b = run(p).expect("payload must convert");
        assert_eq!(a, b);
    }
}

#[test]
fn priority_order_is_deterministic() {
    // a payload carrying both the kline and the candle-array required keys:
    // the kline adapter stands earlier in the order and always wins
    let both = r#"{"result": [[1, "2", "3", "4", "5", "6"]], "data": [["9", "8", "7", "6", "5"]]}"#;
    let rec = run(both).expect("payload must convert");
    assert_eq!(rec.0, b"BNBBTC".to_vec());
    assert!(String::from_utf8(rec.1).unwrap().contains(r#""source":"Binance""#));

    // a payload satisfying both the ticker and the candle-array schema:
    // the ticker adapter stands earlier and always wins
    let both2 = r#"{"price":"1","open_24h":"2","volume_24h":"3","low_24h":"4","high_24h":"5","data":[["9","8","7","6","5"]]}"#;
    let rec2 = run(both2).expect("payload must convert");
    assert_eq!(rec2.0, b"Coinbase".to_vec());
    assert!(String::from_utf8(rec2.1).unwrap().contains(r#""source":"Coinbase""#));
}

#[test]
fn whitespace_is_tolerated() {
    let spaced = "  {  \"data\" : [ [ \"1\" , \"2\" , \"3\" , \"4\" , \"5\" ] ] }  \n";
    assert!(run(spaced).is_some());
}

#[test]
fn missing_data_error_is_reported_by_conversion() {
    let empty_outer = OkxMessage { data: vec![] };
    assert!(matches!(empty_outer.to_candle(), Err(ConversionError::MissingData)));
    let empty_inner = OkxMessage { data: vec![vec![]] };
    assert!(matches!(empty_inner.to_candle(), Err(ConversionError::MissingData)));
    let short_row = OkxMessage {
        data: vec![vec![b"1".to_vec(), b"2".to_vec(), b"3".to_vec(), b"4".to_vec()]],
    };
    assert!(matches!(short_row.to_candle(), Err(ConversionError::MissingData)));
}
