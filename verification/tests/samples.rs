//! The three exchange sample payloads convert to exactly the documented
//! candles.
use crypto_transform_hub::binance::TimestampMode;
use crypto_transform_hub::candle::candle_json;
use crypto_transform_hub::coinbase::CoinbaseMessage;
use crypto_transform_hub::classify;
use crypto_transform_hub::my_transform;
use crypto_transform_hub::my_transform_now;
use crypto_transform_hub::now;
use crypto_transform_hub::CryptoMessage;

const BINANCE_SAMPLE: &str = r#"{
  "id": "1dbbeb56-8eea-466a-8f6e-86bdcfa2fc0b",
  "status": 200,
  "result": [
    [
      1655971200000,
      "0.01086000",
      "0.01086600",
      "0.01083600",
      "0.01083800",
      "2290.53800000",
      1655974799999,
      "24.85074442",
      2283,
      "1171.64000000",
      "12.71225884",
      "0"
    ]
  ],
  "rateLimits": [
    {
      "rateLimitType": "REQUEST_WEIGHT",
      "interval": "MINUTE",
      "intervalNum": 1,
      "limit": 6000,
      "count": 2
    }
  ]
}"#;

const COINBASE_SAMPLE: &str = r#"{
    "type":"ticker",
    "sequence":58303904263,
    "product_id":"ETH-USD",
    "price":"3659.37",
    "open_24h":"3395.8",
    "volume_24h":"94855.97317284",
    "low_24h":"3369.06",
    "high_24h":"3671.07",
    "volume_30d":"3689477.67843382",
    "best_bid":"3659.36",
    "best_bid_size":"1.29804582",
    "best_ask":"3659.38",
    "best_ask_size":"0.43569488",
    "side":"buy",
    "time":"2024-04-08T16:58:47.908116Z",
    "trade_id":512218036,
    "last_size":"0.05642456"
}"#;

const OKX_SAMPLE: &str = r#"{
    "arg":{
        "channel":"mark-price-candle1m",
        "instId":"BTC-USD-SWAP"
    },
    "data":
        [[
            "1712597400000",
            "71338.4",
            "71338.8",
            "71338.1",
            "71338.8",
            "0"
        ]]
}"#;

#[test]
fn binance_sample_kline_time() {
    let rec = my_transform(BINANCE_SAMPLE.as_bytes(), &TimestampMode::KlineOpenTime)
        .expect("sample must convert");
    assert_eq!(rec.key, b"BNBBTC".to_vec());
    assert_eq!(
        String::from_utf8(rec.value).unwrap(),
        r#"{"open":0.01086,"high":0.010866,"low":0.010836,"close":0.010838,"volume":2290.538,"timestamp":1655971200000.0,"source":"Binance","symbol":"BNBBTC"}"#
    );
}

#[test]
fn binance_sample_observed_time() {
    let rec = my_transform(BINANCE_SAMPLE.as_bytes(), &TimestampMode::Observed(1700000000123))
        .expect("sample must convert");
    assert_eq!(rec.key, b"BNBBTC".to_vec());
    assert_eq!(
        String::from_utf8(rec.value).unwrap(),
        r#"{"open":0.01086,"high":0.010866,"low":0.010836,"close":0.010838,"volume":2290.538,"timestamp":1700000000123.0,"source":"Binance","symbol":"BNBBTC"}"#
    );
}

#[test]
fn coinbase_sample() {
    let rec = my_transform(COINBASE_SAMPLE.as_bytes(), &TimestampMode::KlineOpenTime)
        .expect("sample must convert");
    assert_eq!(rec.key, b"Coinbase".to_vec());
    assert_eq!(
        String::from_utf8(rec.value).unwrap(),
        r#"{"open":3395.8,"high":3671.07,"low":3369.06,"close":0.0,"volume":94855.97317284,"timestamp":3659.37,"source":"Coinbase"}"#
    );
}

#[test]
fn okx_sample() {
    let rec = my_transform(OKX_SAMPLE.as_bytes(), &TimestampMode::KlineOpenTime)
        .expect("sample must convert");
    assert_eq!(rec.key, b"Okx".to_vec());
    assert_eq!(
        String::from_utf8(rec.value).unwrap(),
        r#"{"open":71338.4,"high":71338.8,"low":71338.1,"close":71338.8,"volume":0.0,"timestamp":1712597400000.0,"source":"Okx"}"#
    );
}

#[test]
fn binance_value_is_json_with_expected_fields() {
    let rec = my_transform(BINANCE_SAMPLE.as_bytes(), &TimestampMode::KlineOpenTime).unwrap();
    let v: serde_json::Value = serde_json::from_slice(&rec.value).expect("output must be JSON");
    assert_eq!(v["open"].as_f64().unwrap(), 0.01086);
    assert_eq!(v["high"].as_f64().unwrap(), 0.010866);
    assert_eq!(v["low"].as_f64().unwrap(), 0.010836);
    assert_eq!(v["close"].as_f64().unwrap(), 0.010838);
    assert_eq!(v["volume"].as_f64().unwrap(), 2290.538);
    assert_eq!(v["timestamp"].as_f64().unwrap(), 1655971200000.0);
    assert_eq!(v["source"].as_str().unwrap(), "Binance");
    assert_eq!(v["symbol"].as_str().unwrap(), "BNBBTC");
}

#[test]
fn classify_reports_matching_adapter() {
    assert!(matches!(
        classify(BINANCE_SAMPLE.as_bytes()),
        Some(CryptoMessage::Binance(_))
    ));
    assert!(matches!(
        classify(COINBASE_SAMPLE.as_bytes()),
        Some(CryptoMessage::Coinbase(_))
    ));
    assert!(matches!(classify(OKX_SAMPLE.as_bytes()), Some(CryptoMessage::Okx(_))));
    assert!(classify(b"{\"unrelated\": true}").is_none());
}

#[test]
fn coinbase_message_converts_directly() {
    let m = CoinbaseMessage {
        price: b"10.5".to_vec(),
        open_24h: b"9".to_vec(),
        volume_24h: b"100.25".to_vec(),
        low_24h: b"8.75".to_vec(),
        high_24h: b"11".to_vec(),
    };
    let c = m.to_candle().expect("coinbase conversion is total");
    assert_eq!(
        String::from_utf8(candle_json(&c)).unwrap(),
        r#"{"open":9.0,"high":11.0,"low":8.75,"close":0.0,"volume":100.25,"timestamp":10.5,"source":"Coinbase"}"#
    );
}

#[test]
fn observed_clock_transform_produces_record() {
    assert!(now() > 0);
    let rec = my_transform_now(BINANCE_SAMPLE.as_bytes()).expect("sample must convert");
    assert_eq!(rec.key, b"BNBBTC".to_vec());
    assert!(String::from_utf8(rec.value).unwrap().contains(r#""source":"Binance""#));
}
