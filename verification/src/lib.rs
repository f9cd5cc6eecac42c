//! Normalization core for streaming cryptocurrency exchange records.
//!
//! A raw JSON message of unknown provenance is classified against the three
//! known exchange payload shapes — kline-array, ticker, candle-array — in
//! that fixed priority order, decoded structurally, and mapped into one
//! canonical OHLCV candle, which is then serialized as a JSON record keyed
//! by its symbol or source.  The whole pipeline is a pure function of the
//! input bytes (plus an explicit timestamp choice), so every step carries a
//! contract that pins the result down exactly; a message matching no schema,
//! or one with an empty data block, yields no record at all.
use std::time::SystemTime;
use std::time::UNIX_EPOCH;

use vstd::prelude::*;

pub mod dec;
pub mod scan;
pub mod candle;
pub mod okx;
pub mod binance;
pub mod coinbase;
pub mod props;

use crate::binance::BinanceMessage;
use crate::binance::MultiModel;
use crate::binance::TimestampMode;
use crate::binance::binance_msg_wf;
use crate::binance::sbinance_candle;
use crate::binance::sdecode_binance;
use crate::candle::CandleModel;
use crate::candle::ConversionError;
use crate::candle::CryptoCandle;
use crate::candle::candle_json;
use crate::candle::candle_wf;
use crate::candle::scandle_json;
use crate::coinbase::CoinbaseMessage;
use crate::coinbase::CoinbaseModel;
use crate::coinbase::scoinbase_candle;
use crate::coinbase::sdecode_coinbase;
use crate::okx::OkxMessage;
use crate::okx::sdecode_okx;
use crate::okx::sokx_candle;

verus! {

/// A message decoded by whichever schema adapter matched it first.
pub enum CryptoMessage {
    Binance(BinanceMessage),
    Coinbase(CoinbaseMessage),
    Okx(OkxMessage),
}

/// Model of a classified message.
pub enum CryptoMessageModel {
    Binance(Seq<Seq<MultiModel>>),
    Coinbase(CoinbaseModel),
    Okx(Seq<Seq<Seq<u8>>>),
}

impl View for CryptoMessage {
    type V = CryptoMessageModel;

    open spec fn view(&self) -> CryptoMessageModel {
        match self {
            CryptoMessage::Binance(b) => CryptoMessageModel::Binance(b@),
            CryptoMessage::Coinbase(c) => CryptoMessageModel::Coinbase(c@),
            CryptoMessage::Okx(o) => CryptoMessageModel::Okx(o@),
        }
    }
}

/// Validity of a classified message: every numeric cell a decoder produced
/// is a well-formed decimal.
pub open spec fn crypto_msg_wf(m: CryptoMessageModel) -> bool {
    match m {
        CryptoMessageModel::Binance(b) => binance_msg_wf(b),
        CryptoMessageModel::Coinbase(_) => true,
        CryptoMessageModel::Okx(_) => true,
    }
}

/// Classification: try each schema adapter in the fixed priority order —
/// kline-array, then ticker, then candle-array — and commit to the first
/// structural match.  A payload that would satisfy several schemas is
/// therefore always read by the earliest one.
pub open spec fn sclassify(s: Seq<u8>) -> Option<CryptoMessageModel> {
    if sdecode_binance(s) is Some {
        Some(CryptoMessageModel::Binance(sdecode_binance(s).unwrap()))
    } else if sdecode_coinbase(s) is Some {
        Some(CryptoMessageModel::Coinbase(sdecode_coinbase(s).unwrap()))
    } else if sdecode_okx(s) is Some {
        Some(CryptoMessageModel::Okx(sdecode_okx(s).unwrap()))
    } else {
        None
    }
}

/// Classify raw bytes against the known schemas.
pub fn classify(s: &[u8]) -> (r: Option<CryptoMessage>)
    ensures
        match r {
            Some(m) => sclassify(s@) == Some(m@) && crypto_msg_wf(m@),
            None => sclassify(s@) is None,
        },
{
    match crate::binance::decode_binance(s) {
        Some(b) => Some(CryptoMessage::Binance(b)),
        None => match crate::coinbase::decode_coinbase(s) {
            Some(c) => Some(CryptoMessage::Coinbase(c)),
            None => match crate::okx::decode_okx(s) {
                Some(o) => Some(CryptoMessage::Okx(o)),
                None => None,
            },
        },
    }
}

/// The candle a classified message converts to, if any: the shared builder
/// contract, implemented once per adapter.
pub open spec fn smessage_candle(m: CryptoMessageModel, mode: TimestampMode) -> Option<
    CandleModel,
> {
    match m {
        CryptoMessageModel::Binance(b) => sbinance_candle(b, mode),
        CryptoMessageModel::Coinbase(c) => Some(scoinbase_candle(c)),
        CryptoMessageModel::Okx(o) => sokx_candle(o),
    }
}

impl CryptoMessage {
    /// Convert a classified message into the canonical candle; fails exactly
    /// when the matched payload's data block is empty or its row too short.
    pub fn to_candle(&self, mode: &TimestampMode) -> (r: Result<CryptoCandle, ConversionError>)
        requires
            crypto_msg_wf(self@),
        ensures
            match r {
                Ok(c) => smessage_candle(self@, *mode) == Some(c@) && candle_wf(c@),
                Err(e) => smessage_candle(self@, *mode) is None && e
                    == ConversionError::MissingData,
            },
    {
        match self {
            CryptoMessage::Binance(b) => b.to_candle(mode),
            CryptoMessage::Coinbase(c) => c.to_candle(),
            CryptoMessage::Okx(o) => o.to_candle(),
        }
    }
}

/// The key of an outbound record: the candle's symbol when it has one, else
/// its source identifier.
pub open spec fn scandle_key(c: CandleModel) -> Seq<u8> {
    match c.symbol {
        Some(y) => y,
        None => c.source,
    }
}

/// One outbound record: key and JSON value bytes.
pub struct OutRecord {
    pub key: Vec<u8>,
    pub value: Vec<u8>,
}

impl View for OutRecord {
    type V = (Seq<u8>, Seq<u8>);

    open spec fn view(&self) -> (Seq<u8>, Seq<u8>) {
        (self.key@, self.value@)
    }
}

/// The whole per-message transform: classification, conversion, and
/// serialization.  At most one record out per message in; classification
/// and conversion failures drop the message silently.
pub open spec fn stransform(s: Seq<u8>, mode: TimestampMode) -> Option<(Seq<u8>, Seq<u8>)> {
    match sclassify(s) {
        None => None,
        Some(m) => match smessage_candle(m, mode) {
            None => None,
            Some(c) => Some((scandle_key(c), scandle_json(c))),
        },
    }
}

/// The boundary function invoked once per inbound record: on success it
/// yields exactly the one outbound record, on any upstream-payload failure
/// it yields nothing.
pub fn my_transform(value: &[u8], mode: &TimestampMode) -> (r: Option<OutRecord>)
    ensures
        match r {
            Some(rec) => stransform(value@, *mode) == Some(rec@),
            None => stransform(value@, *mode) is None,
        },
{
    let msg = match classify(value) {
        Some(m) => m,
        None => {
            return None;
        },
    };
    let c = match msg.to_candle(mode) {
        Ok(c) => c,
        Err(_) => {
            return None;
        },
    };
    let key = match &c.symbol {
        Some(y) => crate::dec::copy_range(y.as_slice(), 0, y.len()),
        None => crate::dec::copy_range(c.source.as_slice(), 0, c.source.len()),
    };
    assert(key@ =~= scandle_key(c@));
    let value_bytes = candle_json(&c);
    Some(OutRecord { key, value: value_bytes })
}

/// Relies on `std::time::SystemTime::now`, `SystemTime::duration_since` and
/// `Duration::as_millis`: the wall clock read once and expressed as epoch
/// milliseconds.  Nothing can be promised of a clock reading, so this has
/// no contract; every caller accepts every value.  Like any wall clock
/// read, it aborts on a system clock standing before the epoch.
#[verifier::external_body]
fn clock_millis() -> (r: i64) {
    SystemTime::now().duration_since(UNIX_EPOCH).expect("Time went backwards").as_millis() as i64
}

/// Current time in milliseconds since the Unix epoch.
pub fn now() -> (r: i64) {
    clock_millis()
}

/// The transform with the observed wall-clock timestamp mode, as the
/// original stream ran it: whatever instant the clock returned, the result
/// is the pure transform at that instant.
pub fn my_transform_now(value: &[u8]) -> (r: Option<OutRecord>)
    ensures
        exists|t: i64|
            match r {
                Some(rec) => stransform(value@, TimestampMode::Observed(t)) == Some(rec@),
                None => stransform(value@, TimestampMode::Observed(t)) is None,
            },
{
    let t = now();
    let r = my_transform(value, &TimestampMode::Observed(t));
    proof {
        let tt = t;
        assert(match r {
            Some(rec) => stransform(value@, TimestampMode::Observed(tt)) == Some(rec@),
            None => stransform(value@, TimestampMode::Observed(tt)) is None,
        });
    }
    r
}

} // verus!
