//! The canonical OHLCV candle and its JSON serialization.
//!
//! A candle is constructed fresh from one decoded exchange message and
//! immediately serialized; it is never mutated.  All numeric fields are
//! exact decimals within the supported range (the finiteness invariant), and
//! the source and optional symbol identifiers are plain bytes free of JSON
//! metacharacters, so the serialized record is always well-formed JSON.
use vstd::prelude::*;

use crate::dec::Dec;
use crate::dec::DecModel;
use crate::dec::dec_wf;
use crate::dec::literal;
use crate::dec::push_all;
use crate::dec::spec_literal;

verus! {

/// The only conversion failure: a structurally matched payload whose data
/// block is empty or whose selected row is too short.
#[derive(Debug, PartialEq, Eq)]
pub enum ConversionError {
    MissingData,
}

/// Mathematical model of a candle.
#[verifier::ext_equal]
pub struct CandleModel {
    pub open: DecModel,
    pub high: DecModel,
    pub low: DecModel,
    pub close: DecModel,
    pub volume: DecModel,
    pub timestamp: DecModel,
    pub source: Seq<u8>,
    pub symbol: Option<Seq<u8>>,
}

/// The single normalized output entity.
pub struct CryptoCandle {
    pub open: Dec,
    pub high: Dec,
    pub low: Dec,
    pub close: Dec,
    pub volume: Dec,
    pub timestamp: Dec,
    pub source: Vec<u8>,
    pub symbol: Option<Vec<u8>>,
}

impl View for CryptoCandle {
    type V = CandleModel;

    open spec fn view(&self) -> CandleModel {
        CandleModel {
            open: self.open@,
            high: self.high@,
            low: self.low@,
            close: self.close@,
            volume: self.volume@,
            timestamp: self.timestamp@,
            source: self.source@,
            symbol: match self.symbol {
                Some(ref y) => Some(y@),
                None => None,
            },
        }
    }
}

/// Bytes that may stand inside a JSON string without escaping.
pub open spec fn plain_bytes(s: Seq<u8>) -> bool {
    forall|i: int| 0 <= i < s.len() ==> 32 <= #[trigger] s[i] && s[i] != 34 && s[i] != 92
}

/// Candle invariant: every numeric field is a well-formed in-range decimal
/// and the identifiers are JSON-plain.
pub open spec fn candle_wf(c: CandleModel) -> bool {
    &&& dec_wf(c.open)
    &&& dec_wf(c.high)
    &&& dec_wf(c.low)
    &&& dec_wf(c.close)
    &&& dec_wf(c.volume)
    &&& dec_wf(c.timestamp)
    &&& plain_bytes(c.source)
    &&& match c.symbol {
        Some(y) => plain_bytes(y),
        None => true,
    }
}

pub open spec fn lbl_open() -> Seq<u8> {
    seq![123u8, 34u8, 111u8, 112u8, 101u8, 110u8, 34u8, 58u8]
}

pub open spec fn lbl_high() -> Seq<u8> {
    seq![44u8, 34u8, 104u8, 105u8, 103u8, 104u8, 34u8, 58u8]
}

pub open spec fn lbl_low() -> Seq<u8> {
    seq![44u8, 34u8, 108u8, 111u8, 119u8, 34u8, 58u8]
}

pub open spec fn lbl_close() -> Seq<u8> {
    seq![44u8, 34u8, 99u8, 108u8, 111u8, 115u8, 101u8, 34u8, 58u8]
}

pub open spec fn lbl_volume() -> Seq<u8> {
    seq![44u8, 34u8, 118u8, 111u8, 108u8, 117u8, 109u8, 101u8, 34u8, 58u8]
}

pub open spec fn lbl_timestamp() -> Seq<u8> {
    seq![44u8, 34u8, 116u8, 105u8, 109u8, 101u8, 115u8, 116u8, 97u8, 109u8, 112u8, 34u8, 58u8]
}

pub open spec fn lbl_source() -> Seq<u8> {
    seq![44u8, 34u8, 115u8, 111u8, 117u8, 114u8, 99u8, 101u8, 34u8, 58u8, 34u8]
}

pub open spec fn lbl_symbol() -> Seq<u8> {
    seq![44u8, 34u8, 115u8, 121u8, 109u8, 98u8, 111u8, 108u8, 34u8, 58u8, 34u8]
}

/// JSON serialization of a candle: an object holding the six numeric fields
/// as unquoted literals, the source and, when present, the symbol.
pub open spec fn scandle_json(c: CandleModel) -> Seq<u8> {
    lbl_open() + spec_literal(c.open) + lbl_high() + spec_literal(c.high) + lbl_low()
        + spec_literal(c.low) + lbl_close() + spec_literal(c.close) + lbl_volume() + spec_literal(
        c.volume,
    ) + lbl_timestamp() + spec_literal(c.timestamp) + lbl_source() + c.source + seq![34u8] + (
    match c.symbol {
        Some(y) => lbl_symbol() + y + seq![34u8],
        None => Seq::<u8>::empty(),
    }) + seq![125u8]
}

/// Serialize a candle as JSON bytes.
pub fn candle_json(c: &CryptoCandle) -> (r: Vec<u8>)
    requires
        candle_wf(c@),
    ensures
        r@ == scandle_json(c@),
{
    let mut v: Vec<u8> = vec![123u8, 34u8, 111u8, 112u8, 101u8, 110u8, 34u8, 58u8];
    assert(v@ =~= lbl_open());
    let w = literal(&c.open);
    push_all(&mut v, &w);
    let lbl: Vec<u8> = vec![44u8, 34u8, 104u8, 105u8, 103u8, 104u8, 34u8, 58u8];
    assert(lbl@ =~= lbl_high());
    push_all(&mut v, &lbl);
    let w = literal(&c.high);
    push_all(&mut v, &w);
    let lbl: Vec<u8> = vec![44u8, 34u8, 108u8, 111u8, 119u8, 34u8, 58u8];
    assert(lbl@ =~= lbl_low());
    push_all(&mut v, &lbl);
    let w = literal(&c.low);
    push_all(&mut v, &w);
    let lbl: Vec<u8> = vec![44u8, 34u8, 99u8, 108u8, 111u8, 115u8, 101u8, 34u8, 58u8];
    assert(lbl@ =~= lbl_close());
    push_all(&mut v, &lbl);
    let w = literal(&c.close);
    push_all(&mut v, &w);
    let lbl: Vec<u8> = vec![44u8, 34u8, 118u8, 111u8, 108u8, 117u8, 109u8, 101u8, 34u8, 58u8];
    assert(lbl@ =~= lbl_volume());
    push_all(&mut v, &lbl);
    let w = literal(&c.volume);
    push_all(&mut v, &w);
    let lbl: Vec<u8> = vec![
        44u8,
        34u8,
        116u8,
        105u8,
        109u8,
        101u8,
        115u8,
        116u8,
        97u8,
        109u8,
        112u8,
        34u8,
        58u8,
    ];
    assert(lbl@ =~= lbl_timestamp());
    push_all(&mut v, &lbl);
    let w = literal(&c.timestamp);
    push_all(&mut v, &w);
    let lbl: Vec<u8> = vec![44u8, 34u8, 115u8, 111u8, 117u8, 114u8, 99u8, 101u8, 34u8, 58u8, 34u8];
    assert(lbl@ =~= lbl_source());
    push_all(&mut v, &lbl);
    push_all(&mut v, &c.source);
    v.push(34u8);
    match &c.symbol {
        Some(y) => {
            let lbl: Vec<u8> = vec![
                44u8,
                34u8,
                115u8,
                121u8,
                109u8,
                98u8,
                111u8,
                108u8,
                34u8,
                58u8,
                34u8,
            ];
            assert(lbl@ =~= lbl_symbol());
            push_all(&mut v, &lbl);
            push_all(&mut v, y);
            v.push(34u8);
        },
        None => {},
    }
    v.push(125u8);
    assert(v@ =~= scandle_json(c@));
    v
}

} // verus!
