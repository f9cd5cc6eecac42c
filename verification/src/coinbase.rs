//! Exchange adapter for ticker style payloads: a flat object with quoted
//! decimal string fields `price`, `open_24h`, `volume_24h`, `low_24h` and
//! `high_24h`.  The payload carries no close price, which is therefore fixed
//! at zero, and — a quirk of the original stream — its current price field
//! is reused as the candle timestamp.
use vstd::prelude::*;

use crate::candle::CandleModel;
use crate::candle::ConversionError;
use crate::candle::CryptoCandle;
use crate::candle::candle_wf;
use crate::dec::zero_dec;
use crate::scan::ASCII_COLON;
use crate::scan::ASCII_COMMA;
use crate::scan::ASCII_LBRACE;
use crate::scan::ASCII_QUOTE;
use crate::scan::ASCII_RBRACE;
use crate::scan::DEPTH_LIMIT;
use crate::scan::clamp_idx;
use crate::scan::coerce_bytes;
use crate::scan::range_eq;
use crate::scan::scoerce;
use crate::scan::skip_value;
use crate::scan::skip_ws;
use crate::scan::sskip_value;
use crate::scan::sskip_ws;
use crate::scan::sstr_rest;
use crate::scan::str_rest;

verus! {

/// Structural mirror of the exchange's wire JSON: the five quoted decimal
/// fields, each kept as the raw bytes of its string.
pub struct CoinbaseMessage {
    pub price: Vec<u8>,
    pub open_24h: Vec<u8>,
    pub volume_24h: Vec<u8>,
    pub low_24h: Vec<u8>,
    pub high_24h: Vec<u8>,
}

/// Model of a decoded message.
#[verifier::ext_equal]
pub struct CoinbaseModel {
    pub price: Seq<u8>,
    pub open_24h: Seq<u8>,
    pub volume_24h: Seq<u8>,
    pub low_24h: Seq<u8>,
    pub high_24h: Seq<u8>,
}

impl View for CoinbaseMessage {
    type V = CoinbaseModel;

    open spec fn view(&self) -> CoinbaseModel {
        CoinbaseModel {
            price: self.price@,
            open_24h: self.open_24h@,
            volume_24h: self.volume_24h@,
            low_24h: self.low_24h@,
            high_24h: self.high_24h@,
        }
    }
}

/// Walker state: which required fields have been seen, and their contents.
#[verifier::ext_equal]
pub struct CbState {
    pub price: Option<Seq<u8>>,
    pub open_24h: Option<Seq<u8>>,
    pub volume_24h: Option<Seq<u8>>,
    pub low_24h: Option<Seq<u8>>,
    pub high_24h: Option<Seq<u8>>,
}

pub open spec fn cb_empty_state() -> CbState {
    CbState { price: None, open_24h: None, volume_24h: None, low_24h: None, high_24h: None }
}

pub open spec fn key_price() -> Seq<u8> {
    seq![112u8, 114u8, 105u8, 99u8, 101u8]
}

pub open spec fn key_open_24h() -> Seq<u8> {
    seq![111u8, 112u8, 101u8, 110u8, 95u8, 50u8, 52u8, 104u8]
}

pub open spec fn key_volume_24h() -> Seq<u8> {
    seq![118u8, 111u8, 108u8, 117u8, 109u8, 101u8, 95u8, 50u8, 52u8, 104u8]
}

pub open spec fn key_low_24h() -> Seq<u8> {
    seq![108u8, 111u8, 119u8, 95u8, 50u8, 52u8, 104u8]
}

pub open spec fn key_high_24h() -> Seq<u8> {
    seq![104u8, 105u8, 103u8, 104u8, 95u8, 50u8, 52u8, 104u8]
}

/// The source identifier this adapter stamps on its candles.
pub open spec fn coinbase_source() -> Seq<u8> {
    seq![67u8, 111u8, 105u8, 110u8, 98u8, 97u8, 115u8, 101u8]
}

pub open spec fn is_cb_key(key: Seq<u8>) -> bool {
    key == key_price() || key == key_open_24h() || key == key_volume_24h() || key == key_low_24h()
        || key == key_high_24h()
}

/// Handle one member's value: a required field must be a string seen for the
/// first time; any other member is skipped whole.  Returns the updated state
/// and the index just past the value.
pub open spec fn scb_step(s: Seq<u8>, v0: int, key: Seq<u8>, st: CbState) -> Option<(CbState, int)> {
    if is_cb_key(key) {
        if 0 <= v0 && v0 < s.len() && s[v0] == ASCII_QUOTE {
            match sstr_rest(s, v0 + 1) {
                None => None,
                Some(ke) => {
                    let k1 = clamp_idx(ke, v0 + 2, s.len() as int);
                    let content = s.subrange(v0 + 1, k1 - 1);
                    if key == key_price() {
                        if st.price is Some {
                            None
                        } else {
                            Some((CbState { price: Some(content), ..st }, k1))
                        }
                    } else if key == key_open_24h() {
                        if st.open_24h is Some {
                            None
                        } else {
                            Some((CbState { open_24h: Some(content), ..st }, k1))
                        }
                    } else if key == key_volume_24h() {
                        if st.volume_24h is Some {
                            None
                        } else {
                            Some((CbState { volume_24h: Some(content), ..st }, k1))
                        }
                    } else if key == key_low_24h() {
                        if st.low_24h is Some {
                            None
                        } else {
                            Some((CbState { low_24h: Some(content), ..st }, k1))
                        }
                    } else {
                        if st.high_24h is Some {
                            None
                        } else {
                            Some((CbState { high_24h: Some(content), ..st }, k1))
                        }
                    }
                },
            }
        } else {
            None
        }
    } else {
        match sskip_value(s, v0, (DEPTH_LIMIT - 1) as nat) {
            None => None,
            Some(e) => Some((st, e)),
        }
    }
}

/// The decoded message, once every required field has been seen.
pub open spec fn cb_finish(st: CbState) -> Option<CoinbaseModel> {
    if st.price is Some && st.open_24h is Some && st.volume_24h is Some && st.low_24h is Some
        && st.high_24h is Some {
        Some(
            CoinbaseModel {
                price: st.price.unwrap(),
                open_24h: st.open_24h.unwrap(),
                volume_24h: st.volume_24h.unwrap(),
                low_24h: st.low_24h.unwrap(),
                high_24h: st.high_24h.unwrap(),
            },
        )
    } else {
        None
    }
}

/// Walk the members of the top-level object from the opening quote of a key.
pub open spec fn scb_membs(s: Seq<u8>, i: int, st: CbState) -> Option<CoinbaseModel>
    decreases s.len() - i,
    when 0 <= i <= s.len()
{
    if i < s.len() && s[i] == ASCII_QUOTE {
        match sstr_rest(s, i + 1) {
            None => None,
            Some(ke) => {
                let k1 = clamp_idx(ke, i + 2, s.len() as int);
                let key = s.subrange(i + 1, k1 - 1);
                let j = clamp_idx(sskip_ws(s, k1), k1, s.len() as int);
                if j < s.len() && s[j] == ASCII_COLON {
                    let v0 = clamp_idx(sskip_ws(s, j + 1), j + 1, s.len() as int);
                    match scb_step(s, v0, key, st) {
                        None => None,
                        Some(q) => {
                            let ve1 = clamp_idx(q.1, v0, s.len() as int);
                            let j2 = clamp_idx(sskip_ws(s, ve1), ve1, s.len() as int);
                            if j2 < s.len() && s[j2] == ASCII_COMMA {
                                let n0 = clamp_idx(sskip_ws(s, j2 + 1), j2 + 1, s.len() as int);
                                scb_membs(s, n0, q.0)
                            } else if j2 < s.len() && s[j2] == ASCII_RBRACE {
                                let t = sskip_ws(s, j2 + 1);
                                if t == s.len() {
                                    cb_finish(q.0)
                                } else {
                                    None
                                }
                            } else {
                                None
                            }
                        },
                    }
                } else {
                    None
                }
            },
        }
    } else {
        None
    }
}

/// Structural decode of a whole message against this adapter's schema: a
/// flat object holding all five quoted decimal fields.
pub open spec fn sdecode_coinbase(s: Seq<u8>) -> Option<CoinbaseModel> {
    let i = clamp_idx(sskip_ws(s, 0), 0, s.len() as int);
    if i < s.len() && s[i] == ASCII_LBRACE {
        let j = clamp_idx(sskip_ws(s, i + 1), i + 1, s.len() as int);
        scb_membs(s, j, cb_empty_state())
    } else {
        None
    }
}

/// Model of the running walker state.
pub open spec fn cb_state_model(
    p: Option<Vec<u8>>,
    o: Option<Vec<u8>>,
    v: Option<Vec<u8>>,
    l: Option<Vec<u8>>,
    h: Option<Vec<u8>>,
) -> CbState {
    CbState {
        price: match p {
            Some(x) => Some(x@),
            None => None,
        },
        open_24h: match o {
            Some(x) => Some(x@),
            None => None,
        },
        volume_24h: match v {
            Some(x) => Some(x@),
            None => None,
        },
        low_24h: match l {
            Some(x) => Some(x@),
            None => None,
        },
        high_24h: match h {
            Some(x) => Some(x@),
            None => None,
        },
    }
}

/// Decode a whole message against this adapter's schema.
#[verifier::rlimit(100)]
pub fn decode_coinbase(s: &[u8]) -> (r: Option<CoinbaseMessage>)
    ensures
        match r {
            Some(m) => sdecode_coinbase(s@) == Some(m@),
            None => sdecode_coinbase(s@) is None,
        },
{
    let i = skip_ws(s, 0);
    if !(i < s.len() && s[i] == ASCII_LBRACE) {
        return None;
    }
    let mut cur: usize = skip_ws(s, i + 1);
    let mut f_price: Option<Vec<u8>> = None;
    let mut f_open: Option<Vec<u8>> = None;
    let mut f_volume: Option<Vec<u8>> = None;
    let mut f_low: Option<Vec<u8>> = None;
    let mut f_high: Option<Vec<u8>> = None;
    let k_price: Vec<u8> = vec![112u8, 114u8, 105u8, 99u8, 101u8];
    assert(k_price@ =~= key_price());
    let k_open: Vec<u8> = vec![111u8, 112u8, 101u8, 110u8, 95u8, 50u8, 52u8, 104u8];
    assert(k_open@ =~= key_open_24h());
    let k_volume: Vec<u8> = vec![118u8, 111u8, 108u8, 117u8, 109u8, 101u8, 95u8, 50u8, 52u8, 104u8];
    assert(k_volume@ =~= key_volume_24h());
    let k_low: Vec<u8> = vec![108u8, 111u8, 119u8, 95u8, 50u8, 52u8, 104u8];
    assert(k_low@ =~= key_low_24h());
    let k_high: Vec<u8> = vec![104u8, 105u8, 103u8, 104u8, 95u8, 50u8, 52u8, 104u8];
    assert(k_high@ =~= key_high_24h());
    loop
        invariant
            cur <= s@.len(),
            k_price@ == key_price(),
            k_open@ == key_open_24h(),
            k_volume@ == key_volume_24h(),
            k_low@ == key_low_24h(),
            k_high@ == key_high_24h(),
            sdecode_coinbase(s@) == scb_membs(
                s@,
                cur as int,
                cb_state_model(f_price, f_open, f_volume, f_low, f_high),
            ),
        decreases s@.len() - cur,
    {
        if !(cur < s.len() && s[cur] == ASCII_QUOTE) {
            return None;
        }
        match str_rest(s, cur + 1) {
            None => {
                return None;
            },
            Some(ke) => {
                let j = skip_ws(s, ke);
                if !(j < s.len() && s[j] == ASCII_COLON) {
                    return None;
                }
                let v0 = skip_ws(s, j + 1);
                let ghost keym = s@.subrange(cur as int + 1, ke as int - 1);
                let is_price = range_eq(s, cur + 1, ke - 1, &k_price);
                let is_open = range_eq(s, cur + 1, ke - 1, &k_open);
                let is_volume = range_eq(s, cur + 1, ke - 1, &k_volume);
                let is_low = range_eq(s, cur + 1, ke - 1, &k_low);
                let is_high = range_eq(s, cur + 1, ke - 1, &k_high);
                let ve: usize;
                if is_price || is_open || is_volume || is_low || is_high {
                    if !(v0 < s.len() && s[v0] == ASCII_QUOTE) {
                        return None;
                    }
                    match str_rest(s, v0 + 1) {
                        None => {
                            return None;
                        },
                        Some(ce) => {
                            let content = crate::dec::copy_range(s, v0 + 1, ce - 1);
                            if is_price {
                                if f_price.is_some() {
                                    return None;
                                }
                                f_price = Some(content);
                            } else if is_open {
                                if f_open.is_some() {
                                    return None;
                                }
                                f_open = Some(content);
                            } else if is_volume {
                                if f_volume.is_some() {
                                    return None;
                                }
                                f_volume = Some(content);
                            } else if is_low {
                                if f_low.is_some() {
                                    return None;
                                }
                                f_low = Some(content);
                            } else {
                                if f_high.is_some() {
                                    return None;
                                }
                                f_high = Some(content);
                            }
                            ve = ce;
                        },
                    }
                } else {
                    match skip_value(s, v0, DEPTH_LIMIT - 1) {
                        None => {
                            return None;
                        },
                        Some(e) => {
                            ve = e;
                        },
                    }
                }
                let j2 = skip_ws(s, ve);
                if j2 < s.len() && s[j2] == ASCII_COMMA {
                    cur = skip_ws(s, j2 + 1);
                } else if j2 < s.len() && s[j2] == ASCII_RBRACE {
                    let t = skip_ws(s, j2 + 1);
                    if t == s.len() {
                        return match (f_price, f_open, f_volume, f_low, f_high) {
                            (Some(p), Some(o), Some(v), Some(l), Some(h)) => Some(
                                CoinbaseMessage {
                                    price: p,
                                    open_24h: o,
                                    volume_24h: v,
                                    low_24h: l,
                                    high_24h: h,
                                },
                            ),
                            _ => None,
                        };
                    } else {
                        return None;
                    }
                } else {
                    return None;
                }
            },
        }
    }
}

/// The candle this adapter derives from a decoded message: the three 24-hour
/// aggregates coerced into open, high and low, the 24-hour volume, a zero
/// close, and — the documented quirk — the current price reused as the
/// timestamp.  Conversion is total: the schema guarantees every field.
pub open spec fn scoinbase_candle(m: CoinbaseModel) -> CandleModel {
    CandleModel {
        timestamp: scoerce(m.price),
        open: scoerce(m.open_24h),
        high: scoerce(m.high_24h),
        low: scoerce(m.low_24h),
        close: crate::dec::dec_zero(),
        volume: scoerce(m.volume_24h),
        source: coinbase_source(),
        symbol: None,
    }
}

impl CoinbaseMessage {
    /// Convert the decoded message into the canonical candle; never fails,
    /// since the schema already guarantees all five fields.
    pub fn to_candle(&self) -> (r: Result<CryptoCandle, ConversionError>)
        ensures
            match r {
                Ok(c) => c@ == scoinbase_candle(self@) && candle_wf(c@),
                Err(_) => false,
            },
    {
        let source: Vec<u8> = vec![67u8, 111u8, 105u8, 110u8, 98u8, 97u8, 115u8, 101u8];
        assert(source@ =~= coinbase_source());
        let c = CryptoCandle {
            timestamp: coerce_bytes(self.price.as_slice()),
            open: coerce_bytes(self.open_24h.as_slice()),
            high: coerce_bytes(self.high_24h.as_slice()),
            low: coerce_bytes(self.low_24h.as_slice()),
            close: zero_dec(),
            volume: coerce_bytes(self.volume_24h.as_slice()),
            source,
            symbol: None,
        };
        proof {
            assert(c@ =~= scoinbase_candle(self@));
        }
        Ok(c)
    }
}

} // verus!
