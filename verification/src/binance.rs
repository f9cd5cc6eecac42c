//! Exchange adapter for kline-array style payloads: an object whose `result`
//! member is an array of arrays of scalars, inner positions 0 to 5 being
//! `[open_time, open, high, low, close, volume]`, where each numeric-looking
//! field may arrive as a JSON string or as a JSON number.
//!
//! The wire format leaves the candle timestamp ambiguous: the payload's own
//! kline open time stands in position 0, yet the stream historically stamped
//! the process-observed wall-clock time instead.  The choice is therefore
//! explicit: conversion takes a [`TimestampMode`].
use vstd::prelude::*;

use crate::candle::CandleModel;
use crate::candle::ConversionError;
use crate::candle::CryptoCandle;
use crate::candle::candle_wf;
use crate::dec::Dec;
use crate::dec::DecModel;
use crate::dec::dec_from_millis;
use crate::dec::dec_wf;
use crate::dec::is_digit;
use crate::dec::spec_dec_from_int;
use crate::scan::ASCII_COLON;
use crate::scan::ASCII_COMMA;
use crate::scan::ASCII_LBRACE;
use crate::scan::ASCII_LBRACKET;
use crate::dec::ASCII_MINUS;
use crate::dec::ASCII_NINE;
use crate::scan::ASCII_QUOTE;
use crate::scan::ASCII_RBRACE;
use crate::scan::ASCII_RBRACKET;
use crate::dec::ASCII_ZERO;
use crate::scan::DEPTH_LIMIT;
use crate::scan::clamp_idx;
use crate::scan::coerce_bytes;
use crate::scan::range_eq;
use crate::scan::scan_num;
use crate::scan::scoerce;
use crate::scan::skip_value;
use crate::scan::skip_ws;
use crate::scan::snum;
use crate::scan::sskip_value;
use crate::scan::sskip_ws;
use crate::scan::sstr_rest;
use crate::scan::str_rest;

verus! {

/// A scalar cell that may arrive as a JSON string or as a JSON number; the
/// numeric variant keeps the wire's floating-point name.
pub enum MultipleTypes {
    Str(Vec<u8>),
    F64(Dec),
}

/// Model of a scalar cell.
pub enum MultiModel {
    Str(Seq<u8>),
    F64(DecModel),
}

impl DeepView for MultipleTypes {
    type V = MultiModel;

    open spec fn deep_view(&self) -> MultiModel {
        match self {
            MultipleTypes::Str(b) => MultiModel::Str(b@),
            MultipleTypes::F64(d) => MultiModel::F64(d@),
        }
    }
}

/// Structural mirror of the exchange's wire JSON: the rows of its `result`
/// member.
pub struct BinanceMessage {
    pub result: Vec<Vec<MultipleTypes>>,
}

impl View for BinanceMessage {
    type V = Seq<Seq<MultiModel>>;

    open spec fn view(&self) -> Seq<Seq<MultiModel>> {
        self.result.deep_view()
    }
}

/// Which timestamp the candle carries: the payload's own kline open time, or
/// an observed wall-clock time in epoch milliseconds supplied by the caller.
pub enum TimestampMode {
    KlineOpenTime,
    Observed(i64),
}

/// Every numeric cell of the message is a well-formed in-range decimal;
/// decoding establishes this, conversion relies on it.
pub open spec fn binance_msg_wf(m: Seq<Seq<MultiModel>>) -> bool {
    forall|r: int, c: int|
        0 <= r < m.len() && 0 <= c < m[r].len() ==> match #[trigger] m[r][c] {
            MultiModel::F64(d) => dec_wf(d),
            MultiModel::Str(_) => true,
        }
}

/// The key whose value holds the kline rows.
pub open spec fn binance_result_key() -> Seq<u8> {
    seq![114u8, 101u8, 115u8, 117u8, 108u8, 116u8]
}

/// The source identifier this adapter stamps on its candles.
pub open spec fn binance_source() -> Seq<u8> {
    seq![66u8, 105u8, 110u8, 97u8, 110u8, 99u8, 101u8]
}

/// The fixed default instrument symbol; the payload does not carry one.
pub open spec fn binance_symbol() -> Seq<u8> {
    seq![66u8, 78u8, 66u8, 66u8, 84u8, 67u8]
}

/// Numeric coercion of one scalar cell: a number passes through unchanged, a
/// string is parsed as a floating-point literal, zero on failure.
pub open spec fn sconvert_types(m: MultiModel) -> DecModel {
    match m {
        MultiModel::Str(b) => scoerce(b),
        MultiModel::F64(d) => d,
    }
}

/// Coerce one scalar cell into a decimal.
pub fn convert_types(mt: &MultipleTypes) -> (r: Dec)
    requires
        match mt.deep_view() {
            MultiModel::F64(d) => dec_wf(d),
            MultiModel::Str(_) => true,
        },
    ensures
        r@ == sconvert_types(mt.deep_view()),
        dec_wf(r@),
{
    match mt {
        MultipleTypes::Str(b) => coerce_bytes(b.as_slice()),
        MultipleTypes::F64(d) => crate::dec::dec_dup(d),
    }
}

/// One scalar cell: a string or a number; anything else fails the schema.
pub open spec fn sbin_cell(s: Seq<u8>, i: int) -> Option<(MultiModel, int)> {
    if 0 <= i && i < s.len() && s[i] == ASCII_QUOTE {
        match sstr_rest(s, i + 1) {
            None => None,
            Some(ke) => {
                let k1 = clamp_idx(ke, i + 2, s.len() as int);
                Some((MultiModel::Str(s.subrange(i + 1, k1 - 1)), k1))
            },
        }
    } else if 0 <= i && i < s.len() && (s[i] == ASCII_MINUS || is_digit(s[i])) {
        match snum(s, i) {
            None => None,
            Some(p) => Some((MultiModel::F64(p.0), p.1)),
        }
    } else {
        None
    }
}

fn bin_cell(s: &[u8], i: usize) -> (r: Option<(MultipleTypes, usize)>)
    requires
        i <= s@.len(),
    ensures
        match r {
            Some(p) => sbin_cell(s@, i as int) == Some((p.0.deep_view(), p.1 as int)) && i < p.1
                <= s@.len() && (match p.0.deep_view() {
                MultiModel::F64(d) => dec_wf(d),
                MultiModel::Str(_) => true,
            }),
            None => sbin_cell(s@, i as int) is None,
        },
{
    if i < s.len() && s[i] == ASCII_QUOTE {
        match str_rest(s, i + 1) {
            None => None,
            Some(ke) => {
                let cell = crate::dec::copy_range(s, i + 1, ke - 1);
                Some((MultipleTypes::Str(cell), ke))
            },
        }
    } else if i < s.len() && (s[i] == ASCII_MINUS || (s[i] >= ASCII_ZERO && s[i] <= ASCII_NINE)) {
        match scan_num(s, i) {
            None => None,
            Some(p) => Some((MultipleTypes::F64(p.0), p.1)),
        }
    } else {
        None
    }
}

/// Collect the scalar cells of one row, starting at the first cell.
pub open spec fn sbin_cells(s: Seq<u8>, i: int, acc: Seq<MultiModel>) -> Option<
    (Seq<MultiModel>, int),
>
    decreases s.len() - i,
    when 0 <= i <= s.len()
{
    match sbin_cell(s, i) {
        None => None,
        Some(p) => {
            let e1 = clamp_idx(p.1, i + 1, s.len() as int);
            let j = clamp_idx(sskip_ws(s, e1), e1, s.len() as int);
            if j < s.len() && s[j] == ASCII_COMMA {
                let n = clamp_idx(sskip_ws(s, j + 1), j + 1, s.len() as int);
                sbin_cells(s, n, acc.push(p.0))
            } else if j < s.len() && s[j] == ASCII_RBRACKET {
                Some((acc.push(p.0), j + 1))
            } else {
                None
            }
        },
    }
}

/// All numeric cells of a cell sequence are well-formed.
pub open spec fn cells_wf(cs: Seq<MultiModel>) -> bool {
    forall|c: int|
        0 <= c < cs.len() ==> match #[trigger] cs[c] {
            MultiModel::F64(d) => dec_wf(d),
            MultiModel::Str(_) => true,
        }
}

fn bin_cells(s: &[u8], i0: usize) -> (r: Option<(Vec<MultipleTypes>, usize)>)
    requires
        i0 <= s@.len(),
    ensures
        match r {
            Some(p) => sbin_cells(s@, i0 as int, Seq::empty()) == Some((p.0.deep_view(), p.1 as int))
                && i0 < p.1 <= s@.len() && cells_wf(p.0.deep_view()),
            None => sbin_cells(s@, i0 as int, Seq::empty()) is None,
        },
{
    let mut acc: Vec<MultipleTypes> = Vec::new();
    let mut cur: usize = i0;
    assert(acc.deep_view() =~~= Seq::<MultiModel>::empty());
    loop
        invariant
            i0 <= cur <= s@.len(),
            sbin_cells(s@, i0 as int, Seq::empty()) == sbin_cells(s@, cur as int, acc.deep_view()),
            cells_wf(acc.deep_view()),
        decreases s@.len() - cur,
    {
        match bin_cell(s, cur) {
            None => {
                return None;
            },
            Some(cp) => {
                let (cell, e) = cp;
                let ghost cellm = cell.deep_view();
                let j = skip_ws(s, e);
                if j < s.len() && s[j] == ASCII_COMMA {
                    let n = skip_ws(s, j + 1);
                    let ghost old_acc = acc.deep_view();
                    acc.push(cell);
                    assert(acc.deep_view() =~~= old_acc.push(cellm));
                    cur = n;
                } else if j < s.len() && s[j] == ASCII_RBRACKET {
                    let ghost old_acc = acc.deep_view();
                    acc.push(cell);
                    assert(acc.deep_view() =~~= old_acc.push(cellm));
                    return Some((acc, j + 1));
                } else {
                    return None;
                }
            },
        }
    }
}

/// One row: a (possibly empty) array of scalar cells.
pub open spec fn sbin_row(s: Seq<u8>, i: int) -> Option<(Seq<MultiModel>, int)> {
    if 0 <= i && i < s.len() && s[i] == ASCII_LBRACKET {
        let j = clamp_idx(sskip_ws(s, i + 1), i + 1, s.len() as int);
        if j < s.len() && s[j] == ASCII_RBRACKET {
            Some((Seq::empty(), j + 1))
        } else {
            sbin_cells(s, j, Seq::empty())
        }
    } else {
        None
    }
}

fn bin_row(s: &[u8], i: usize) -> (r: Option<(Vec<MultipleTypes>, usize)>)
    requires
        i <= s@.len(),
    ensures
        match r {
            Some(p) => sbin_row(s@, i as int) == Some((p.0.deep_view(), p.1 as int)) && i < p.1
                <= s@.len() && cells_wf(p.0.deep_view()),
            None => sbin_row(s@, i as int) is None,
        },
{
    if !(i < s.len() && s[i] == ASCII_LBRACKET) {
        return None;
    }
    let j = skip_ws(s, i + 1);
    if j < s.len() && s[j] == ASCII_RBRACKET {
        let empty: Vec<MultipleTypes> = Vec::new();
        assert(empty.deep_view() =~~= Seq::<MultiModel>::empty());
        return Some((empty, j + 1));
    }
    bin_cells(s, j)
}

/// Collect the rows of the `result` array, starting at the first row.
pub open spec fn sbin_rows(s: Seq<u8>, i: int, acc: Seq<Seq<MultiModel>>) -> Option<
    (Seq<Seq<MultiModel>>, int),
>
    decreases s.len() - i,
    when 0 <= i <= s.len()
{
    match sbin_row(s, i) {
        None => None,
        Some(p) => {
            let e1 = clamp_idx(p.1, i + 1, s.len() as int);
            let j = clamp_idx(sskip_ws(s, e1), e1, s.len() as int);
            if j < s.len() && s[j] == ASCII_COMMA {
                let n = clamp_idx(sskip_ws(s, j + 1), j + 1, s.len() as int);
                sbin_rows(s, n, acc.push(p.0))
            } else if j < s.len() && s[j] == ASCII_RBRACKET {
                Some((acc.push(p.0), j + 1))
            } else {
                None
            }
        },
    }
}

fn bin_rows(s: &[u8], i0: usize) -> (r: Option<(Vec<Vec<MultipleTypes>>, usize)>)
    requires
        i0 <= s@.len(),
    ensures
        match r {
            Some(p) => sbin_rows(s@, i0 as int, Seq::empty()) == Some((p.0.deep_view(), p.1 as int))
                && i0 < p.1 <= s@.len() && binance_msg_wf(p.0.deep_view()),
            None => sbin_rows(s@, i0 as int, Seq::empty()) is None,
        },
{
    let mut acc: Vec<Vec<MultipleTypes>> = Vec::new();
    let mut cur: usize = i0;
    assert(acc.deep_view() =~~= Seq::<Seq<MultiModel>>::empty());
    loop
        invariant
            i0 <= cur <= s@.len(),
            sbin_rows(s@, i0 as int, Seq::empty()) == sbin_rows(s@, cur as int, acc.deep_view()),
            binance_msg_wf(acc.deep_view()),
        decreases s@.len() - cur,
    {
        match bin_row(s, cur) {
            None => {
                return None;
            },
            Some(rp) => {
                let (row, e) = rp;
                let ghost rowm = row.deep_view();
                let j = skip_ws(s, e);
                if j < s.len() && s[j] == ASCII_COMMA {
                    let n = skip_ws(s, j + 1);
                    let ghost old_acc = acc.deep_view();
                    acc.push(row);
                    assert(acc.deep_view() =~~= old_acc.push(rowm));
                    cur = n;
                } else if j < s.len() && s[j] == ASCII_RBRACKET {
                    let ghost old_acc = acc.deep_view();
                    acc.push(row);
                    assert(acc.deep_view() =~~= old_acc.push(rowm));
                    return Some((acc, j + 1));
                } else {
                    return None;
                }
            },
        }
    }
}

/// The `result` value: a (possibly empty) array of rows.
pub open spec fn sbin_result(s: Seq<u8>, i: int) -> Option<(Seq<Seq<MultiModel>>, int)> {
    if 0 <= i && i < s.len() && s[i] == ASCII_LBRACKET {
        let j = clamp_idx(sskip_ws(s, i + 1), i + 1, s.len() as int);
        if j < s.len() && s[j] == ASCII_RBRACKET {
            Some((Seq::empty(), j + 1))
        } else {
            sbin_rows(s, j, Seq::empty())
        }
    } else {
        None
    }
}

fn bin_result(s: &[u8], i: usize) -> (r: Option<(Vec<Vec<MultipleTypes>>, usize)>)
    requires
        i <= s@.len(),
    ensures
        match r {
            Some(p) => sbin_result(s@, i as int) == Some((p.0.deep_view(), p.1 as int)) && i < p.1
                <= s@.len() && binance_msg_wf(p.0.deep_view()),
            None => sbin_result(s@, i as int) is None,
        },
{
    if !(i < s.len() && s[i] == ASCII_LBRACKET) {
        return None;
    }
    let j = skip_ws(s, i + 1);
    if j < s.len() && s[j] == ASCII_RBRACKET {
        let empty: Vec<Vec<MultipleTypes>> = Vec::new();
        assert(empty.deep_view() =~~= Seq::<Seq<MultiModel>>::empty());
        return Some((empty, j + 1));
    }
    bin_rows(s, j)
}

/// Walk the members of the top-level object from the opening quote of a key:
/// the first `result` member is decoded, a second one is refused, all other
/// members are skipped after full validation, the object must close, and
/// only whitespace may follow.
pub open spec fn sbin_membs(s: Seq<u8>, i: int, found: Option<Seq<Seq<MultiModel>>>) -> Option<
    Seq<Seq<MultiModel>>,
>
    decreases s.len() - i,
    when 0 <= i <= s.len()
{
    if i < s.len() && s[i] == ASCII_QUOTE {
        match sstr_rest(s, i + 1) {
            None => None,
            Some(ke) => {
                let k1 = clamp_idx(ke, i + 2, s.len() as int);
                let key = s.subrange(i + 1, k1 - 1);
                let j = clamp_idx(sskip_ws(s, k1), k1, s.len() as int);
                if j < s.len() && s[j] == ASCII_COLON {
                    let v0 = clamp_idx(sskip_ws(s, j + 1), j + 1, s.len() as int);
                    let is_result = key == binance_result_key();
                    if is_result && found is Some {
                        None
                    } else {
                        let step: Option<(Option<Seq<Seq<MultiModel>>>, int)> = if is_result {
                            match sbin_result(s, v0) {
                                None => None,
                                Some(p) => Some((Some(p.0), p.1)),
                            }
                        } else {
                            match sskip_value(s, v0, (DEPTH_LIMIT - 1) as nat) {
                                None => None,
                                Some(e) => Some((found, e)),
                            }
                        };
                        match step {
                            None => None,
                            Some(q) => {
                                let ve1 = clamp_idx(q.1, v0, s.len() as int);
                                let j2 = clamp_idx(sskip_ws(s, ve1), ve1, s.len() as int);
                                if j2 < s.len() && s[j2] == ASCII_COMMA {
                                    let n0 = clamp_idx(sskip_ws(s, j2 + 1), j2 + 1, s.len() as int);
                                    sbin_membs(s, n0, q.0)
                                } else if j2 < s.len() && s[j2] == ASCII_RBRACE {
                                    let t = sskip_ws(s, j2 + 1);
                                    if t == s.len() {
                                        q.0
                                    } else {
                                        None
                                    }
                                } else {
                                    None
                                }
                            },
                        }
                    }
                } else {
                    None
                }
            },
        }
    } else {
        None
    }
}

/// Structural decode of a whole message against this adapter's schema: a
/// top-level object containing a `result` member of rows of scalars.
pub open spec fn sdecode_binance(s: Seq<u8>) -> Option<Seq<Seq<MultiModel>>> {
    let i = clamp_idx(sskip_ws(s, 0), 0, s.len() as int);
    if i < s.len() && s[i] == ASCII_LBRACE {
        let j = clamp_idx(sskip_ws(s, i + 1), i + 1, s.len() as int);
        sbin_membs(s, j, None)
    } else {
        None
    }
}

/// Model of the running walker state.
pub open spec fn bin_found_model(o: Option<Vec<Vec<MultipleTypes>>>) -> Option<
    Seq<Seq<MultiModel>>,
> {
    match o {
        Some(v) => Some(v.deep_view()),
        None => None,
    }
}

/// Decode a whole message against this adapter's schema.
#[verifier::rlimit(60)]
pub fn decode_binance(s: &[u8]) -> (r: Option<BinanceMessage>)
    ensures
        match r {
            Some(m) => sdecode_binance(s@) == Some(m@) && binance_msg_wf(m@),
            None => sdecode_binance(s@) is None,
        },
{
    let i = skip_ws(s, 0);
    if !(i < s.len() && s[i] == ASCII_LBRACE) {
        return None;
    }
    let mut cur: usize = skip_ws(s, i + 1);
    let mut found: Option<Vec<Vec<MultipleTypes>>> = None;
    let key: Vec<u8> = vec![114u8, 101u8, 115u8, 117u8, 108u8, 116u8];
    assert(key@ =~= binance_result_key());
    loop
        invariant
            cur <= s@.len(),
            key@ == binance_result_key(),
            sdecode_binance(s@) == sbin_membs(s@, cur as int, bin_found_model(found)),
            match found {
                Some(v) => binance_msg_wf(v.deep_view()),
                None => true,
            },
        decreases s@.len() - cur,
    {
        if !(cur < s.len() && s[cur] == ASCII_QUOTE) {
            return None;
        }
        match str_rest(s, cur + 1) {
            None => {
                return None;
            },
            Some(ke) => {
                let j = skip_ws(s, ke);
                if !(j < s.len() && s[j] == ASCII_COLON) {
                    return None;
                }
                let v0 = skip_ws(s, j + 1);
                let is_result = range_eq(s, cur + 1, ke - 1, &key);
                let ve: usize;
                if is_result {
                    if found.is_some() {
                        return None;
                    }
                    match bin_result(s, v0) {
                        None => {
                            return None;
                        },
                        Some(p) => {
                            found = Some(p.0);
                            ve = p.1;
                        },
                    }
                } else {
                    match skip_value(s, v0, DEPTH_LIMIT - 1) {
                        None => {
                            return None;
                        },
                        Some(e) => {
                            ve = e;
                        },
                    }
                }
                let j2 = skip_ws(s, ve);
                if j2 < s.len() && s[j2] == ASCII_COMMA {
                    cur = skip_ws(s, j2 + 1);
                } else if j2 < s.len() && s[j2] == ASCII_RBRACE {
                    let t = skip_ws(s, j2 + 1);
                    if t == s.len() {
                        return match found {
                            Some(d) => Some(BinanceMessage { result: d }),
                            None => None,
                        };
                    } else {
                        return None;
                    }
                } else {
                    return None;
                }
            },
        }
    }
}

/// The candle this adapter derives from decoded rows: the first row's cells
/// 1 to 5 coerced into open, high, low, close and volume; the timestamp per
/// the chosen mode; the fixed default symbol.  An empty result block or a
/// row with fewer than six cells is the missing-data failure.
pub open spec fn sbinance_candle(m: Seq<Seq<MultiModel>>, mode: TimestampMode) -> Option<
    CandleModel,
> {
    if m.len() == 0 || m[0].len() < 6 {
        None
    } else {
        Some(
            CandleModel {
                timestamp: match mode {
                    TimestampMode::KlineOpenTime => sconvert_types(m[0][0]),
                    TimestampMode::Observed(t) => spec_dec_from_int(t as int),
                },
                open: sconvert_types(m[0][1]),
                high: sconvert_types(m[0][2]),
                low: sconvert_types(m[0][3]),
                close: sconvert_types(m[0][4]),
                volume: sconvert_types(m[0][5]),
                source: binance_source(),
                symbol: Some(binance_symbol()),
            },
        )
    }
}

impl BinanceMessage {
    /// Convert the decoded message into the canonical candle; fails exactly
    /// when the result block is empty or the first row is too short.
    pub fn to_candle(&self, mode: &TimestampMode) -> (r: Result<CryptoCandle, ConversionError>)
        requires
            binance_msg_wf(self@),
        ensures
            match r {
                Ok(c) => sbinance_candle(self@, *mode) == Some(c@) && candle_wf(c@),
                Err(e) => sbinance_candle(self@, *mode) is None && e
                    == ConversionError::MissingData,
            },
    {
        if self.result.len() == 0 {
            return Err(ConversionError::MissingData);
        }
        let row: &Vec<MultipleTypes> = &self.result[0];
        if row.len() < 6 {
            assert(self@[0].len() < 6);
            return Err(ConversionError::MissingData);
        }
        assert(self@[0].len() >= 6);
        proof {
            assert forall|k: int| 0 <= k < 6 implies self@[0][k] == self.result@[0]@[k].deep_view()
            by {
                assert(self@[0] == self.result@[0].deep_view());
            }
        }
        let source: Vec<u8> = vec![66u8, 105u8, 110u8, 97u8, 110u8, 99u8, 101u8];
        assert(source@ =~= binance_source());
        let symbol: Vec<u8> = vec![66u8, 78u8, 66u8, 66u8, 84u8, 67u8];
        assert(symbol@ =~= binance_symbol());
        let timestamp: Dec = match mode {
            TimestampMode::KlineOpenTime => convert_types(&row[0]),
            TimestampMode::Observed(t) => dec_from_millis(*t),
        };
        let c = CryptoCandle {
            timestamp,
            open: convert_types(&row[1]),
            high: convert_types(&row[2]),
            low: convert_types(&row[3]),
            close: convert_types(&row[4]),
            volume: convert_types(&row[5]),
            source,
            symbol: Some(symbol),
        };
        proof {
            assert(c@ =~= sbinance_candle(self@, *mode).unwrap());
        }
        Ok(c)
    }
}

} // verus!
