//! Exchange adapter for candle-array style payloads: an object whose `data`
//! member is an array of arrays of strings, inner positions 0 to 4 being
//! `[timestamp, open, high, low, close]`.  The truncated payload carries no
//! volume, which is therefore fixed at zero.
use vstd::prelude::*;

use crate::candle::CandleModel;
use crate::candle::ConversionError;
use crate::candle::CryptoCandle;
use crate::candle::candle_wf;
use crate::dec::dec_zero;
use crate::dec::zero_dec;
use crate::scan::ASCII_COLON;
use crate::scan::ASCII_COMMA;
use crate::scan::ASCII_LBRACE;
use crate::scan::ASCII_LBRACKET;
use crate::scan::ASCII_QUOTE;
use crate::scan::ASCII_RBRACE;
use crate::scan::ASCII_RBRACKET;
use crate::scan::DEPTH_LIMIT;
use crate::scan::clamp_idx;
use crate::scan::coerce_bytes;
use crate::scan::range_eq;
use crate::scan::scoerce;
use crate::scan::skip_value;
use crate::scan::skip_ws;
use crate::scan::sskip_value;
use crate::scan::sskip_ws;
use crate::scan::sstr_rest;
use crate::scan::str_rest;

verus! {

/// Structural mirror of the exchange's wire JSON: the rows of its `data`
/// member, each cell kept as the raw bytes of its string.
pub struct OkxMessage {
    pub data: Vec<Vec<Vec<u8>>>,
}

impl View for OkxMessage {
    type V = Seq<Seq<Seq<u8>>>;

    open spec fn view(&self) -> Seq<Seq<Seq<u8>>> {
        self.data.deep_view()
    }
}

/// The key whose value holds the candle rows.
pub open spec fn okx_data_key() -> Seq<u8> {
    seq![100u8, 97u8, 116u8, 97u8]
}

/// The source identifier this adapter stamps on its candles.
pub open spec fn okx_source() -> Seq<u8> {
    seq![79u8, 107u8, 120u8]
}

/// Collect the string cells of one row, starting at the first cell.
pub open spec fn sokx_cells(s: Seq<u8>, i: int, acc: Seq<Seq<u8>>) -> Option<(Seq<Seq<u8>>, int)>
    decreases s.len() - i,
    when 0 <= i <= s.len()
{
    if i < s.len() && s[i] == ASCII_QUOTE {
        match sstr_rest(s, i + 1) {
            None => None,
            Some(ke) => {
                let k1 = clamp_idx(ke, i + 2, s.len() as int);
                let cell = s.subrange(i + 1, k1 - 1);
                let j = clamp_idx(sskip_ws(s, k1), k1, s.len() as int);
                if j < s.len() && s[j] == ASCII_COMMA {
                    let n = clamp_idx(sskip_ws(s, j + 1), j + 1, s.len() as int);
                    sokx_cells(s, n, acc.push(cell))
                } else if j < s.len() && s[j] == ASCII_RBRACKET {
                    Some((acc.push(cell), j + 1))
                } else {
                    None
                }
            },
        }
    } else {
        None
    }
}

/// One row: a (possibly empty) array of string cells.
pub open spec fn sokx_row(s: Seq<u8>, i: int) -> Option<(Seq<Seq<u8>>, int)> {
    if 0 <= i && i < s.len() && s[i] == ASCII_LBRACKET {
        let j = clamp_idx(sskip_ws(s, i + 1), i + 1, s.len() as int);
        if j < s.len() && s[j] == ASCII_RBRACKET {
            Some((Seq::empty(), j + 1))
        } else {
            sokx_cells(s, j, Seq::empty())
        }
    } else {
        None
    }
}

/// Collect the rows of the `data` array, starting at the first row.
pub open spec fn sokx_rows(s: Seq<u8>, i: int, acc: Seq<Seq<Seq<u8>>>) -> Option<
    (Seq<Seq<Seq<u8>>>, int),
>
    decreases s.len() - i,
    when 0 <= i <= s.len()
{
    match sokx_row(s, i) {
        None => None,
        Some(p) => {
            let e1 = clamp_idx(p.1, i + 1, s.len() as int);
            let j = clamp_idx(sskip_ws(s, e1), e1, s.len() as int);
            if j < s.len() && s[j] == ASCII_COMMA {
                let n = clamp_idx(sskip_ws(s, j + 1), j + 1, s.len() as int);
                sokx_rows(s, n, acc.push(p.0))
            } else if j < s.len() && s[j] == ASCII_RBRACKET {
                Some((acc.push(p.0), j + 1))
            } else {
                None
            }
        },
    }
}

/// The `data` value: a (possibly empty) array of rows.
pub open spec fn sokx_data(s: Seq<u8>, i: int) -> Option<(Seq<Seq<Seq<u8>>>, int)> {
    if 0 <= i && i < s.len() && s[i] == ASCII_LBRACKET {
        let j = clamp_idx(sskip_ws(s, i + 1), i + 1, s.len() as int);
        if j < s.len() && s[j] == ASCII_RBRACKET {
            Some((Seq::empty(), j + 1))
        } else {
            sokx_rows(s, j, Seq::empty())
        }
    } else {
        None
    }
}

/// Walk the members of the top-level object from the opening quote of a key.
/// The first `data` member is decoded; a second one is refused; every other
/// member is skipped after full validation.  The object must close and
/// nothing but whitespace may follow it.
pub open spec fn sokx_membs(s: Seq<u8>, i: int, found: Option<Seq<Seq<Seq<u8>>>>) -> Option<
    Seq<Seq<Seq<u8>>>,
>
    decreases s.len() - i,
    when 0 <= i <= s.len()
{
    if i < s.len() && s[i] == ASCII_QUOTE {
        match sstr_rest(s, i + 1) {
            None => None,
            Some(ke) => {
                let k1 = clamp_idx(ke, i + 2, s.len() as int);
                let key = s.subrange(i + 1, k1 - 1);
                let j = clamp_idx(sskip_ws(s, k1), k1, s.len() as int);
                if j < s.len() && s[j] == ASCII_COLON {
                    let v0 = clamp_idx(sskip_ws(s, j + 1), j + 1, s.len() as int);
                    let is_data = key == okx_data_key();
                    if is_data && found is Some {
                        None
                    } else {
                        let step: Option<(Option<Seq<Seq<Seq<u8>>>>, int)> = if is_data {
                            match sokx_data(s, v0) {
                                None => None,
                                Some(p) => Some((Some(p.0), p.1)),
                            }
                        } else {
                            match sskip_value(s, v0, (DEPTH_LIMIT - 1) as nat) {
                                None => None,
                                Some(e) => Some((found, e)),
                            }
                        };
                        match step {
                            None => None,
                            Some(q) => {
                                let ve1 = clamp_idx(q.1, v0, s.len() as int);
                                let j2 = clamp_idx(sskip_ws(s, ve1), ve1, s.len() as int);
                                if j2 < s.len() && s[j2] == ASCII_COMMA {
                                    let n0 = clamp_idx(sskip_ws(s, j2 + 1), j2 + 1, s.len() as int);
                                    sokx_membs(s, n0, q.0)
                                } else if j2 < s.len() && s[j2] == ASCII_RBRACE {
                                    let t = sskip_ws(s, j2 + 1);
                                    if t == s.len() {
                                        q.0
                                    } else {
                                        None
                                    }
                                } else {
                                    None
                                }
                            },
                        }
                    }
                } else {
                    None
                }
            },
        }
    } else {
        None
    }
}

/// Structural decode of a whole message against this adapter's schema: a
/// top-level object containing a `data` member of rows of strings.
pub open spec fn sdecode_okx(s: Seq<u8>) -> Option<Seq<Seq<Seq<u8>>>> {
    let i = clamp_idx(sskip_ws(s, 0), 0, s.len() as int);
    if i < s.len() && s[i] == ASCII_LBRACE {
        let j = clamp_idx(sskip_ws(s, i + 1), i + 1, s.len() as int);
        sokx_membs(s, j, None)
    } else {
        None
    }
}

fn okx_cells(s: &[u8], i0: usize) -> (r: Option<(Vec<Vec<u8>>, usize)>)
    requires
        i0 <= s@.len(),
    ensures
        match r {
            Some(p) => sokx_cells(s@, i0 as int, Seq::empty()) == Some((p.0.deep_view(), p.1 as int))
                && i0 < p.1 <= s@.len(),
            None => sokx_cells(s@, i0 as int, Seq::empty()) is None,
        },
{
    let mut acc: Vec<Vec<u8>> = Vec::new();
    let mut cur: usize = i0;
    assert(acc.deep_view() =~~= Seq::<Seq<u8>>::empty());
    loop
        invariant
            i0 <= cur <= s@.len(),
            sokx_cells(s@, i0 as int, Seq::empty()) == sokx_cells(s@, cur as int, acc.deep_view()),
        decreases s@.len() - cur,
    {
        if !(cur < s.len() && s[cur] == ASCII_QUOTE) {
            return None;
        }
        match str_rest(s, cur + 1) {
            None => {
                return None;
            },
            Some(ke) => {
                let cell = crate::dec::copy_range(s, cur + 1, ke - 1);
                let j = skip_ws(s, ke);
                if j < s.len() && s[j] == ASCII_COMMA {
                    let n = skip_ws(s, j + 1);
                    let ghost old_acc = acc.deep_view();
                    acc.push(cell);
                    assert(acc.deep_view() =~~= old_acc.push(
                        s@.subrange(cur as int + 1, ke as int - 1),
                    ));
                    cur = n;
                } else if j < s.len() && s[j] == ASCII_RBRACKET {
                    let ghost old_acc = acc.deep_view();
                    acc.push(cell);
                    assert(acc.deep_view() =~~= old_acc.push(
                        s@.subrange(cur as int + 1, ke as int - 1),
                    ));
                    return Some((acc, j + 1));
                } else {
                    return None;
                }
            },
        }
    }
}

fn okx_row(s: &[u8], i: usize) -> (r: Option<(Vec<Vec<u8>>, usize)>)
    requires
        i <= s@.len(),
    ensures
        match r {
            Some(p) => sokx_row(s@, i as int) == Some((p.0.deep_view(), p.1 as int)) && i < p.1
                <= s@.len(),
            None => sokx_row(s@, i as int) is None,
        },
{
    if !(i < s.len() && s[i] == ASCII_LBRACKET) {
        return None;
    }
    let j = skip_ws(s, i + 1);
    if j < s.len() && s[j] == ASCII_RBRACKET {
        let empty: Vec<Vec<u8>> = Vec::new();
        assert(empty.deep_view() =~~= Seq::<Seq<u8>>::empty());
        return Some((empty, j + 1));
    }
    okx_cells(s, j)
}

fn okx_rows(s: &[u8], i0: usize) -> (r: Option<(Vec<Vec<Vec<u8>>>, usize)>)
    requires
        i0 <= s@.len(),
    ensures
        match r {
            Some(p) => sokx_rows(s@, i0 as int, Seq::empty()) == Some((p.0.deep_view(), p.1 as int))
                && i0 < p.1 <= s@.len(),
            None => sokx_rows(s@, i0 as int, Seq::empty()) is None,
        },
{
    let mut acc: Vec<Vec<Vec<u8>>> = Vec::new();
    let mut cur: usize = i0;
    assert(acc.deep_view() =~~= Seq::<Seq<Seq<u8>>>::empty());
    loop
        invariant
            i0 <= cur <= s@.len(),
            sokx_rows(s@, i0 as int, Seq::empty()) == sokx_rows(s@, cur as int, acc.deep_view()),
        decreases s@.len() - cur,
    {
        match okx_row(s, cur) {
            None => {
                return None;
            },
            Some(rp) => {
                let (row, e) = rp;
                let ghost rowm = row.deep_view();
                let j = skip_ws(s, e);
                if j < s.len() && s[j] == ASCII_COMMA {
                    let n = skip_ws(s, j + 1);
                    let ghost old_acc = acc.deep_view();
                    acc.push(row);
                    assert(acc.deep_view() =~~= old_acc.push(rowm));
                    cur = n;
                } else if j < s.len() && s[j] == ASCII_RBRACKET {
                    let ghost old_acc = acc.deep_view();
                    acc.push(row);
                    assert(acc.deep_view() =~~= old_acc.push(rowm));
                    return Some((acc, j + 1));
                } else {
                    return None;
                }
            },
        }
    }
}

fn okx_data(s: &[u8], i: usize) -> (r: Option<(Vec<Vec<Vec<u8>>>, usize)>)
    requires
        i <= s@.len(),
    ensures
        match r {
            Some(p) => sokx_data(s@, i as int) == Some((p.0.deep_view(), p.1 as int)) && i < p.1
                <= s@.len(),
            None => sokx_data(s@, i as int) is None,
        },
{
    if !(i < s.len() && s[i] == ASCII_LBRACKET) {
        return None;
    }
    let j = skip_ws(s, i + 1);
    if j < s.len() && s[j] == ASCII_RBRACKET {
        let empty: Vec<Vec<Vec<u8>>> = Vec::new();
        assert(empty.deep_view() =~~= Seq::<Seq<Seq<u8>>>::empty());
        return Some((empty, j + 1));
    }
    okx_rows(s, j)
}

/// Model of the running walker state.
pub open spec fn okx_found_model(o: Option<Vec<Vec<Vec<u8>>>>) -> Option<Seq<Seq<Seq<u8>>>> {
    match o {
        Some(v) => Some(v.deep_view()),
        None => None,
    }
}

/// Decode a whole message against this adapter's schema.
#[verifier::rlimit(60)]
pub fn decode_okx(s: &[u8]) -> (r: Option<OkxMessage>)
    ensures
        match r {
            Some(m) => sdecode_okx(s@) == Some(m@),
            None => sdecode_okx(s@) is None,
        },
{
    let i = skip_ws(s, 0);
    if !(i < s.len() && s[i] == ASCII_LBRACE) {
        return None;
    }
    let mut cur: usize = skip_ws(s, i + 1);
    let mut found: Option<Vec<Vec<Vec<u8>>>> = None;
    let key: Vec<u8> = vec![100u8, 97u8, 116u8, 97u8];
    assert(key@ =~= okx_data_key());
    loop
        invariant
            cur <= s@.len(),
            key@ == okx_data_key(),
            sdecode_okx(s@) == sokx_membs(s@, cur as int, okx_found_model(found)),
        decreases s@.len() - cur,
    {
        if !(cur < s.len() && s[cur] == ASCII_QUOTE) {
            return None;
        }
        match str_rest(s, cur + 1) {
            None => {
                return None;
            },
            Some(ke) => {
                let j = skip_ws(s, ke);
                if !(j < s.len() && s[j] == ASCII_COLON) {
                    return None;
                }
                let v0 = skip_ws(s, j + 1);
                let is_data = range_eq(s, cur + 1, ke - 1, &key);
                let ve: usize;
                if is_data {
                    if found.is_some() {
                        return None;
                    }
                    match okx_data(s, v0) {
                        None => {
                            return None;
                        },
                        Some(p) => {
                            found = Some(p.0);
                            ve = p.1;
                        },
                    }
                } else {
                    match skip_value(s, v0, DEPTH_LIMIT - 1) {
                        None => {
                            return None;
                        },
                        Some(e) => {
                            ve = e;
                        },
                    }
                }
                let j2 = skip_ws(s, ve);
                if j2 < s.len() && s[j2] == ASCII_COMMA {
                    cur = skip_ws(s, j2 + 1);
                } else if j2 < s.len() && s[j2] == ASCII_RBRACE {
                    let t = skip_ws(s, j2 + 1);
                    if t == s.len() {
                        return match found {
                            Some(d) => Some(OkxMessage { data: d }),
                            None => None,
                        };
                    } else {
                        return None;
                    }
                } else {
                    return None;
                }
            },
        }
    }
}

/// The candle this adapter derives from decoded rows: the first row's five
/// string cells coerced into timestamp, open, high, low and close; volume
/// fixed at zero; no symbol.  An empty data block or a row with fewer than
/// five cells is the missing-data failure.
pub open spec fn sokx_candle(rows: Seq<Seq<Seq<u8>>>) -> Option<CandleModel> {
    if rows.len() == 0 || rows[0].len() < 5 {
        None
    } else {
        Some(
            CandleModel {
                timestamp: scoerce(rows[0][0]),
                open: scoerce(rows[0][1]),
                high: scoerce(rows[0][2]),
                low: scoerce(rows[0][3]),
                close: scoerce(rows[0][4]),
                volume: dec_zero(),
                source: okx_source(),
                symbol: None,
            },
        )
    }
}

impl OkxMessage {
    /// Convert the decoded message into the canonical candle; fails exactly
    /// when the data block is empty or the first row is too short.
    pub fn to_candle(&self) -> (r: Result<CryptoCandle, ConversionError>)
        ensures
            match r {
                Ok(c) => sokx_candle(self@) == Some(c@) && candle_wf(c@),
                Err(e) => sokx_candle(self@) is None && e == ConversionError::MissingData,
            },
    {
        if self.data.len() == 0 {
            return Err(ConversionError::MissingData);
        }
        let row: &Vec<Vec<u8>> = &self.data[0];
        if row.len() < 5 {
            assert(self@[0].len() < 5);
            return Err(ConversionError::MissingData);
        }
        assert(self@[0].len() >= 5);
        let source: Vec<u8> = vec![79u8, 107u8, 120u8];
        assert(source@ =~= okx_source());
        let c = CryptoCandle {
            timestamp: coerce_bytes(row[0].as_slice()),
            open: coerce_bytes(row[1].as_slice()),
            high: coerce_bytes(row[2].as_slice()),
            low: coerce_bytes(row[3].as_slice()),
            close: coerce_bytes(row[4].as_slice()),
            volume: zero_dec(),
            source,
            symbol: None,
        };
        proof {
            assert forall|k: int| 0 <= k < 5 implies self@[0][k] =~= self.data@[0]@[k]@ by {
                assert(self@[0] == self.data@[0].deep_view());
                assert(self@[0][k] == self.data@[0]@[k].deep_view());
            }
            assert(c@ =~= sokx_candle(self@).unwrap());
        }
        Ok(c)
    }
}

} // verus!
