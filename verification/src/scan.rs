//! Byte-level JSON scanning.
//!
//! The classifier works directly on the raw bytes of a message, so this
//! module defines the lexical layer of the wire grammar: whitespace, digit
//! runs, strings (with escape validation) and numbers.  Every executable
//! scanner returns exactly what its specification-level twin computes.
//!
//! String contents are kept in their raw spelling: escape sequences are
//! validated but not decoded.  The decoders only compare keys against plain
//! literals and parse numeric strings, neither of which is ever written with
//! escapes by the supported exchanges.
use vstd::prelude::*;

use crate::dec::ASCII_DOT;
use crate::dec::ASCII_MINUS;
use crate::dec::ASCII_NINE;
use crate::dec::ASCII_ZERO;
use crate::dec::Dec;
use crate::dec::DecModel;
use crate::dec::apply_json;
use crate::dec::copy_range;
use crate::dec::dec_wf;
use crate::dec::digits_wf;
use crate::dec::is_digit;
use crate::dec::json_range_policy;
use crate::dec::make_dec;
use crate::dec::norm_dec;

verus! {

pub const ASCII_QUOTE: u8 = 34;
pub const ASCII_BACKSLASH: u8 = 92;
pub const ASCII_PLUS: u8 = 43;
pub const ASCII_COMMA: u8 = 44;
pub const ASCII_COLON: u8 = 58;
pub const ASCII_LBRACKET: u8 = 91;
pub const ASCII_RBRACKET: u8 = 93;
pub const ASCII_LBRACE: u8 = 123;
pub const ASCII_RBRACE: u8 = 125;
pub const ASCII_LOWER_E: u8 = 101;
pub const ASCII_UPPER_E: u8 = 69;

/// Saturation cap for an exponent literal's value; any literal at the cap is
/// far outside the representable range either way.
pub const EXP_CAP: i128 = 0x10_0000_0000_0000;

pub open spec fn is_ws(b: u8) -> bool {
    b == 32 || b == 9 || b == 10 || b == 13
}

/// First index at or after `i` holding no whitespace.
pub open spec fn sskip_ws(s: Seq<u8>, i: int) -> int
    decreases s.len() - i,
    when 0 <= i <= s.len()
{
    if i < s.len() && is_ws(s[i]) {
        sskip_ws(s, i + 1)
    } else {
        i
    }
}

pub fn skip_ws(s: &[u8], i: usize) -> (r: usize)
    requires
        i <= s@.len(),
    ensures
        r == sskip_ws(s@, i as int),
        i <= r <= s@.len(),
{
    let mut j: usize = i;
    while j < s.len() && (s[j] == 32 || s[j] == 9 || s[j] == 10 || s[j] == 13)
        invariant
            i <= j <= s@.len(),
            sskip_ws(s@, i as int) == sskip_ws(s@, j as int),
        decreases s@.len() - j,
    {
        j = j + 1;
    }
    j
}

/// First index at or after `i` holding no decimal digit.
pub open spec fn sdig_end(s: Seq<u8>, i: int) -> int
    decreases s.len() - i,
    when 0 <= i <= s.len()
{
    if i < s.len() && is_digit(s[i]) {
        sdig_end(s, i + 1)
    } else {
        i
    }
}

/// A digit run never leaves the slice.
pub proof fn lemma_dig_end_bounds(s: Seq<u8>, i: int)
    requires
        0 <= i <= s.len(),
    ensures
        i <= sdig_end(s, i) <= s.len(),
    decreases s.len() - i,
{
    if i < s.len() && is_digit(s[i]) {
        lemma_dig_end_bounds(s, i + 1);
    }
}

/// A maximal digit run determines where the scan stops.
pub proof fn lemma_dig_end_run(s: Seq<u8>, i: int, j: int)
    requires
        0 <= i <= j <= s.len(),
        forall|k: int| i <= k < j ==> is_digit(#[trigger] s[k]),
        j == s.len() || !is_digit(s[j]),
    ensures
        sdig_end(s, i) == j,
    decreases j - i,
{
    if i < j {
        lemma_dig_end_run(s, i + 1, j);
    }
}

pub fn digits_end(s: &[u8], i: usize) -> (r: usize)
    requires
        i <= s@.len(),
    ensures
        r == sdig_end(s@, i as int),
        i <= r <= s@.len(),
        forall|k: int| i <= k < r ==> is_digit(#[trigger] s@[k]),
        i < s@.len() && is_digit(s@[i as int]) ==> r > i,
{
    proof {
        if i < s@.len() && is_digit(s@[i as int]) {
            lemma_dig_end_bounds(s@, i + 1);
        }
    }
    let mut j: usize = i;
    while j < s.len() && s[j] >= ASCII_ZERO && s[j] <= ASCII_NINE
        invariant
            i <= j <= s@.len(),
            sdig_end(s@, i as int) == sdig_end(s@, j as int),
            forall|k: int| i <= k < j ==> is_digit(#[trigger] s@[k]),
        decreases s@.len() - j,
    {
        j = j + 1;
    }
    j
}

/// The escapes JSON admits after a backslash, besides `\uXXXX`.
pub open spec fn is_simple_escape(b: u8) -> bool {
    b == 34 || b == 92 || b == 47 || b == 98 || b == 102 || b == 110 || b == 114 || b == 116
}

pub open spec fn is_hex(b: u8) -> bool {
    (48 <= b <= 57) || (97 <= b <= 102) || (65 <= b <= 70)
}

fn is_hex_x(b: u8) -> (r: bool)
    ensures
        r == is_hex(b),
{
    (48 <= b && b <= 57) || (97 <= b && b <= 102) || (65 <= b && b <= 70)
}

/// Scan the rest of a JSON string whose opening quote stands just before
/// `j`: validate escapes, refuse raw control bytes, and return the index
/// just past the closing quote.
pub open spec fn sstr_rest(s: Seq<u8>, j: int) -> Option<int>
    decreases s.len() - j,
    when 0 <= j <= s.len()
{
    if j >= s.len() {
        None
    } else if s[j] == ASCII_QUOTE {
        Some(j + 1)
    } else if s[j] == ASCII_BACKSLASH {
        if j + 1 < s.len() && is_simple_escape(s[j + 1]) {
            sstr_rest(s, j + 2)
        } else if j + 1 < s.len() && s[j + 1] == 117 {
            if j + 5 < s.len() && is_hex(s[j + 2]) && is_hex(s[j + 3]) && is_hex(s[j + 4]) && is_hex(
                s[j + 5],
            ) {
                sstr_rest(s, j + 6)
            } else {
                None
            }
        } else {
            None
        }
    } else if s[j] < 32 {
        None
    } else {
        sstr_rest(s, j + 1)
    }
}

pub fn str_rest(s: &[u8], j0: usize) -> (r: Option<usize>)
    requires
        j0 <= s@.len(),
    ensures
        match r {
            Some(e) => sstr_rest(s@, j0 as int) == Some(e as int) && j0 < e <= s@.len(),
            None => sstr_rest(s@, j0 as int) is None,
        },
{
    let mut j: usize = j0;
    loop
        invariant
            j0 <= j <= s@.len(),
            sstr_rest(s@, j0 as int) == sstr_rest(s@, j as int),
        decreases s@.len() - j,
    {
        if j >= s.len() {
            return None;
        }
        let b = s[j];
        if b == ASCII_QUOTE {
            return Some(j + 1);
        }
        if b == ASCII_BACKSLASH {
            if s.len() - j <= 1 {
                return None;
            }
            let c = s[j + 1];
            if c == 34 || c == 92 || c == 47 || c == 98 || c == 102 || c == 110 || c == 114 || c
                == 116 {
                j = j + 2;
            } else if c == 117 {
                if s.len() - j <= 5 {
                    return None;
                }
                if is_hex_x(s[j + 2]) && is_hex_x(s[j + 3]) && is_hex_x(s[j + 4]) && is_hex_x(
                    s[j + 5],
                ) {
                    j = j + 6;
                } else {
                    return None;
                }
            } else {
                return None;
            }
        } else if b < 32 {
            return None;
        } else {
            j = j + 1;
        }
    }
}

/// Value of the exponent digits in [i, end), accumulated left to right and
/// saturated at `EXP_CAP`.
pub open spec fn sexp_accum(s: Seq<u8>, i: int, end: int, acc: int) -> int
    decreases end - i,
    when 0 <= i <= end <= s.len()
{
    if i < end {
        let acc2 = if acc * 10 + (s[i] - ASCII_ZERO) > EXP_CAP {
            EXP_CAP as int
        } else {
            acc * 10 + (s[i] - ASCII_ZERO)
        };
        sexp_accum(s, i + 1, end, acc2)
    } else {
        acc
    }
}

pub fn exp_accum(s: &[u8], i: usize, end: usize, acc0: i128) -> (r: i128)
    requires
        i <= end <= s@.len(),
        0 <= acc0 <= EXP_CAP,
        forall|k: int| i <= k < end ==> is_digit(#[trigger] s@[k]),
    ensures
        r == sexp_accum(s@, i as int, end as int, acc0 as int),
        0 <= r <= EXP_CAP,
{
    let mut acc: i128 = acc0;
    let mut j: usize = i;
    while j < end
        invariant
            i <= j <= end <= s@.len(),
            0 <= acc <= EXP_CAP,
            forall|k: int| i <= k < end ==> is_digit(#[trigger] s@[k]),
            sexp_accum(s@, i as int, end as int, acc0 as int) == sexp_accum(
                s@,
                j as int,
                end as int,
                acc as int,
            ),
        decreases end - j,
    {
        let d = (s[j] - ASCII_ZERO) as i128;
        if acc * 10 + d > EXP_CAP {
            acc = EXP_CAP;
        } else {
            acc = acc * 10 + d;
        }
        j = j + 1;
    }
    acc
}

/// Scan a JSON number starting exactly at `i`: an optional minus sign, an
/// integer part without a superfluous leading zero, an optional fraction
/// with at least one digit, an optional exponent with at least one digit.
/// The result is the normalized decimal after the JSON range policy, with
/// the index just past the literal.
pub open spec fn snum(s: Seq<u8>, i: int) -> Option<(DecModel, int)> {
    let neg = i < s.len() && s[i] == ASCII_MINUS;
    let i1 = if neg {
        i + 1
    } else {
        i
    };
    if i1 >= s.len() || !is_digit(s[i1]) {
        None
    } else if s[i1] == ASCII_ZERO && i1 + 1 < s.len() && is_digit(s[i1 + 1]) {
        None
    } else {
        let ie = sdig_end(s, i1);
        let has_frac = ie < s.len() && s[ie] == ASCII_DOT;
        let fs = if has_frac {
            ie + 1
        } else {
            ie
        };
        let fe = if has_frac {
            sdig_end(s, ie + 1)
        } else {
            ie
        };
        if has_frac && fe == fs {
            None
        } else {
            let has_exp = fe < s.len() && (s[fe] == ASCII_LOWER_E || s[fe] == ASCII_UPPER_E);
            if has_exp {
                let es0 = fe + 1;
                let esign = es0 < s.len() && (s[es0] == ASCII_MINUS || s[es0] == ASCII_PLUS);
                let eneg = es0 < s.len() && s[es0] == ASCII_MINUS;
                let es = if esign {
                    es0 + 1
                } else {
                    es0
                };
                let ee = sdig_end(s, es);
                if ee == es {
                    None
                } else {
                    snum_build(s, neg, i1, ie, fs, fe, eneg, es, ee)
                }
            } else {
                snum_build(s, neg, i1, ie, fs, fe, false, fe, fe)
            }
        }
    }
}

/// Assemble the scanned number: integer and fraction digits joined, the
/// fraction folded into the exponent, then normalization and range policy.
pub open spec fn snum_build(
    s: Seq<u8>,
    neg: bool,
    is_: int,
    ie: int,
    fs: int,
    fe: int,
    eneg: bool,
    es: int,
    ee: int,
) -> Option<(DecModel, int)> {
    let ev = sexp_accum(s, es, ee, 0);
    let e = (if eneg {
        -ev
    } else {
        ev
    }) - (fe - fs);
    let d = norm_dec(neg, s.subrange(is_, ie) + s.subrange(fs, fe), e);
    match json_range_policy(d) {
        Some(v) => Some((v, ee)),
        None => None,
    }
}

/// Scan a JSON number at `i`.
#[verifier::rlimit(60)]
pub fn scan_num(s: &[u8], i: usize) -> (r: Option<(Dec, usize)>)
    requires
        i <= s@.len(),
    ensures
        match r {
            Some(p) => snum(s@, i as int) == Some((p.0@, p.1 as int)) && i < p.1 <= s@.len()
                && dec_wf(p.0@),
            None => snum(s@, i as int) is None,
        },
{
    let neg = i < s.len() && s[i] == ASCII_MINUS;
    let i1: usize = if neg {
        i + 1
    } else {
        i
    };
    if i1 >= s.len() || !(s[i1] >= ASCII_ZERO && s[i1] <= ASCII_NINE) {
        assert(snum(s@, i as int) is None);
        return None;
    }
    if s[i1] == ASCII_ZERO && i1 + 1 < s.len() && s[i1 + 1] >= ASCII_ZERO && s[i1 + 1]
        <= ASCII_NINE {
        assert(snum(s@, i as int) is None);
        return None;
    }
    let ie = digits_end(s, i1);
    let has_frac = ie < s.len() && s[ie] == ASCII_DOT;
    let fs: usize = if has_frac {
        ie + 1
    } else {
        ie
    };
    let fe: usize = if has_frac {
        digits_end(s, ie + 1)
    } else {
        ie
    };
    if has_frac && fe == fs {
        assert(snum(s@, i as int) is None);
        return None;
    }
    let has_exp = fe < s.len() && (s[fe] == ASCII_LOWER_E || s[fe] == ASCII_UPPER_E);
    let mut eneg = false;
    let mut es: usize = fe;
    let mut ee: usize = fe;
    if has_exp {
        let es0: usize = fe + 1;
        let esign = es0 < s.len() && (s[es0] == ASCII_MINUS || s[es0] == ASCII_PLUS);
        eneg = es0 < s.len() && s[es0] == ASCII_MINUS;
        es = if esign {
            es0 + 1
        } else {
            es0
        };
        ee = digits_end(s, es);
        if ee == es {
            assert(snum(s@, i as int) is None);
            return None;
        }
    }
    assert(snum(s@, i as int) == snum_build(
        s@,
        neg,
        i1 as int,
        ie as int,
        fs as int,
        fe as int,
        eneg,
        es as int,
        ee as int,
    ));
    let ev = exp_accum(s, es, ee, 0);
    let e: i128 = (if eneg {
        -ev
    } else {
        ev
    }) - (fe - fs) as i128;
    let mut ds = copy_range(s, i1, ie);
    let frac = copy_range(s, fs, fe);
    crate::dec::push_all(&mut ds, &frac);
    assert(ds@ =~= s@.subrange(i1 as int, ie as int) + s@.subrange(fs as int, fe as int));
    let d0 = make_dec(neg, &ds, e);
    match apply_json(d0) {
        Some(d) => {
            assert(snum_build(
                s@,
                neg,
                i1 as int,
                ie as int,
                fs as int,
                fe as int,
                eneg,
                es as int,
                ee as int,
            ) == Some((d@, ee as int)));
            Some((d, ee))
        },
        None => {
            assert(snum_build(
                s@,
                neg,
                i1 as int,
                ie as int,
                fs as int,
                fe as int,
                eneg,
                es as int,
                ee as int,
            ) is None);
            None
        },
    }
}

/// Assemble a coerced literal: like `snum_build`, but out-of-range values
/// collapse to zero instead of failing, so coercion is total.
pub open spec fn scoerce_build(
    s: Seq<u8>,
    neg: bool,
    is_: int,
    ie: int,
    fs: int,
    fe: int,
    eneg: bool,
    es: int,
    ee: int,
) -> DecModel {
    let ev = sexp_accum(s, es, ee, 0);
    let e = (if eneg {
        -ev
    } else {
        ev
    }) - (fe - fs);
    crate::dec::coerce_range_policy(norm_dec(neg, s.subrange(is_, ie) + s.subrange(fs, fe), e))
}

/// Tolerant numeric coercion of a whole byte string, in the shape of a
/// floating-point literal: an optional sign, digits with an optional dot
/// (at least one digit overall), and an optional signed exponent.  Anything
/// else — including the non-finite keywords, which can denote no candle
/// value — coerces to zero rather than failing.
pub open spec fn scoerce(b: Seq<u8>) -> DecModel {
    let neg = b.len() > 0 && b[0] == ASCII_MINUS;
    let plus = b.len() > 0 && b[0] == ASCII_PLUS;
    let i1: int = if neg || plus {
        1
    } else {
        0
    };
    let ie = clamp_idx(sdig_end(b, i1), i1, b.len() as int);
    let has_dot = ie < b.len() && b[ie] == ASCII_DOT;
    let fs: int = if has_dot {
        ie + 1
    } else {
        ie
    };
    let fe: int = if has_dot {
        clamp_idx(sdig_end(b, fs), fs, b.len() as int)
    } else {
        ie
    };
    if ie == i1 && fe == fs {
        crate::dec::dec_zero()
    } else {
        let has_exp = fe < b.len() && (b[fe] == ASCII_LOWER_E || b[fe] == ASCII_UPPER_E);
        if has_exp {
            let es0 = fe + 1;
            let esign = es0 < b.len() && (b[es0] == ASCII_MINUS || b[es0] == ASCII_PLUS);
            let eneg = es0 < b.len() && b[es0] == ASCII_MINUS;
            let es = if esign {
                es0 + 1
            } else {
                es0
            };
            let ee = clamp_idx(sdig_end(b, es), es, b.len() as int);
            if ee == es || ee != b.len() {
                crate::dec::dec_zero()
            } else {
                scoerce_build(b, neg, i1, ie, fs, fe, eneg, es, ee)
            }
        } else if fe != b.len() {
            crate::dec::dec_zero()
        } else {
            scoerce_build(b, neg, i1, ie, fs, fe, false, fe, fe)
        }
    }
}

/// Coerce a byte string to a decimal, zero on any failure.
#[verifier::rlimit(60)]
pub fn coerce_bytes(b: &[u8]) -> (r: Dec)
    ensures
        r@ == scoerce(b@),
        dec_wf(r@),
{
    let neg = b.len() > 0 && b[0] == ASCII_MINUS;
    let plus = b.len() > 0 && b[0] == ASCII_PLUS;
    let i1: usize = if neg || plus {
        1
    } else {
        0
    };
    let ie = digits_end(b, i1);
    let has_dot = ie < b.len() && b[ie] == ASCII_DOT;
    let fs: usize = if has_dot {
        ie + 1
    } else {
        ie
    };
    let fe: usize = if has_dot {
        digits_end(b, fs)
    } else {
        ie
    };
    if ie == i1 && fe == fs {
        assert(scoerce(b@) == crate::dec::dec_zero());
        return crate::dec::zero_dec();
    }
    let has_exp = fe < b.len() && (b[fe] == ASCII_LOWER_E || b[fe] == ASCII_UPPER_E);
    let mut eneg = false;
    let mut es: usize = fe;
    let mut ee: usize = fe;
    if has_exp {
        let es0: usize = fe + 1;
        let esign = es0 < b.len() && (b[es0] == ASCII_MINUS || b[es0] == ASCII_PLUS);
        eneg = es0 < b.len() && b[es0] == ASCII_MINUS;
        es = if esign {
            es0 + 1
        } else {
            es0
        };
        ee = digits_end(b, es);
        if ee == es || ee != b.len() {
            assert(scoerce(b@) == crate::dec::dec_zero());
            return crate::dec::zero_dec();
        }
    } else {
        if fe != b.len() {
            assert(scoerce(b@) == crate::dec::dec_zero());
            return crate::dec::zero_dec();
        }
    }
    assert(scoerce(b@) == scoerce_build(
        b@,
        neg,
        i1 as int,
        ie as int,
        fs as int,
        fe as int,
        eneg,
        es as int,
        ee as int,
    ));
    let ev = exp_accum(b, es, ee, 0);
    let e: i128 = (if eneg {
        -ev
    } else {
        ev
    }) - (fe - fs) as i128;
    let mut ds = copy_range(b, i1, ie);
    let frac = copy_range(b, fs, fe);
    crate::dec::push_all(&mut ds, &frac);
    assert(ds@ =~= b@.subrange(i1 as int, ie as int) + b@.subrange(fs as int, fe as int));
    let d0 = make_dec(neg, &ds, e);
    crate::dec::apply_coerce(d0)
}

/// Compare a byte range of `s` with a whole vector.
pub fn range_eq(s: &[u8], a: usize, b: usize, t: &Vec<u8>) -> (r: bool)
    requires
        a <= b <= s@.len(),
    ensures
        r == (s@.subrange(a as int, b as int) == t@),
{
    if b - a != t.len() {
        assert(s@.subrange(a as int, b as int).len() != t@.len());
        return false;
    }
    let mut k: usize = 0;
    while k < t.len()
        invariant
            a <= b <= s@.len(),
            b - a == t@.len(),
            k <= t@.len(),
            forall|m: int| 0 <= m < k ==> s@.subrange(a as int, b as int)[m] == t@[m],
        decreases t@.len() - k,
    {
        if s[a + k] != t[k] {
            assert(s@.subrange(a as int, b as int)[k as int] != t@[k as int]);
            return false;
        }
        k = k + 1;
    }
    assert(s@.subrange(a as int, b as int) =~= t@);
    true
}

/// Clamp an index into [lo, hi].  Every scanner in fact stays inside the
/// range it was given; the clamp turns that fact into a definition, so the
/// mutual recursion below terminates without auxiliary lemmas.
pub open spec fn clamp_idx(j: int, lo: int, hi: int) -> int {
    if j < lo {
        lo
    } else if j > hi {
        hi
    } else {
        j
    }
}

/// Nesting budget for skipped values, mirroring the usual recursion limit of
/// streaming JSON parsers; a deeper payload is refused rather than risking
/// unbounded recursion.
pub const DEPTH_LIMIT: u32 = 128;

/// Skip one complete JSON value starting exactly at `i`, validating its
/// syntax; the result is the index just past the value.
pub open spec fn sskip_value(s: Seq<u8>, i: int, depth: nat) -> Option<int>
    decreases s.len() - i, 0nat,
    when 0 <= i <= s.len()
{
    if i >= s.len() {
        None
    } else if s[i] == ASCII_QUOTE {
        sstr_rest(s, i + 1)
    } else if s[i] == ASCII_MINUS || is_digit(s[i]) {
        match snum(s, i) {
            Some(p) => Some(p.1),
            None => None,
        }
    } else if s[i] == 116 {
        if i + 4 <= s.len() && s[i + 1] == 114 && s[i + 2] == 117 && s[i + 3] == 101 {
            Some(i + 4)
        } else {
            None
        }
    } else if s[i] == 102 {
        if i + 5 <= s.len() && s[i + 1] == 97 && s[i + 2] == 108 && s[i + 3] == 115 && s[i + 4]
            == 101 {
            Some(i + 5)
        } else {
            None
        }
    } else if s[i] == 110 {
        if i + 4 <= s.len() && s[i + 1] == 117 && s[i + 2] == 108 && s[i + 3] == 108 {
            Some(i + 4)
        } else {
            None
        }
    } else if s[i] == ASCII_LBRACKET {
        if depth == 0 {
            None
        } else {
            let j = clamp_idx(sskip_ws(s, i + 1), i + 1, s.len() as int);
            if j < s.len() && s[j] == ASCII_RBRACKET {
                Some(j + 1)
            } else {
                sskip_elems(s, j, (depth - 1) as nat)
            }
        }
    } else if s[i] == ASCII_LBRACE {
        if depth == 0 {
            None
        } else {
            let j = clamp_idx(sskip_ws(s, i + 1), i + 1, s.len() as int);
            if j < s.len() && s[j] == ASCII_RBRACE {
                Some(j + 1)
            } else {
                sskip_membs(s, j, (depth - 1) as nat)
            }
        }
    } else {
        None
    }
}

/// Skip the elements of an array from the start of its first remaining
/// element to just past the closing bracket.
pub open spec fn sskip_elems(s: Seq<u8>, i: int, depth: nat) -> Option<int>
    decreases s.len() - i, 1nat,
    when 0 <= i <= s.len()
{
    match sskip_value(s, i, depth) {
        None => None,
        Some(v) => {
            let v1 = clamp_idx(v, i, s.len() as int);
            let j = clamp_idx(sskip_ws(s, v1), v1, s.len() as int);
            if j < s.len() && s[j] == ASCII_COMMA {
                let n = clamp_idx(sskip_ws(s, j + 1), j + 1, s.len() as int);
                sskip_elems(s, n, depth)
            } else if j < s.len() && s[j] == ASCII_RBRACKET {
                Some(j + 1)
            } else {
                None
            }
        },
    }
}

/// Skip the members of an object from the opening quote of its first
/// remaining key to just past the closing brace.
pub open spec fn sskip_membs(s: Seq<u8>, i: int, depth: nat) -> Option<int>
    decreases s.len() - i, 1nat,
    when 0 <= i <= s.len()
{
    if i < s.len() && s[i] == ASCII_QUOTE {
        match sstr_rest(s, i + 1) {
            None => None,
            Some(ke) => {
                let k1 = clamp_idx(ke, i + 1, s.len() as int);
                let j = clamp_idx(sskip_ws(s, k1), k1, s.len() as int);
                if j < s.len() && s[j] == ASCII_COLON {
                    let v0 = clamp_idx(sskip_ws(s, j + 1), j + 1, s.len() as int);
                    match sskip_value(s, v0, depth) {
                        None => None,
                        Some(ve) => {
                            let ve1 = clamp_idx(ve, v0, s.len() as int);
                            let j2 = clamp_idx(sskip_ws(s, ve1), ve1, s.len() as int);
                            if j2 < s.len() && s[j2] == ASCII_COMMA {
                                let n0 = clamp_idx(sskip_ws(s, j2 + 1), j2 + 1, s.len() as int);
                                sskip_membs(s, n0, depth)
                            } else if j2 < s.len() && s[j2] == ASCII_RBRACE {
                                Some(j2 + 1)
                            } else {
                                None
                            }
                        },
                    }
                } else {
                    None
                }
            },
        }
    } else {
        None
    }
}

/// Skip one complete JSON value at `i`.
#[verifier::rlimit(60)]
pub fn skip_value(s: &[u8], i: usize, depth: u32) -> (r: Option<usize>)
    requires
        i <= s@.len(),
    ensures
        match r {
            Some(e) => sskip_value(s@, i as int, depth as nat) == Some(e as int) && i < e
                <= s@.len(),
            None => sskip_value(s@, i as int, depth as nat) is None,
        },
    decreases s@.len() - i,
{
    if i >= s.len() {
        return None;
    }
    let b = s[i];
    if b == ASCII_QUOTE {
        return str_rest(s, i + 1);
    }
    if b == ASCII_MINUS || (b >= ASCII_ZERO && b <= ASCII_NINE) {
        return match scan_num(s, i) {
            Some(p) => Some(p.1),
            None => None,
        };
    }
    if b == 116 {
        if s.len() - i >= 4 && s[i + 1] == 114 && s[i + 2] == 117 && s[i + 3] == 101 {
            return Some(i + 4);
        } else {
            return None;
        }
    }
    if b == 102 {
        if s.len() - i >= 5 && s[i + 1] == 97 && s[i + 2] == 108 && s[i + 3] == 115 && s[i + 4]
            == 101 {
            return Some(i + 5);
        } else {
            return None;
        }
    }
    if b == 110 {
        if s.len() - i >= 4 && s[i + 1] == 117 && s[i + 2] == 108 && s[i + 3] == 108 {
            return Some(i + 4);
        } else {
            return None;
        }
    }
    if b == ASCII_LBRACKET {
        if depth == 0 {
            return None;
        }
        let first = skip_ws(s, i + 1);
        if first < s.len() && s[first] == ASCII_RBRACKET {
            return Some(first + 1);
        }
        let mut cur: usize = first;
        loop
            invariant
                i < s@.len(),
                i + 1 <= cur <= s@.len(),
                depth >= 1,
                sskip_value(s@, i as int, depth as nat) == sskip_elems(
                    s@,
                    cur as int,
                    (depth - 1) as nat,
                ),
            decreases s@.len() - cur,
        {
            match skip_value(s, cur, depth - 1) {
                None => {
                    return None;
                },
                Some(v) => {
                    let j = skip_ws(s, v);
                    if j < s.len() && s[j] == ASCII_COMMA {
                        let n = skip_ws(s, j + 1);
                        cur = n;
                    } else if j < s.len() && s[j] == ASCII_RBRACKET {
                        return Some(j + 1);
                    } else {
                        return None;
                    }
                },
            }
        }
    }
    if b == ASCII_LBRACE {
        if depth == 0 {
            return None;
        }
        let first = skip_ws(s, i + 1);
        if first < s.len() && s[first] == ASCII_RBRACE {
            return Some(first + 1);
        }
        let mut cur: usize = first;
        loop
            invariant
                i < s@.len(),
                i + 1 <= cur <= s@.len(),
                depth >= 1,
                sskip_value(s@, i as int, depth as nat) == sskip_membs(
                    s@,
                    cur as int,
                    (depth - 1) as nat,
                ),
            decreases s@.len() - cur,
        {
            if !(cur < s.len() && s[cur] == ASCII_QUOTE) {
                return None;
            }
            match str_rest(s, cur + 1) {
                None => {
                    return None;
                },
                Some(ke) => {
                    let j = skip_ws(s, ke);
                    if !(j < s.len() && s[j] == ASCII_COLON) {
                        return None;
                    }
                    let v0 = skip_ws(s, j + 1);
                    match skip_value(s, v0, depth - 1) {
                        None => {
                            return None;
                        },
                        Some(ve) => {
                            let j2 = skip_ws(s, ve);
                            if j2 < s.len() && s[j2] == ASCII_COMMA {
                                let n0 = skip_ws(s, j2 + 1);
                                cur = n0;
                            } else if j2 < s.len() && s[j2] == ASCII_RBRACE {
                                return Some(j2 + 1);
                            } else {
                                return None;
                            }
                        },
                    }
                },
            }
        }
    }
    None
}

} // verus!
