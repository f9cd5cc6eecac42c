//! Crate-wide laws.
//!
//! Each proof function here states a property that relates several parts of
//! the pipeline, over the same specification functions that those parts'
//! own contracts use.
use vstd::prelude::*;

use crate::binance::MultiModel;
use crate::binance::TimestampMode;
use crate::binance::sconvert_types;
use crate::binance::sdecode_binance;
use crate::coinbase::sdecode_coinbase;
use crate::dec::DecModel;
use crate::dec::is_digit;
use crate::okx::sdecode_okx;
use crate::scan::lemma_dig_end_bounds;
use crate::scan::lemma_dig_end_run;
use crate::scan::scoerce;
use crate::scan::scoerce_build;
use crate::scan::sdig_end;
use crate::scan::snum;
use crate::scan::snum_build;
use crate::sclassify;
use crate::smessage_candle;
use crate::stransform;
use crate::CryptoMessageModel;

verus! {

/// Priority determinism: classification always commits to the earliest
/// schema in the fixed order — kline-array, ticker, candle-array — so a
/// payload that could satisfy two adapters is read, reproducibly, by the
/// one earlier in the order.
pub proof fn lemma_priority_order(s: Seq<u8>)
    ensures
        sdecode_binance(s) is Some ==> sclassify(s) == Some(
            CryptoMessageModel::Binance(sdecode_binance(s).unwrap()),
        ),
        sdecode_binance(s) is None && sdecode_coinbase(s) is Some ==> sclassify(s) == Some(
            CryptoMessageModel::Coinbase(sdecode_coinbase(s).unwrap()),
        ),
        sdecode_binance(s) is None && sdecode_coinbase(s) is None && sdecode_okx(s) is Some
            ==> sclassify(s) == Some(CryptoMessageModel::Okx(sdecode_okx(s).unwrap())),
        sdecode_binance(s) is None && sdecode_coinbase(s) is None && sdecode_okx(s) is None
            ==> sclassify(s) is None,
{
}

/// Idempotence: the transform is a pure function of the message bytes and
/// the timestamp choice, so converting the same payload twice yields
/// byte-identical output records.
pub proof fn lemma_transform_deterministic(
    s1: Seq<u8>,
    s2: Seq<u8>,
    m1: TimestampMode,
    m2: TimestampMode,
)
    requires
        s1 == s2,
        m1 == m2,
    ensures
        stransform(s1, m1) == stransform(s2, m2),
{
}

/// A payload matching none of the schemas yields no output record.
pub proof fn lemma_unmatched_dropped(s: Seq<u8>, mode: TimestampMode)
    requires
        sclassify(s) is None,
    ensures
        stransform(s, mode) is None,
{
}

/// A matched payload whose data block is empty, or whose selected row lacks
/// the required minimum of fields, yields no output record.
pub proof fn lemma_empty_block_dropped(s: Seq<u8>, mode: TimestampMode)
    ensures
        match sclassify(s) {
            Some(CryptoMessageModel::Binance(b)) => (b.len() == 0 || b[0].len() < 6)
                ==> stransform(s, mode) is None,
            _ => true,
        },
        match sclassify(s) {
            Some(CryptoMessageModel::Okx(o)) => (o.len() == 0 || o[0].len() < 5) ==> stransform(
                s,
                mode,
            ) is None,
            _ => true,
        },
{
}

/// Coercion symmetry, at the scanner level: a byte string that is exactly a
/// JSON number literal coerces — through the tolerant string path — to the
/// very decimal the JSON number path produces.
pub proof fn lemma_coercion_symmetry(b: Seq<u8>, d: DecModel)
    requires
        snum(b, 0) == Some((d, b.len() as int)),
    ensures
        scoerce(b) == d,
{
    let neg = 0 < b.len() && b[0] == 45;
    let i1: int = if neg {
        1
    } else {
        0
    };
    // a '+' sign is refused by the JSON grammar, so the hypothesis rules it out
    assert(i1 < b.len() && is_digit(b[i1]));
    lemma_dig_end_bounds(b, i1);
    let ie = sdig_end(b, i1);
    lemma_dig_end_bounds(b, i1 + 1);
    assert(i1 < ie <= b.len());
    let has_frac = ie < b.len() && b[ie] == 46;
    let fs: int = if has_frac {
        ie + 1
    } else {
        ie
    };
    let fe: int = if has_frac {
        sdig_end(b, ie + 1)
    } else {
        ie
    };
    if has_frac {
        lemma_dig_end_bounds(b, ie + 1);
    }
    assert(fs <= fe <= b.len());
    let has_exp = fe < b.len() && (b[fe] == 101 || b[fe] == 69);
    if has_exp {
        let es0 = fe + 1;
        let esign = es0 < b.len() && (b[es0] == 45 || b[es0] == 43);
        let eneg = es0 < b.len() && b[es0] == 45;
        let es: int = if esign {
            es0 + 1
        } else {
            es0
        };
        assert(es <= b.len());
        lemma_dig_end_bounds(b, es);
        let ee = sdig_end(b, es);
        assert(snum(b, 0) == snum_build(b, neg, i1, ie, fs, fe, eneg, es, ee));
        assert(ee == b.len());
        assert(scoerce(b) == scoerce_build(b, neg, i1, ie, fs, fe, eneg, es, ee));
        lemma_build_agreement(b, neg, i1, ie, fs, fe, eneg, es, ee, d);
    } else {
        assert(snum(b, 0) == snum_build(b, neg, i1, ie, fs, fe, false, fe, fe));
        assert(fe == b.len());
        assert(scoerce(b) == scoerce_build(b, neg, i1, ie, fs, fe, false, fe, fe));
        lemma_build_agreement(b, neg, i1, ie, fs, fe, false, fe, fe, d);
    }
}

/// Where the JSON range policy admits a value, the tolerant coercion policy
/// yields the same value, so the two assembly paths agree.
proof fn lemma_build_agreement(
    b: Seq<u8>,
    neg: bool,
    i1: int,
    ie: int,
    fs: int,
    fe: int,
    eneg: bool,
    es: int,
    ee: int,
    d: DecModel,
)
    requires
        snum_build(b, neg, i1, ie, fs, fe, eneg, es, ee) == Some((d, ee)),
    ensures
        scoerce_build(b, neg, i1, ie, fs, fe, eneg, es, ee) == d,
{
}

/// Serialization round trip: the JSON literal a candle field prints coerces
/// back to the very same decimal, so a candle re-read from its own record
/// carries the values it was written with.
#[verifier::rlimit(100)]
pub proof fn lemma_literal_round_trip(d: DecModel)
    requires
        crate::dec::dec_wf(d),
    ensures
        scoerce(crate::dec::spec_literal(d)) == d,
{
    let lit = crate::dec::spec_literal(d);
    let n = d.digits.len() as int;
    if n == 0 {
        assert(lit =~= seq![48u8, 46u8, 48u8]);
        lemma_dig_end_run(lit, 0, 1);
        lemma_dig_end_run(lit, 2, 3);
        assert(scoerce(lit) == scoerce_build(lit, false, 0, 1, 2, 3, false, 3, 3));
        let all = lit.subrange(0, 1) + lit.subrange(2, 3);
        assert(all =~= seq![48u8] + crate::dec::zeros(1));
        crate::dec::lemma_trim_trailing_zeros(seq![48u8], 1);
        assert(seq![48u8].drop_last() =~= Seq::<u8>::empty());
        assert(crate::dec::trim_trailing(seq![48u8]) =~= Seq::<u8>::empty()) by {
            reveal_with_fuel(crate::dec::trim_trailing, 3);
        }
        assert(crate::dec::trim_leading(Seq::<u8>::empty()) =~= Seq::<u8>::empty());
        assert(scoerce(lit) == Some(crate::dec::dec_zero()).unwrap());
        assert(d =~= crate::dec::dec_zero());
    } else {
        let sign: Seq<u8> = if d.neg {
            seq![45u8]
        } else {
            Seq::<u8>::empty()
        };
        let off = sign.len() as int;
        if d.exp >= 0 {
            let e = d.exp;
            // sign, digits, e zeros, then ".0"
            assert(lit.len() == off + n + e + 2);
            assert(lit[off + n + e] == 46);
            assert(lit[off + n + e + 1] == 48);
            assert forall|k: int| off <= k < off + n + e implies is_digit(#[trigger] lit[k]) by {
                if k < off + n {
                    assert(lit[k] == d.digits[k - off]);
                } else {
                    assert(lit[k] == 48);
                }
            }
            lemma_dig_end_run(lit, off, off + n + e);
            lemma_dig_end_run(lit, off + n + e + 1, lit.len() as int);
            let ie = off + n + e;
            let fs = ie + 1;
            let fe = lit.len() as int;
            assert(scoerce(lit) == scoerce_build(lit, d.neg, off, ie, fs, fe, false, fe, fe));
            let all = lit.subrange(off, ie) + lit.subrange(fs, fe);
            assert(all =~= d.digits + crate::dec::zeros((e + 1) as nat));
            crate::dec::lemma_trim_trailing_zeros(d.digits, (e + 1) as nat);
            assert(crate::dec::trim_trailing(d.digits) == d.digits);
            assert(crate::dec::trim_leading(d.digits) == d.digits);
            assert(crate::dec::norm_dec(d.neg, all, -1) =~= d);
        } else if -d.exp < n {
            let m = n + d.exp;
            // sign, the digits before the point, '.', the digits after it
            assert(lit.len() == off + n + 1);
            assert(lit[off + m] == 46);
            assert forall|k: int| off <= k < off + m implies is_digit(#[trigger] lit[k]) by {
                assert(lit[k] == d.digits.subrange(0, m)[k - off]);
            }
            assert forall|k: int| off + m + 1 <= k < lit.len() implies is_digit(
                #[trigger] lit[k],
            ) by {
                assert(lit[k] == d.digits.subrange(m, n)[k - off - m - 1]);
            }
            lemma_dig_end_run(lit, off, off + m);
            lemma_dig_end_run(lit, off + m + 1, lit.len() as int);
            let ie = off + m;
            let fs = ie + 1;
            let fe = lit.len() as int;
            assert(scoerce(lit) == scoerce_build(lit, d.neg, off, ie, fs, fe, false, fe, fe));
            let all = lit.subrange(off, ie) + lit.subrange(fs, fe);
            assert(all =~= d.digits);
            assert(crate::dec::trim_trailing(d.digits) == d.digits);
            assert(crate::dec::trim_leading(d.digits) == d.digits);
            assert(crate::dec::norm_dec(d.neg, all, -(n - m)) =~= d);
        } else {
            let pad = -d.exp - n;
            // sign, "0.", the padding zeros, then the digits
            assert(lit.len() == off + 2 + pad + n);
            assert(lit[off] == 48);
            assert(lit[off + 1] == 46);
            assert forall|k: int| off + 2 <= k < lit.len() implies is_digit(
                #[trigger] lit[k],
            ) by {
                if k < off + 2 + pad {
                    assert(lit[k] == 48);
                } else {
                    assert(lit[k] == d.digits[k - off - 2 - pad]);
                }
            }
            lemma_dig_end_run(lit, off, off + 1);
            lemma_dig_end_run(lit, off + 2, lit.len() as int);
            let ie = off + 1;
            let fs = off + 2;
            let fe = lit.len() as int;
            assert(scoerce(lit) == scoerce_build(lit, d.neg, off, ie, fs, fe, false, fe, fe));
            let all = lit.subrange(off, ie) + lit.subrange(fs, fe);
            assert(all =~= crate::dec::zeros((pad + 1) as nat) + d.digits);
            assert(all[all.len() - 1] == d.digits[n - 1]);
            assert(crate::dec::trim_trailing(all) == all);
            crate::dec::lemma_trim_leading_zeros(d.digits, (pad + 1) as nat);
            assert(crate::dec::trim_leading(d.digits) == d.digits);
            assert(crate::dec::norm_dec(d.neg, all, -(pad + n)) =~= d);
        }
        assert(crate::dec::coerce_range_policy(d) == d);
    }
}

/// Coercion symmetry, at the cell level: a scalar field carried as the
/// quoted spelling of a JSON number and the same field carried as the bare
/// number coerce to identical candle values.
pub proof fn lemma_cell_coercion_symmetry(b: Seq<u8>, d: DecModel)
    requires
        snum(b, 0) == Some((d, b.len() as int)),
    ensures
        sconvert_types(MultiModel::Str(b)) == sconvert_types(MultiModel::F64(d)),
{
    lemma_coercion_symmetry(b, d);
}

} // verus!
