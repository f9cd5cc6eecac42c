//! Exact decimal numbers.
//!
//! Every numeric candle field is held as an exact decimal: a sign, a digit
//! string and a power-of-ten exponent.  A value is kept normalized (no
//! leading or trailing zero digits; zero itself has an empty digit string),
//! so two equal values always have equal representations.  A range policy
//! bounds the magnitude of accepted values, echoing the finiteness invariant
//! of the canonical candle: a value at or above 10^309 cannot be represented,
//! and a nonzero value below 10^-323 collapses to zero.
use vstd::prelude::*;

verus! {

/// ASCII codes used throughout the decimal layer.
pub const ASCII_ZERO: u8 = 48;
pub const ASCII_NINE: u8 = 57;
pub const ASCII_DOT: u8 = 46;
pub const ASCII_MINUS: u8 = 45;

/// Largest admissible decimal-point position: values of magnitude 10^309 or
/// more are out of range.
pub const MAX_POINT: i128 = 309;
/// Smallest admissible decimal-point position: nonzero values of magnitude
/// below 10^-323 collapse to zero.
pub const MIN_POINT: i128 = -323;

/// Mathematical model of a decimal: (-1)^neg * digits * 10^exp, where
/// `digits` is a string of ASCII digits read as one integer.
#[verifier::ext_equal]
pub struct DecModel {
    pub neg: bool,
    pub digits: Seq<u8>,
    pub exp: int,
}

/// An exact decimal number as held at run time.
pub struct Dec {
    pub neg: bool,
    pub digits: Vec<u8>,
    pub exp: i128,
}

impl View for Dec {
    type V = DecModel;

    open spec fn view(&self) -> DecModel {
        DecModel { neg: self.neg, digits: self.digits@, exp: self.exp as int }
    }
}

impl DeepView for Dec {
    type V = DecModel;

    open spec fn deep_view(&self) -> DecModel {
        self.view()
    }
}

pub open spec fn is_digit(b: u8) -> bool {
    ASCII_ZERO <= b <= ASCII_NINE
}

pub open spec fn digits_wf(s: Seq<u8>) -> bool {
    forall|i: int| 0 <= i < s.len() ==> is_digit(#[trigger] s[i])
}

/// The digit string and sign are in canonical shape: all bytes are digits,
/// no leading or trailing zero digit, and the zero value is unsigned with
/// exponent zero.
pub open spec fn dec_canonical(d: DecModel) -> bool {
    &&& digits_wf(d.digits)
    &&& d.digits.len() > 0 ==> d.digits[0] != ASCII_ZERO
    &&& d.digits.len() > 0 ==> d.digits[d.digits.len() - 1] != ASCII_ZERO
    &&& d.digits.len() == 0 ==> !d.neg && d.exp == 0
}

/// Decimal-point position of a nonzero decimal: the magnitude lies in
/// [10^(point-1), 10^point).
pub open spec fn dec_point(d: DecModel) -> int {
    d.digits.len() + d.exp
}

/// Canonical and within the supported magnitude range.
pub open spec fn dec_wf(d: DecModel) -> bool {
    &&& dec_canonical(d)
    &&& d.digits.len() > 0 ==> MIN_POINT <= dec_point(d) <= MAX_POINT
}

pub open spec fn dec_zero() -> DecModel {
    DecModel { neg: false, digits: Seq::empty(), exp: 0 }
}

/// Drop every trailing zero digit.
pub open spec fn trim_trailing(s: Seq<u8>) -> Seq<u8>
    decreases s.len(),
{
    if s.len() > 0 && s[s.len() - 1] == ASCII_ZERO {
        trim_trailing(s.drop_last())
    } else {
        s
    }
}

/// Drop every leading zero digit.
pub open spec fn trim_leading(s: Seq<u8>) -> Seq<u8>
    decreases s.len(),
{
    if s.len() > 0 && s[0] == ASCII_ZERO {
        trim_leading(s.drop_first())
    } else {
        s
    }
}

/// Normalize a raw sign/digits/exponent triple: trailing zeros move into the
/// exponent, leading zeros vanish, and an empty digit string is the canonical
/// zero.
pub open spec fn norm_dec(neg: bool, digits: Seq<u8>, exp: int) -> DecModel {
    let t = trim_trailing(digits);
    let lt = trim_leading(t);
    if lt.len() == 0 {
        dec_zero()
    } else {
        DecModel { neg, digits: lt, exp: exp + (digits.len() - t.len()) }
    }
}

/// Range policy of the JSON number grammar: a value too large to represent
/// is a decode error (`None`); a nonzero value too small collapses to zero.
pub open spec fn json_range_policy(d: DecModel) -> Option<DecModel> {
    if d.digits.len() == 0 {
        Some(d)
    } else if dec_point(d) > MAX_POINT {
        None
    } else if dec_point(d) < MIN_POINT {
        Some(dec_zero())
    } else {
        Some(d)
    }
}

/// Range policy of tolerant field coercion: out-of-range either way becomes
/// zero, so coercion is total.
pub open spec fn coerce_range_policy(d: DecModel) -> DecModel {
    if d.digits.len() == 0 {
        d
    } else if dec_point(d) > MAX_POINT || dec_point(d) < MIN_POINT {
        dec_zero()
    } else {
        d
    }
}

/// The canonical zero value.
pub fn zero_dec() -> (r: Dec)
    ensures
        r@ == dec_zero(),
        dec_wf(r@),
{
    let r = Dec { neg: false, digits: Vec::new(), exp: 0 };
    assert(r@ =~= dec_zero());
    r
}

/// Copy the byte range [a, b) of a slice into a fresh vector.
pub fn copy_range(s: &[u8], a: usize, b: usize) -> (r: Vec<u8>)
    requires
        a <= b <= s@.len(),
    ensures
        r@ == s@.subrange(a as int, b as int),
{
    let mut r: Vec<u8> = Vec::new();
    let mut i: usize = a;
    while i < b
        invariant
            a <= i <= b <= s@.len(),
            r@ == s@.subrange(a as int, i as int),
        decreases b - i,
    {
        r.push(s[i]);
        i = i + 1;
        assert(r@ =~= s@.subrange(a as int, i as int));
    }
    r
}

/// Append the whole of `src` to `dst`.
pub fn push_all(dst: &mut Vec<u8>, src: &Vec<u8>)
    ensures
        final(dst)@ == old(dst)@ + src@,
{
    let mut i: usize = 0;
    while i < src.len()
        invariant
            i <= src@.len(),
            dst@ == old(dst)@ + src@.subrange(0, i as int),
        decreases src@.len() - i,
    {
        dst.push(src[i]);
        i = i + 1;
        assert(dst@ =~= old(dst)@ + src@.subrange(0, i as int));
    }
    assert(dst@ =~= old(dst)@ + src@);
}

/// Append the byte range [a, b) of `src` to `dst`.
pub fn push_range(dst: &mut Vec<u8>, src: &Vec<u8>, a: usize, b: usize)
    requires
        a <= b <= src@.len(),
    ensures
        final(dst)@ == old(dst)@ + src@.subrange(a as int, b as int),
{
    let mut i: usize = a;
    while i < b
        invariant
            a <= i <= b <= src@.len(),
            dst@ == old(dst)@ + src@.subrange(a as int, i as int),
        decreases b - i,
    {
        dst.push(src[i]);
        i = i + 1;
        assert(dst@ =~= old(dst)@ + src@.subrange(a as int, i as int));
    }
}

/// A run of `n` zero digits.
pub open spec fn zeros(n: nat) -> Seq<u8> {
    Seq::new(n, |i: int| ASCII_ZERO)
}

/// Append `n` zero digits to `dst`.
pub fn push_zeros(dst: &mut Vec<u8>, n: usize)
    ensures
        final(dst)@ == old(dst)@ + zeros(n as nat),
{
    let mut i: usize = 0;
    while i < n
        invariant
            i <= n,
            dst@ == old(dst)@ + zeros(i as nat),
        decreases n - i,
    {
        dst.push(ASCII_ZERO);
        i = i + 1;
        assert(dst@ =~= old(dst)@ + zeros(i as nat));
    }
}

/// An exact copy of a decimal.
pub fn dec_dup(d: &Dec) -> (r: Dec)
    ensures
        r@ == d@,
{
    let ds = copy_range(d.digits.as_slice(), 0, d.digits.len());
    assert(ds@ =~= d.digits@);
    Dec { neg: d.neg, digits: ds, exp: d.exp }
}

/// The JSON literal of a decimal: an optional minus sign and an unquoted
/// floating-point literal.  Zero prints as `0.0`; a value with a nonnegative
/// exponent prints its digits, the exponent's zeros and a trailing `.0`; a
/// value with a negative exponent carries the decimal point inside or in
/// front of its digits.
pub open spec fn spec_literal(d: DecModel) -> Seq<u8> {
    if d.digits.len() == 0 {
        seq![ASCII_ZERO, ASCII_DOT, ASCII_ZERO]
    } else {
        let sign: Seq<u8> = if d.neg {
            seq![ASCII_MINUS]
        } else {
            Seq::empty()
        };
        if d.exp >= 0 {
            sign + d.digits + zeros(d.exp as nat) + seq![ASCII_DOT, ASCII_ZERO]
        } else if -d.exp < d.digits.len() {
            sign + d.digits.subrange(0, d.digits.len() + d.exp) + seq![ASCII_DOT]
                + d.digits.subrange(d.digits.len() + d.exp, d.digits.len() as int)
        } else {
            sign + seq![ASCII_ZERO, ASCII_DOT] + zeros((-d.exp - d.digits.len()) as nat) + d.digits
        }
    }
}

/// Render a decimal as its JSON literal.
pub fn literal(d: &Dec) -> (r: Vec<u8>)
    requires
        dec_wf(d@),
    ensures
        r@ == spec_literal(d@),
{
    let mut v: Vec<u8> = Vec::new();
    if d.digits.len() == 0 {
        v.push(ASCII_ZERO);
        v.push(ASCII_DOT);
        v.push(ASCII_ZERO);
        assert(v@ =~= spec_literal(d@));
        return v;
    }
    if d.neg {
        v.push(ASCII_MINUS);
    }
    if d.exp >= 0 {
        push_range(&mut v, &d.digits, 0, d.digits.len());
        let n: usize = d.exp as usize;
        push_zeros(&mut v, n);
        v.push(ASCII_DOT);
        v.push(ASCII_ZERO);
        assert(v@ =~= spec_literal(d@));
        v
    } else {
        let k: i128 = -d.exp;
        if k < d.digits.len() as i128 {
            let m: usize = d.digits.len() - (k as usize);
            push_range(&mut v, &d.digits, 0, m);
            v.push(ASCII_DOT);
            push_range(&mut v, &d.digits, m, d.digits.len());
            assert(v@ =~= spec_literal(d@));
            v
        } else {
            let pad: usize = (k - d.digits.len() as i128) as usize;
            v.push(ASCII_ZERO);
            v.push(ASCII_DOT);
            push_zeros(&mut v, pad);
            push_range(&mut v, &d.digits, 0, d.digits.len());
            assert(d.digits@.subrange(0, d.digits@.len() as int) =~= d.digits@);
            assert(v@ =~= spec_literal(d@));
            v
        }
    }
}

/// Apply the coercion range policy at run time.
pub fn apply_coerce(d: Dec) -> (r: Dec)
    requires
        dec_canonical(d@),
        -0x2_0000_0000_0000_0000_0000 <= d@.exp <= 0x2_0000_0000_0000_0000_0000,
    ensures
        r@ == coerce_range_policy(d@),
        dec_wf(r@),
{
    if d.digits.len() == 0 {
        d
    } else {
        let p: i128 = d.digits.len() as i128 + d.exp;
        if p > MAX_POINT || p < MIN_POINT {
            zero_dec()
        } else {
            d
        }
    }
}

/// Apply the JSON number range policy at run time.
pub fn apply_json(d: Dec) -> (r: Option<Dec>)
    requires
        dec_canonical(d@),
        -0x2_0000_0000_0000_0000_0000 <= d@.exp <= 0x2_0000_0000_0000_0000_0000,
    ensures
        match r {
            Some(v) => json_range_policy(d@) == Some(v@) && dec_wf(v@),
            None => json_range_policy(d@) is None,
        },
{
    if d.digits.len() == 0 {
        Some(d)
    } else {
        let p: i128 = d.digits.len() as i128 + d.exp;
        if p > MAX_POINT {
            None
        } else if p < MIN_POINT {
            Some(zero_dec())
        } else {
            Some(d)
        }
    }
}

/// The decimal digits of `n`, most significant first; empty for zero.
pub open spec fn digits_of(n: nat) -> Seq<u8>
    decreases n,
{
    if n == 0 {
        Seq::empty()
    } else {
        digits_of(n / 10).push((ASCII_ZERO + n % 10) as u8)
    }
}

/// Append the decimal digits of `n` to `acc`.
pub fn push_digits(n: u64, acc: &mut Vec<u8>)
    ensures
        final(acc)@ == old(acc)@ + digits_of(n as nat),
        digits_wf(old(acc)@) ==> digits_wf(final(acc)@),
    decreases n,
{
    if n > 0 {
        push_digits(n / 10, acc);
        acc.push(ASCII_ZERO + (n % 10) as u8);
        assert(acc@ =~= old(acc)@ + digits_of(n as nat));
    } else {
        assert(acc@ =~= old(acc)@ + digits_of(0));
    }
}

/// The decimal carried by a whole number of milliseconds: its exact value,
/// normalized, with the (never reachable for an `i64`) out-of-range case
/// collapsed to zero by the coercion policy.
pub open spec fn spec_dec_from_int(v: int) -> DecModel {
    coerce_range_policy(norm_dec(v < 0, digits_of((if v < 0 { -v } else { v }) as nat), 0))
}

/// An epoch-milliseconds count as an exact decimal.
pub fn dec_from_millis(v: i64) -> (r: Dec)
    ensures
        r@ == spec_dec_from_int(v as int),
        dec_wf(r@),
{
    let n: u64 = if v < 0 {
        (-(v as i128)) as u64
    } else {
        v as u64
    };
    let mut ds: Vec<u8> = Vec::new();
    push_digits(n, &mut ds);
    let d0 = make_dec(v < 0, &ds, 0);
    apply_coerce(d0)
}

/// The integer a digit string denotes, read most significant digit first.
pub open spec fn digits_val(s: Seq<u8>) -> int
    decreases s.len(),
{
    if s.len() == 0 {
        0
    } else {
        digits_val(s.drop_last()) * 10 + (s[s.len() - 1] - ASCII_ZERO)
    }
}

pub open spec fn pow10(e: nat) -> int
    decreases e,
{
    if e == 0 {
        1
    } else {
        10 * pow10((e - 1) as nat)
    }
}

/// The digits of `n` denote `n`.
pub proof fn lemma_digits_of_val(n: nat)
    ensures
        digits_val(digits_of(n)) == n,
    decreases n,
{
    if n > 0 {
        lemma_digits_of_val(n / 10);
        assert(digits_of(n).drop_last() =~= digits_of(n / 10));
    }
}

/// `n` has at most `p` digits when it lies below the `p`-th power of ten.
pub proof fn lemma_digits_of_len(n: nat, p: nat)
    requires
        n < pow10(p),
    ensures
        digits_of(n).len() <= p,
    decreases n,
{
    if n > 0 {
        assert(p > 0);
        assert(pow10(p) == 10 * pow10((p - 1) as nat));
        assert(n / 10 < pow10((p - 1) as nat)) by (nonlinear_arith)
            requires
                n < 10 * pow10((p - 1) as nat),
                n >= 0,
        ;
        lemma_digits_of_len(n / 10, (p - 1) as nat);
    }
}

/// Dropping trailing zero digits scales the denoted integer down by the
/// matching power of ten.
pub proof fn lemma_trim_trailing_val(s: Seq<u8>)
    ensures
        trim_trailing(s).len() <= s.len(),
        digits_val(s) == digits_val(trim_trailing(s)) * pow10(
            (s.len() - trim_trailing(s).len()) as nat,
        ),
    decreases s.len(),
{
    if s.len() > 0 && s[s.len() - 1] == ASCII_ZERO {
        lemma_trim_trailing_val(s.drop_last());
        let t = trim_trailing(s);
        let a = digits_val(t);
        let k = (s.drop_last().len() - t.len()) as nat;
        let p = pow10(k);
        let p1 = pow10((k + 1) as nat);
        assert(p1 == 10 * p);
        assert(a * p1 == (a * p) * 10) by (nonlinear_arith)
            requires
                p1 == 10 * p,
        ;
        assert(digits_val(s) == digits_val(s.drop_last()) * 10);
    } else {
        assert(digits_val(s) == digits_val(s) * 1);
    }
}

/// A digit string denotes its first digit scaled up, plus the rest.
pub proof fn lemma_val_front(s: Seq<u8>)
    requires
        s.len() > 0,
    ensures
        digits_val(s) == (s[0] - ASCII_ZERO) * pow10((s.len() - 1) as nat) + digits_val(
            s.drop_first(),
        ),
    decreases s.len(),
{
    if s.len() == 1 {
        assert(s.drop_last() =~= Seq::<u8>::empty());
        assert(s.drop_first() =~= Seq::<u8>::empty());
    } else {
        lemma_val_front(s.drop_last());
        assert(s.drop_last().drop_first() =~= s.drop_first().drop_last());
        assert(s.drop_first()[s.drop_first().len() - 1] == s[s.len() - 1]);
        let c = (s[0] - ASCII_ZERO) as int;
        let p2 = pow10((s.len() - 2) as nat);
        let p1 = pow10((s.len() - 1) as nat);
        assert(p1 == 10 * p2);
        let rest = digits_val(s.drop_last().drop_first());
        assert((c * p2 + rest) * 10 == c * p1 + rest * 10) by (nonlinear_arith)
            requires
                p1 == 10 * p2,
        ;
        assert(digits_val(s.drop_first()) == rest * 10 + (s[s.len() - 1] - ASCII_ZERO));
    }
}

/// Leading zero digits do not change the denoted integer.
pub proof fn lemma_trim_leading_val(s: Seq<u8>)
    ensures
        trim_leading(s).len() <= s.len(),
        digits_val(trim_leading(s)) == digits_val(s),
    decreases s.len(),
{
    if s.len() > 0 && s[0] == ASCII_ZERO {
        lemma_val_front(s);
        lemma_trim_leading_val(s.drop_first());
    }
}

/// Appended zero digits are exactly what trimming drops.
pub proof fn lemma_trim_trailing_zeros(s: Seq<u8>, k: nat)
    ensures
        trim_trailing(s + zeros(k)) == trim_trailing(s),
    decreases k,
{
    if k > 0 {
        assert((s + zeros(k))[(s.len() + k - 1) as int] == ASCII_ZERO);
        assert((s + zeros(k)).drop_last() =~= s + zeros((k - 1) as nat));
        lemma_trim_trailing_zeros(s, (k - 1) as nat);
    } else {
        assert(s + zeros(0) =~= s);
    }
}

/// Prefixed zero digits are exactly what trimming drops.
pub proof fn lemma_trim_leading_zeros(s: Seq<u8>, k: nat)
    ensures
        trim_leading(zeros(k) + s) == trim_leading(s),
    decreases k,
{
    if k > 0 {
        assert((zeros(k) + s)[0] == ASCII_ZERO);
        assert((zeros(k) + s).drop_first() =~= zeros((k - 1) as nat) + s);
        lemma_trim_leading_zeros(s, (k - 1) as nat);
    } else {
        assert(zeros(0) + s =~= s);
    }
}

/// The decimal built from a whole number of milliseconds denotes exactly
/// that number: its digits scaled by its (nonnegative) exponent give the
/// magnitude, and its sign is the number's.
pub proof fn lemma_dec_from_int_value(v: int)
    requires
        -0x8000_0000_0000_0000 <= v < 0x8000_0000_0000_0000,
    ensures
        spec_dec_from_int(v).exp >= 0,
        digits_val(spec_dec_from_int(v).digits) * pow10(spec_dec_from_int(v).exp as nat) == (if v
            < 0 {
            -v
        } else {
            v
        }),
        spec_dec_from_int(v).neg <==> v < 0,
{
    let n = (if v < 0 {
        -v
    } else {
        v
    }) as nat;
    let ds = digits_of(n);
    let t = trim_trailing(ds);
    let lt = trim_leading(t);
    lemma_digits_of_val(n);
    lemma_trim_trailing_val(ds);
    lemma_trim_leading_val(t);
    assert(pow10(20) == 100000000000000000000) by {
        reveal_with_fuel(pow10, 21);
    }
    lemma_digits_of_len(n, 20);
    let k = (ds.len() - t.len()) as nat;
    let d0 = norm_dec(v < 0, ds, 0);
    if lt.len() == 0 {
        assert(digits_val(lt) == 0);
        assert(digits_val(ds) == 0 * pow10(k));
        assert(n == 0);
    } else {
        assert(d0.digits == lt && d0.exp == k);
        assert(dec_point(d0) <= 20);
        assert(coerce_range_policy(d0) == d0);
    }
}

/// Build the normalized decimal for a raw sign/digits/exponent triple.
pub fn make_dec(neg: bool, digits: &Vec<u8>, exp: i128) -> (r: Dec)
    requires
        digits_wf(digits@),
        -0x1_0000_0000_0000_0000_0000 <= exp <= 0x1_0000_0000_0000_0000_0000,
    ensures
        r@ == norm_dec(neg, digits@, exp as int),
        dec_canonical(r@),
        -0x1_0000_0000_0000_0000_0000 <= r@.exp <= 0x1_0000_0000_0000_0000_0000 + digits@.len(),
{
    let ghost all = digits@;
    assert(all.subrange(0, all.len() as int) =~= all);
    let mut end: usize = digits.len();
    while end > 0 && digits[end - 1] == ASCII_ZERO
        invariant
            end <= all.len(),
            digits@ == all,
            trim_trailing(all) == trim_trailing(all.subrange(0, end as int)),
        decreases end,
    {
        assert(all.subrange(0, end as int).drop_last() =~= all.subrange(0, end as int - 1));
        end = end - 1;
    }
    assert(trim_trailing(all) =~= all.subrange(0, end as int));
    let mut start: usize = 0;
    while start < end && digits[start] == ASCII_ZERO
        invariant
            start <= end <= all.len(),
            digits@ == all,
            trim_trailing(all) == all.subrange(0, end as int),
            trim_leading(trim_trailing(all)) == trim_leading(all.subrange(start as int, end as int)),
        decreases end - start,
    {
        assert(all.subrange(start as int, end as int).drop_first() =~= all.subrange(
            start as int + 1,
            end as int,
        ));
        start = start + 1;
    }
    assert(trim_leading(trim_trailing(all)) =~= all.subrange(start as int, end as int));
    if start == end {
        let r = zero_dec();
        assert(r@ =~= norm_dec(neg, all, exp as int));
        r
    } else {
        let kept = copy_range(digits.as_slice(), start, end);
        let dropped: usize = digits.len() - end;
        let r = Dec { neg, digits: kept, exp: exp + dropped as i128 };
        assert(r@ =~= norm_dec(neg, all, exp as int));
        r
    }
}

} // verus!
