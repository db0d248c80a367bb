//! Alphas: the opacity of a shadow, written as a number and scaled to a byte. A number is
//! read as `str::parse::<f32>` reads it (a decimal with an optional exponent, or `inf`,
//! `infinity` or `nan`): its value is rounded to the nearest `f32`, multiplied by 255 in
//! `f32` (rounded once more), rounded half away from zero and saturated to a byte, so
//! that values below 0 give 0, `nan` gives 0 and values from 1 on give 255. Both `f32`
//! roundings are modelled exactly in integers.
use vstd::prelude::*;
use vstd::utf8::encode_utf8;

use crate::ascii::{DIGIT_0, DIGIT_9, DOT, LOWER_E, MINUS, PLUS, UPPER_E};
use crate::minimessage::bytes::{ascii_lower, ascii_same};
use crate::minimessage::values::{
    all_digits, digits_value, lemma_digits_drop_last, lemma_digits_value_prepend, pow10,
};

verus! {

// ---------------------------------------------------------------------------------------
// What an alpha is
// ---------------------------------------------------------------------------------------
/// The index of the first `.` in `s` from `i` on, or the length.
pub open spec fn dot_index(s: Seq<u8>, i: int) -> int
    decreases s.len() - i,
{
    if i >= s.len() {
        s.len() as int
    } else if s[i] == DOT {
        i
    } else {
        dot_index(s, i + 1)
    }
}

/// The index of the first `e` or `E` in `s` from `i` on, or the length.
pub open spec fn exp_index(s: Seq<u8>, i: int) -> int
    decreases s.len() - i,
{
    if i >= s.len() {
        s.len() as int
    } else if s[i] == LOWER_E || s[i] == UPPER_E {
        i
    } else {
        exp_index(s, i + 1)
    }
}

/// A number without its leading `+` or `-`.
pub open spec fn unsigned_part(s: Seq<u8>) -> Seq<u8> {
    if s.len() > 0 && (s[0] == PLUS || s[0] == MINUS) {
        s.drop_first()
    } else {
        s
    }
}

/// The value of an exponent: an optional sign and at least one digit.
pub open spec fn exponent_value(s: Seq<u8>) -> Option<int> {
    let digits = unsigned_part(s);
    if digits.len() == 0 || !all_digits(digits) {
        None
    } else if s[0] == MINUS {
        Some(-(digits_value(digits) as int))
    } else {
        Some(digits_value(digits) as int)
    }
}

/// Two to the power `n`.
pub open spec fn two_to(n: nat) -> nat
    decreases n,
{
    if n == 0 {
        1
    } else {
        2 * two_to((n - 1) as nat)
    }
}

/// An `f32` has 24 significant bits: whole numbers below this bound are all exact.
pub const SIGNIFICAND_LIMIT: u64 = 0x100_0000;

/// Values below 1 are first read at this scale, 2 to the power 34: every value from 2 to
/// the power -10 on, the least that can give an alpha other than 0, then keeps 24
/// significant bits in the whole part.
pub const ALPHA_SCALE: u64 = 0x4_0000_0000;

/// How many low bits of `x` lie beyond its 24 leading ones.
pub open spec fn excess_bits(x: nat) -> nat
    decreases x,
{
    if x < SIGNIFICAND_LIMIT {
        0
    } else {
        1 + excess_bits(x / 2)
    }
}

/// `x` without its low `s` bits, rounded to nearest with ties to even; `sticky` says that
/// something other than zero lies below `x` itself.
pub open spec fn round_even(x: nat, s: nat, sticky: bool) -> nat {
    if s == 0 {
        x
    } else {
        let kept = x / two_to(s);
        let rest = x % two_to(s);
        let half = two_to((s - 1) as nat);
        if rest > half || (rest == half && (sticky || kept % 2 == 1)) {
            kept + 1
        } else {
            kept
        }
    }
}

/// The alpha of a value `v` from 0 on, given as `q`, the whole part of `v` times
/// `ALPHA_SCALE`, and `sticky`, whether that product has a fraction: `v` is rounded to an
/// `f32` (24 significant bits, to nearest, ties to even), multiplied by 255 and rounded
/// to an `f32` again, and that product is rounded half away from zero to a byte. Values
/// below 2 to the power -10 give 0, values from 1 on give 255. In between, the rounded
/// `v` is `round_even(q, s, sticky)` times 2 to the power `s - 34`, the rounded product
/// is `p` times 2 to the power `t + s - 34`, that is `p` over 2 to the power `k`.
pub open spec fn f32_alpha(q: nat, sticky: bool) -> u8 {
    if q < SIGNIFICAND_LIMIT {
        0
    } else if q >= ALPHA_SCALE {
        255
    } else {
        let s = excess_bits(q);
        let y = round_even(q, s, sticky) * 255;
        let t = excess_bits(y);
        let p = round_even(y, t, false);
        let k = (34 - s - t) as nat;
        let r = (p + two_to((k - 1) as nat)) / two_to(k);
        if r > 255 {
            255
        } else {
            r as u8
        }
    }
}

/// The alpha of the fraction `n / d`.
pub open spec fn fraction_alpha(n: nat, d: nat) -> u8 {
    f32_alpha(ALPHA_SCALE as nat * n / d, (ALPHA_SCALE as nat * n) % d != 0)
}

/// The alpha of the value `m` times ten to the power `x`: 0 for 0, 255 from 1 on, and
/// otherwise that of the fraction.
pub open spec fn scaled_alpha(m: nat, x: int) -> u8 {
    if m == 0 {
        0
    } else if x >= 0 || m >= pow10((-x) as nat) {
        255
    } else {
        fraction_alpha(m, pow10((-x) as nat))
    }
}

/// The letters of `inf`.
pub open spec fn inf_letters() -> Seq<u8> {
    seq![105u8, 110u8, 102u8]
}

/// The letters of `infinity`.
pub open spec fn infinity_letters() -> Seq<u8> {
    seq![105u8, 110u8, 102u8, 105u8, 110u8, 105u8, 116u8, 121u8]
}

/// The letters of `nan`.
pub open spec fn nan_letters() -> Seq<u8> {
    seq![110u8, 97u8, 110u8]
}

/// The alpha that a number writes: an optional sign, then `inf`, `infinity` or `nan` in
/// any case, or digits with an optional `.` and at least one digit, then optionally `e`
/// or `E` and an exponent. Below zero it is 0, from 1 on it is 255, `nan` gives 0, and
/// other values give their `scaled_alpha`.
#[verifier::opaque]
pub open spec fn alpha_value(s: Seq<u8>) -> Option<u8> {
    let negative = s.len() > 0 && s[0] == MINUS;
    let body = unsigned_part(s);
    if ascii_same(body, inf_letters()) || ascii_same(body, infinity_letters()) {
        Some(
            if negative {
                0
            } else {
                255
            },
        )
    } else if ascii_same(body, nan_letters()) {
        Some(0)
    } else {
        let q = exp_index(body, 0);
        let mantissa = body.subrange(0, q);
        let k = dot_index(mantissa, 0);
        let whole = mantissa.subrange(0, k);
        let frac = if k < mantissa.len() {
            mantissa.subrange(k + 1, mantissa.len() as int)
        } else {
            Seq::empty()
        };
        let exponent = if q < body.len() {
            exponent_value(body.subrange(q + 1, body.len() as int))
        } else {
            Some(0)
        };
        if !all_digits(whole) || !all_digits(frac) || whole.len() + frac.len() == 0
            || exponent is None {
            None
        } else if negative {
            Some(0)
        } else {
            Some(scaled_alpha(digits_value(whole + frac), exponent.unwrap() - frac.len()))
        }
    }
}

// ---------------------------------------------------------------------------------------
// Digit strings and powers of ten
// ---------------------------------------------------------------------------------------
/// Ten to any power is at least one.
pub proof fn lemma_pow10_positive(n: nat)
    ensures
        pow10(n) >= 1,
    decreases n,
{
    if n > 0 {
        lemma_pow10_positive((n - 1) as nat);
    }
}

/// Powers of ten multiply by adding their exponents.
pub proof fn lemma_pow10_add(a: nat, b: nat)
    ensures
        pow10(a + b) == pow10(a) * pow10(b),
    decreases b,
{
    if b == 0 {
        assert(pow10(0) == 1);
        assert(a + b == a);
    } else {
        lemma_pow10_add(a, (b - 1) as nat);
        assert((a + b - 1) as nat == a + (b - 1) as nat);
        assert(pow10(a + b) == 10 * pow10((a + b - 1) as nat));
        assert(pow10(b) == 10 * pow10((b - 1) as nat));
        let x = pow10(a);
        let y = pow10((b - 1) as nat);
        assert(10 * (x * y) == x * (10 * y)) by (nonlinear_arith);
    }
}

/// Powers of ten grow with their exponent.
pub proof fn lemma_pow10_grows(a: nat, b: nat)
    requires
        a <= b,
    ensures
        pow10(a) <= pow10(b),
    decreases b,
{
    if a < b {
        lemma_pow10_grows(a, (b - 1) as nat);
        lemma_pow10_positive((b - 1) as nat);
    }
}

/// A string of `n` digits is worth less than ten to the power `n`.
pub proof fn lemma_digits_value_bound(s: Seq<u8>)
    requires
        all_digits(s),
    ensures
        digits_value(s) < pow10(s.len()),
    decreases s.len(),
{
    if s.len() > 0 {
        let t = s.drop_last();
        lemma_digits_drop_last(s);
        lemma_digits_value_bound(t);
        assert(pow10(s.len()) == 10 * pow10((s.len() - 1) as nat));
        assert(DIGIT_0 <= s[s.len() - 1] <= DIGIT_9);
    }
}

/// Two digit strings written one after the other: the first counts in units of the
/// second's length.
pub proof fn lemma_digits_concat(a: Seq<u8>, b: Seq<u8>)
    requires
        all_digits(a),
        all_digits(b),
    ensures
        all_digits(a + b),
        digits_value(a + b) == digits_value(a) * pow10(b.len()) + digits_value(b),
    decreases b.len(),
{
    assert forall|i: int| 0 <= i < (a + b).len() implies DIGIT_0 <= #[trigger] (a + b)[i] <= DIGIT_9 by {
        if i < a.len() {
            assert((a + b)[i] == a[i]);
        } else {
            assert((a + b)[i] == b[i - a.len()]);
        }
    }
    if b.len() == 0 {
        assert(a + b =~= a);
        assert(pow10(0) == 1);
        assert(digits_value(b) == 0);
    } else {
        let c = b.drop_last();
        lemma_digits_drop_last(b);
        lemma_digits_concat(a, c);
        assert((a + b).drop_last() =~= a + c);
        assert((a + b).last() == b.last());
        assert(digits_value(a + b) == digits_value((a + b).drop_last()) * 10 + ((a + b).last()
            - DIGIT_0) as nat);
        assert(digits_value(b) == digits_value(c) * 10 + (b.last() - DIGIT_0) as nat);
        assert(pow10(b.len()) == 10 * pow10(c.len()));
        let x = digits_value(a);
        let p = pow10(c.len());
        let y = digits_value(c);
        let l = (b.last() - DIGIT_0) as nat;
        assert((x * p + y) * 10 + l == x * (10 * p) + (y * 10 + l)) by (nonlinear_arith);
    }
}

/// A digit string is worth its first part in units of the rest's length, plus the rest.
pub proof fn lemma_digits_split(s: Seq<u8>, i: int)
    requires
        all_digits(s),
        0 <= i <= s.len(),
    ensures
        all_digits(s.subrange(0, i)),
        all_digits(s.subrange(i, s.len() as int)),
        digits_value(s) == digits_value(s.subrange(0, i)) * pow10((s.len() - i) as nat)
            + digits_value(s.subrange(i, s.len() as int)),
{
    let a = s.subrange(0, i);
    let b = s.subrange(i, s.len() as int);
    assert forall|x: int| 0 <= x < a.len() implies DIGIT_0 <= #[trigger] a[x] <= DIGIT_9 by {
        assert(a[x] == s[x]);
    }
    assert forall|x: int| 0 <= x < b.len() implies DIGIT_0 <= #[trigger] b[x] <= DIGIT_9 by {
        assert(b[x] == s[x + i]);
    }
    lemma_digits_concat(a, b);
    assert(a + b =~= s);
}

/// Some digit of a digit string is not zero exactly where its value is not zero.
proof fn lemma_digits_nonzero(s: Seq<u8>, w: int)
    requires
        all_digits(s),
        0 <= w < s.len(),
        s[w] != DIGIT_0,
    ensures
        digits_value(s) > 0,
    decreases s.len(),
{
    if w < s.len() - 1 {
        lemma_digits_drop_last(s);
        lemma_digits_nonzero(s.drop_last(), w);
    }
}

/// A string of zeros is worth zero.
proof fn lemma_digits_all_zero(s: Seq<u8>)
    requires
        forall|x: int| 0 <= x < s.len() ==> #[trigger] s[x] == DIGIT_0,
    ensures
        digits_value(s) == 0,
    decreases s.len(),
{
    if s.len() > 0 {
        lemma_digits_all_zero(s.drop_last());
    }
}

/// One step of scaling a decimal fraction by `ALPHA_SCALE` from its last digit to its
/// first: the whole part for a digit in front of a fraction is that of the digit's scaled
/// value plus the whole part for the fraction behind it, over ten; and nothing is left
/// over exactly where nothing is left over behind it nor in that division by ten.
pub proof fn lemma_carry_step(d: int, v: int, m: int)
    requires
        0 <= d <= 9,
        0 <= v < m,
        m > 0,
    ensures
        (ALPHA_SCALE * (d * m + v)) / (10 * m) == (ALPHA_SCALE * d + (ALPHA_SCALE * v) / m) / 10,
        ((ALPHA_SCALE * (d * m + v)) % (10 * m) == 0) == ((ALPHA_SCALE * v) % m == 0 && (
        ALPHA_SCALE * d + (ALPHA_SCALE * v) / m) % 10 == 0),
{
    let k = ALPHA_SCALE as int;
    let c = (k * v) / m;
    let r = (k * v) % m;
    assert(k * v == c * m + r && 0 <= r < m) by (nonlinear_arith)
        requires
            m > 0,
            c == (k * v) / m,
            r == (k * v) % m,
    ;
    let a = k * d + c;
    let q = a / 10;
    let t = a % 10;
    assert(a == 10 * q + t && 0 <= t < 10) by (nonlinear_arith)
        requires
            q == a / 10,
            t == a % 10,
    ;
    assert(k * (d * m + v) == (10 * m) * q + (t * m + r)) by (nonlinear_arith)
        requires
            k * v == c * m + r,
            a == k * d + c,
            a == 10 * q + t,
    ;
    assert(0 <= t * m + r < 10 * m) by (nonlinear_arith)
        requires
            0 <= t < 10,
            0 <= r < m,
            m > 0,
    ;
    assert((k * (d * m + v)) / (10 * m) == q && (k * (d * m + v)) % (10 * m) == t * m + r)
        by (nonlinear_arith)
        requires
            k * (d * m + v) == (10 * m) * q + (t * m + r),
            0 <= t * m + r < 10 * m,
            m > 0,
    ;
    assert((t * m + r == 0) == (r == 0 && t == 0)) by (nonlinear_arith)
        requires
            0 <= t,
            0 <= r,
            m > 0,
    ;
}

// ---------------------------------------------------------------------------------------
// The alpha of each form of a positive value
// ---------------------------------------------------------------------------------------
/// A value whose whole part is not zero and whose exponent is not negative is at least 1.
proof fn lemma_alpha_whole(w: Seq<u8>, f: Seq<u8>, e: int)
    requires
        all_digits(w),
        all_digits(f),
        digits_value(w) > 0,
        e >= 0,
    ensures
        scaled_alpha(digits_value(w + f), e - f.len()) == 255,
{
    lemma_digits_concat(w, f);
    let m = digits_value(w + f);
    let p = pow10(f.len());
    assert(m >= p) by (nonlinear_arith)
        requires
            m == digits_value(w) * p + digits_value(f),
            digits_value(w) >= 1,
    ;
    lemma_pow10_positive(f.len());
    if e - f.len() < 0 {
        lemma_pow10_grows((f.len() - e) as nat, f.len());
        assert(m >= pow10((-(e - f.len())) as nat));
    }
}

/// A value with a fraction whose first `e` digits are not all zero is at least 1 when
/// shifted by `e` places.
proof fn lemma_alpha_frac_lead(w: Seq<u8>, f: Seq<u8>, e: int)
    requires
        all_digits(w),
        all_digits(f),
        digits_value(w) == 0,
        0 <= e < f.len(),
        digits_value(f.subrange(0, e)) > 0,
    ensures
        scaled_alpha(digits_value(w + f), e - f.len()) == 255,
{
    lemma_digits_concat(w, f);
    lemma_digits_split(f, e);
    let m = digits_value(w + f);
    let p = pow10((f.len() - e) as nat);
    assert(m >= p) by (nonlinear_arith)
        requires
            m == digits_value(f.subrange(0, e)) * p + digits_value(f.subrange(e, f.len() as int)),
            digits_value(f.subrange(0, e)) >= 1,
    ;
    lemma_pow10_positive((f.len() - e) as nat);
    assert((-(e - f.len())) as nat == (f.len() - e) as nat);
    assert(m >= pow10((-(e - f.len())) as nat));
}

/// A value with a zero whole part and zeros in the first `e` places of its fraction is
/// below 1 when shifted by `e` places, and is the rest of the fraction.
proof fn lemma_alpha_frac_rest(w: Seq<u8>, f: Seq<u8>, e: int)
    requires
        all_digits(w),
        all_digits(f),
        digits_value(w) == 0,
        0 <= e < f.len(),
        digits_value(f.subrange(0, e)) == 0,
        digits_value(w + f) > 0,
    ensures
        scaled_alpha(digits_value(w + f), e - f.len()) == fraction_alpha(
            digits_value(f.subrange(e, f.len() as int)),
            pow10((f.len() - e) as nat),
        ),
{
    lemma_digits_concat(w, f);
    lemma_digits_split(f, e);
    let rest = f.subrange(e, f.len() as int);
    lemma_digits_value_bound(rest);
    assert(digits_value(w + f) == digits_value(rest));
}

/// A value whose whole part has a digit that is not zero before its last `z` digits is at
/// least 1 when shifted right by `z` places.
proof fn lemma_alpha_whole_lead(w: Seq<u8>, f: Seq<u8>, z: int)
    requires
        all_digits(w),
        all_digits(f),
        0 < z < w.len(),
        digits_value(w.subrange(0, w.len() - z)) > 0,
    ensures
        scaled_alpha(digits_value(w + f), -z - f.len()) == 255,
{
    lemma_digits_concat(w, f);
    lemma_digits_split(w, w.len() - z);
    let m = digits_value(w + f);
    let pz = pow10(z as nat);
    let pn = pow10(f.len());
    lemma_pow10_add(z as nat, f.len());
    assert(digits_value(w) >= pz) by (nonlinear_arith)
        requires
            digits_value(w) == digits_value(w.subrange(0, w.len() - z)) * pz + digits_value(
                w.subrange(w.len() - z, w.len() as int),
            ),
            digits_value(w.subrange(0, w.len() - z)) >= 1,
    ;
    assert(m >= pz * pn) by (nonlinear_arith)
        requires
            m == digits_value(w) * pn + digits_value(f),
            digits_value(w) >= pz,
            pn >= 0,
    ;
    assert((-(-z - f.len())) as nat == z as nat + f.len());
    lemma_pow10_positive(z as nat + f.len());
    assert(m >= pow10((-(-z - f.len())) as nat));
}

/// A value whose whole part is zero before its last `z` digits, shifted right by `z`
/// places, is below 1, and is those digits followed by the fraction.
proof fn lemma_alpha_whole_rest(w: Seq<u8>, f: Seq<u8>, z: int)
    requires
        all_digits(w),
        all_digits(f),
        0 < z < w.len(),
        digits_value(w.subrange(0, w.len() - z)) == 0,
        digits_value(w + f) > 0,
    ensures
        scaled_alpha(digits_value(w + f), -z - f.len()) == fraction_alpha(
            digits_value(w.subrange(w.len() - z, w.len() as int) + f),
            pow10((z + f.len()) as nat),
        ),
{
    let tail = w.subrange(w.len() - z, w.len() as int);
    lemma_digits_concat(w, f);
    lemma_digits_split(w, w.len() - z);
    lemma_digits_concat(tail, f);
    assert(digits_value(w) == digits_value(tail));
    assert(digits_value(w + f) == digits_value(tail + f));
    lemma_digits_value_bound(tail + f);
    assert((tail + f).len() == z + f.len());
    assert((-(-z - f.len())) as nat == (z + f.len()) as nat);
}

/// A value shifted right by at least the length of its whole part: its alpha from the
/// scaled whole part `carry` of its digits, and whether that left something over, shifted
/// further by the rest of the places. From eleven places on nothing of it is left.
proof fn lemma_alpha_shifted(w: Seq<u8>, f: Seq<u8>, z: int, carry: int, sticky: bool)
    requires
        all_digits(w),
        all_digits(f),
        z >= w.len(),
        z > 0,
        digits_value(w + f) > 0,
        carry == (ALPHA_SCALE as nat * digits_value(w + f)) / pow10(w.len() + f.len()),
        sticky == ((ALPHA_SCALE as nat * digits_value(w + f)) % pow10(w.len() + f.len()) != 0),
        0 <= carry < ALPHA_SCALE,
    ensures
        z - w.len() >= 11 ==> scaled_alpha(digits_value(w + f), -z - f.len()) == 0,
        z - w.len() < 11 ==> scaled_alpha(digits_value(w + f), -z - f.len()) == f32_alpha(
            (carry / pow10((z - w.len()) as nat) as int) as nat,
            sticky || carry % pow10((z - w.len()) as nat) as int != 0,
        ),
{
    lemma_digits_concat(w, f);
    let m = digits_value(w + f);
    let pad = (z - w.len()) as nat;
    let inner = pow10(w.len() + f.len());
    lemma_digits_value_bound(w + f);
    lemma_pow10_positive(pad);
    lemma_pow10_positive(w.len() + f.len());
    lemma_pow10_add(w.len() + f.len(), pad);
    assert((-(-z - f.len())) as nat == (w.len() + f.len()) + pad);
    let total = pow10((w.len() + f.len()) + pad);
    assert(total == inner * pow10(pad));
    assert(m < total) by (nonlinear_arith)
        requires
            m < inner,
            total == inner * pow10(pad),
            pow10(pad) >= 1,
    ;
    let x = ALPHA_SCALE as nat * m;
    vstd::arithmetic::div_mod::lemma_div_denominator(x as int, inner as int, pow10(pad) as int);
    vstd::arithmetic::div_mod::lemma_mod_breakdown(x as int, inner as int, pow10(pad) as int);
    assert((x % total == 0) == (x % inner == 0 && carry % pow10(pad) as int == 0)) by (nonlinear_arith)
        requires
            x % total == inner * (carry % pow10(pad) as int) + x % inner,
            inner > 0,
            carry % pow10(pad) as int >= 0,
            x % inner >= 0,
    ;
    if pad >= 11 {
        lemma_pow10_grows(11, pad);
        assert(pow10(11) == 100_000_000_000) by {
            reveal_with_fuel(pow10, 12);
        }
        assert(carry / pow10(pad) as int == 0) by (nonlinear_arith)
            requires
                0 <= carry < ALPHA_SCALE,
                pow10(pad) >= 100_000_000_000,
        ;
    }
}

// ---------------------------------------------------------------------------------------
// Reading an alpha
// ---------------------------------------------------------------------------------------
/// Exponents are read up to this size: every larger exponent gives the same alpha.
pub const EXPONENT_CAP: u128 = 1_000_000_000_000_000_000_000_000;

/// An exponent's size, read up to the cap.
pub open spec fn capped(v: nat) -> nat {
    if v < EXPONENT_CAP {
        v
    } else {
        EXPONENT_CAP as nat
    }
}

/// Whether the bytes `from..to` are all digits and, if so, whether they are worth more
/// than zero.
fn scan_digits(bytes: &[u8], from: usize, to: usize) -> (r: (bool, bool))
    requires
        from <= to <= bytes@.len(),
    ensures
        r.0 == all_digits(bytes@.subrange(from as int, to as int)),
        r.0 ==> (r.1 == (digits_value(bytes@.subrange(from as int, to as int)) > 0)),
{
    let ghost part = bytes@.subrange(from as int, to as int);
    let mut nonzero = false;
    let mut i = from;
    while i < to
        invariant
            from <= i <= to <= bytes@.len(),
            part == bytes@.subrange(from as int, to as int),
            forall|j: int| from <= j < i ==> DIGIT_0 <= #[trigger] bytes@[j] <= DIGIT_9,
            nonzero <==> exists|j: int| from <= j < i && #[trigger] bytes@[j] != DIGIT_0,
        decreases to - i,
    {
        if bytes[i] < DIGIT_0 || bytes[i] > DIGIT_9 {
            proof {
                assert(part[i - from] == bytes@[i as int]);
            }
            return (false, false);
        }
        if bytes[i] != DIGIT_0 {
            nonzero = true;
        }
        i = i + 1;
    }
    proof {
        assert forall|x: int| 0 <= x < part.len() implies DIGIT_0 <= #[trigger] part[x] <= DIGIT_9 by {
            assert(part[x] == bytes@[x + from]);
        }
        if nonzero {
            let w = choose|w: int| from <= w < to && #[trigger] bytes@[w] != DIGIT_0;
            assert(part[w - from] == bytes@[w]);
            lemma_digits_nonzero(part, w - from);
        } else {
            assert forall|x: int| 0 <= x < part.len() implies #[trigger] part[x] == DIGIT_0 by {
                assert(part[x] == bytes@[x + from]);
            }
            lemma_digits_all_zero(part);
        }
    }
    (true, nonzero)
}

/// The first `.` in `from..to`, or `to`.
fn find_dot(bytes: &[u8], from: usize, to: usize) -> (k: usize)
    requires
        from <= to <= bytes@.len(),
    ensures
        from <= k <= to,
        k - from == dot_index(bytes@.subrange(from as int, to as int), 0),
{
    let ghost part = bytes@.subrange(from as int, to as int);
    let mut k = from;
    while k < to && bytes[k] != DOT
        invariant
            from <= k <= to <= bytes@.len(),
            part == bytes@.subrange(from as int, to as int),
            dot_index(part, 0) == dot_index(part, k - from),
        decreases to - k,
    {
        proof {
            assert(part[k - from] == bytes@[k as int]);
        }
        k = k + 1;
    }
    proof {
        if k < to {
            assert(part[k - from] == bytes@[k as int]);
        }
    }
    k
}

/// The first `e` or `E` from `from` on, or the end.
fn find_exp(bytes: &[u8], from: usize) -> (q: usize)
    requires
        from <= bytes@.len(),
    ensures
        from <= q <= bytes@.len(),
        q - from == exp_index(bytes@.subrange(from as int, bytes@.len() as int), 0),
{
    let ghost part = bytes@.subrange(from as int, bytes@.len() as int);
    let mut q = from;
    while q < bytes.len() && bytes[q] != LOWER_E && bytes[q] != UPPER_E
        invariant
            from <= q <= bytes@.len(),
            part == bytes@.subrange(from as int, bytes@.len() as int),
            exp_index(part, 0) == exp_index(part, q - from),
        decreases bytes@.len() - q,
    {
        proof {
            assert(part[q - from] == bytes@[q as int]);
        }
        q = q + 1;
    }
    proof {
        if q < bytes@.len() {
            assert(part[q - from] == bytes@[q as int]);
        }
    }
    q
}

/// Whether the bytes from `from` on spell `letters` in any case.
fn spells(bytes: &[u8], from: usize, letters: &[u8]) -> (r: bool)
    requires
        from <= bytes@.len(),
    ensures
        r == ascii_same(bytes@.subrange(from as int, bytes@.len() as int), letters@),
{
    let ghost part = bytes@.subrange(from as int, bytes@.len() as int);
    if bytes.len() - from != letters.len() {
        return false;
    }
    let n = bytes.len();
    let mut i: usize = 0;
    while i < letters.len()
        invariant
            n == bytes@.len(),
            part == bytes@.subrange(from as int, bytes@.len() as int),
            from <= bytes@.len(),
            bytes@.len() - from == letters@.len(),
            part.len() == letters@.len(),
            i <= letters@.len(),
            forall|j: int| 0 <= j < i ==> ascii_lower(#[trigger] part[j]) == ascii_lower(letters@[j]),
        decreases letters@.len() - i,
    {
        assert(from + i < bytes@.len());
        let a = bytes[from + i];
        let b = letters[i];
        assert(part[i as int] == a);
        let la = if 65 <= a && a <= 90 {
            a + 32
        } else {
            a
        };
        let lb = if 65 <= b && b <= 90 {
            b + 32
        } else {
            b
        };
        if la != lb {
            return false;
        }
        i = i + 1;
    }
    true
}

/// Reads an exponent from `from` on: whether it is written with `-`, and its size up to
/// the cap; `None` where it is no exponent.
#[verifier::spinoff_prover]
#[verifier::rlimit(30)]
fn read_exponent(bytes: &[u8], from: usize) -> (r: Option<(bool, u128)>)
    requires
        from <= bytes@.len(),
    ensures
        ({
            let x = bytes@.subrange(from as int, bytes@.len() as int);
            match r {
                None => exponent_value(x) is None,
                Some((negative, size)) => {
                    &&& exponent_value(x) == Some(
                        if negative {
                            -(digits_value(unsigned_part(x)) as int)
                        } else {
                            digits_value(unsigned_part(x)) as int
                        },
                    )
                    &&& size as int == capped(digits_value(unsigned_part(x)))
                },
            }
        }),
{
    let ghost x = bytes@.subrange(from as int, bytes@.len() as int);
    let len = bytes.len();
    let signed = from < len && (bytes[from] == PLUS || bytes[from] == MINUS);
    let negative = from < len && bytes[from] == MINUS;
    let ds = if signed {
        from + 1
    } else {
        from
    };
    let ghost digits = bytes@.subrange(ds as int, len as int);
    proof {
        if from < len {
            assert(x[0] == bytes@[from as int]);
        }
        if signed {
            assert(x[0] == bytes@[from as int]);
            assert(digits =~= x.drop_first());
        } else {
            if from < len {
                assert(x[0] == bytes@[from as int]);
            }
            assert(digits =~= x);
        }
        assert(unsigned_part(x) == digits);
    }
    if ds == len {
        return None;
    }
    let mut size: u128 = 0;
    let mut i = ds;
    proof {
        assert(bytes@.subrange(ds as int, ds as int) =~= Seq::<u8>::empty());
    }
    while i < len
        invariant
            ds <= i <= len,
            ds < len,
            len == bytes@.len(),
            x == bytes@.subrange(from as int, len as int),
            unsigned_part(x) == digits,
            negative == (x.len() > 0 && x[0] == MINUS),
            digits == bytes@.subrange(ds as int, len as int),
            all_digits(bytes@.subrange(ds as int, i as int)),
            size as int == capped(digits_value(bytes@.subrange(ds as int, i as int))),
        decreases len - i,
    {
        let c = bytes[i];
        if c < DIGIT_0 || c > DIGIT_9 {
            proof {
                assert(digits[i - ds] == c);
            }
            return None;
        }
        let ghost before = bytes@.subrange(ds as int, i as int);
        let ghost after = bytes@.subrange(ds as int, i + 1);
        proof {
            assert(after.drop_last() =~= before);
            assert(after.last() == c);
            assert(all_digits(after)) by {
                assert forall|y: int| 0 <= y < after.len() implies DIGIT_0 <= #[trigger] after[y]
                    <= DIGIT_9 by {
                    if y < before.len() {
                        assert(after[y] == before[y]);
                    }
                }
            }
            assert(digits_value(after) == digits_value(before) * 10 + (c - DIGIT_0) as nat);
        }
        let grown = size * 10 + (c - DIGIT_0) as u128;
        size = if grown > EXPONENT_CAP {
            EXPONENT_CAP
        } else {
            grown
        };
        proof {
            let v = digits_value(before);
            let d = (c - DIGIT_0) as nat;
            assert(size as int == capped(v * 10 + d)) by (nonlinear_arith)
                requires
                    v >= EXPONENT_CAP ==> (v * 10 + d >= EXPONENT_CAP),
                    grown == (if v < EXPONENT_CAP {
                        v
                    } else {
                        EXPONENT_CAP as nat
                    }) * 10 + d,
                    size == (if grown > EXPONENT_CAP {
                        EXPONENT_CAP as int
                    } else {
                        grown as int
                    }),
                    d <= 9,
            ;
        }
        i = i + 1;
    }
    proof {
        assert(bytes@.subrange(ds as int, i as int) =~= digits);
    }
    Some((negative, size))
}

/// The whole part of `ALPHA_SCALE` times the fraction written by the digits `from..to`
/// followed by `tail`, and whether that product has a fraction, given the same of `tail`;
/// computed from the last digit to the first.
#[verifier::spinoff_prover]
#[verifier::rlimit(30)]
fn carry_over(
    bytes: &[u8],
    from: usize,
    to: usize,
    incoming: u64,
    incoming_sticky: bool,
    Ghost(tail): Ghost<Seq<u8>>,
) -> (r: (u64, bool))
    requires
        from <= to <= bytes@.len(),
        all_digits(bytes@.subrange(from as int, to as int)),
        all_digits(tail),
        incoming as int == (ALPHA_SCALE as nat * digits_value(tail)) / pow10(tail.len()),
        incoming_sticky == ((ALPHA_SCALE as nat * digits_value(tail)) % pow10(tail.len()) != 0),
        incoming < ALPHA_SCALE,
    ensures
        r.0 as int == (ALPHA_SCALE as nat * digits_value(bytes@.subrange(from as int, to as int) + tail))
            / pow10(((to - from) + tail.len()) as nat),
        r.1 == ((ALPHA_SCALE as nat * digits_value(bytes@.subrange(from as int, to as int) + tail))
            % pow10(((to - from) + tail.len()) as nat) != 0),
        r.0 < ALPHA_SCALE,
{
    let ghost seg = bytes@.subrange(from as int, to as int);
    let mut carry = incoming;
    let mut sticky = incoming_sticky;
    let mut p = to;
    proof {
        assert(seg.subrange(seg.len() as int, seg.len() as int) + tail =~= tail);
    }
    while p > from
        invariant
            from <= p <= to <= bytes@.len(),
            seg == bytes@.subrange(from as int, to as int),
            all_digits(seg),
            all_digits(tail),
            carry as int == (ALPHA_SCALE as nat * digits_value(seg.subrange(p - from, seg.len() as int)
                + tail)) / pow10(((to - p) + tail.len()) as nat),
            sticky == ((ALPHA_SCALE as nat * digits_value(seg.subrange(p - from, seg.len() as int) + tail))
                % pow10(((to - p) + tail.len()) as nat) != 0),
            carry < ALPHA_SCALE,
        decreases p,
    {
        p = p - 1;
        proof {
            assert(seg[p - from] == bytes@[p as int]);
        }
        let d = (bytes[p] - DIGIT_0) as u64;
        proof {
            let suffix = seg.subrange(p - from, seg.len() as int) + tail;
            let rest = seg.subrange(p + 1 - from, seg.len() as int) + tail;
            assert(suffix.drop_first() =~= rest);
            assert(suffix[0] == bytes@[p as int]);
            lemma_digits_split(seg, p - from);
            lemma_digits_split(seg, p + 1 - from);
            lemma_digits_concat(seg.subrange(p - from, seg.len() as int), tail);
            lemma_digits_concat(seg.subrange(p + 1 - from, seg.len() as int), tail);
            lemma_digits_value_prepend(suffix);
            lemma_digits_value_bound(rest);
            let m = pow10(rest.len());
            assert(pow10(suffix.len()) == 10 * m);
            assert(suffix.len() == (to - p) + tail.len());
            lemma_carry_step(d as int, digits_value(rest) as int, m as int);
        }
        let scaled = ALPHA_SCALE * d + carry;
        sticky = sticky || scaled % 10 != 0;
        carry = scaled / 10;
    }
    proof {
        assert(seg.subrange(0, seg.len() as int) =~= seg);
    }
    (carry, sticky)
}

/// Two to any power is at least one, and grows with the power.
proof fn lemma_two_to_grows(a: nat, b: nat)
    requires
        a <= b,
    ensures
        1 <= two_to(a) <= two_to(b),
    decreases b,
{
    if b > 0 {
        if a < b {
            lemma_two_to_grows(a, (b - 1) as nat);
        } else {
            lemma_two_to_grows((a - 1) as nat, (b - 1) as nat);
        }
    }
}

/// Two to the power 33.
proof fn lemma_two_to_33()
    ensures
        two_to(33) == 0x2_0000_0000,
{
    reveal_with_fuel(two_to, 34);
}

/// `x` rounded to 24 significant bits: the bits dropped, their count and the rounded
/// significand, to nearest with ties to even; `sticky` says that something other than
/// zero lies below `x` itself.
#[verifier::spinoff_prover]
#[verifier::rlimit(30)]
fn round_significand(x: u64, sticky: bool) -> (r: (u64, u32, u64))
    requires
        x < 0x100_0000_0000,
    ensures
        r.1 as nat == excess_bits(x as nat),
        r.1 <= 16,
        r.0 as nat == two_to(r.1 as nat),
        r.2 as nat == round_even(x as nat, r.1 as nat, sticky),
        r.2 <= SIGNIFICAND_LIMIT,
{
    let mut kept = x;
    let mut s: u32 = 0;
    let mut unit: u64 = 1;
    while kept >= SIGNIFICAND_LIMIT
        invariant
            x < 0x100_0000_0000,
            unit as nat == two_to(s as nat),
            s <= 16,
            unit >= 1,
            kept as nat == x as nat / unit as nat,
            excess_bits(x as nat) == s + excess_bits(kept as nat),
        decreases kept,
    {
        proof {
            assert(unit * SIGNIFICAND_LIMIT <= x) by (nonlinear_arith)
                requires
                    kept == x as nat / unit as nat,
                    kept >= SIGNIFICAND_LIMIT,
                    unit >= 1,
            ;
            if s >= 16 {
                lemma_two_to_grows(16, s as nat);
                assert(two_to(16) == 0x1_0000) by {
                    reveal_with_fuel(two_to, 17);
                }
            }
            vstd::arithmetic::div_mod::lemma_div_denominator(x as int, unit as int, 2);
        }
        kept = kept / 2;
        s = s + 1;
        unit = unit * 2;
    }
    if s == 0 {
        return (unit, s, kept);
    }
    let rest = x % unit;
    let half = unit / 2;
    proof {
        assert(two_to(s as nat) == 2 * two_to((s - 1) as nat));
    }
    let rounded = if rest > half || (rest == half && (sticky || kept % 2 == 1)) {
        kept + 1
    } else {
        kept
    };
    (unit, s, rounded)
}

/// The alpha of a value from 0 on, given as its whole part `q` at `ALPHA_SCALE` and
/// whether a fraction was left; see `f32_alpha`.
#[verifier::spinoff_prover]
#[verifier::rlimit(30)]
fn round_alpha(q: u64, sticky: bool) -> (r: u8)
    requires
        q < ALPHA_SCALE,
    ensures
        r == f32_alpha(q as nat, sticky),
{
    if q < SIGNIFICAND_LIMIT {
        return 0;
    }
    let (_, s, m) = round_significand(q, sticky);
    let y = m * 255;
    let (_, t, p) = round_significand(y, false);
    let k = 34 - s - t;
    let mut unit: u64 = 1;
    let mut i: u32 = 0;
    proof {
        lemma_two_to_33();
    }
    while i < k
        invariant
            1 <= k <= 34,
            i <= k,
            unit as nat == two_to(i as nat),
            two_to(33) == 0x2_0000_0000,
        decreases k - i,
    {
        proof {
            lemma_two_to_grows(i as nat, 33);
        }
        unit = unit * 2;
        i = i + 1;
    }
    let ghost sn = excess_bits(q as nat);
    let ghost tn = excess_bits(y as nat);
    proof {
        assert(two_to(k as nat) == 2 * two_to((k - 1) as nat));
        lemma_two_to_grows(0, k as nat);
        assert(sn == s as nat && tn == t as nat);
        assert((34 - sn - tn) as nat == k as nat);
        assert(y as nat == round_even(q as nat, sn, sticky) * 255);
    }
    let r = (p + unit / 2) / unit;
    if r > 255 {
        255
    } else {
        r as u8
    }
}

/// The alpha of the value written by the digits `start..k` as whole part and `fs..q` as
/// fraction, shifted by an exponent written with `negative` and of the given size; the
/// exponent's size is known up to the cap.
#[verifier::spinoff_prover]
#[verifier::rlimit(30)]
fn alpha_of_digits(
    bytes: &[u8],
    start: usize,
    k: usize,
    fs: usize,
    q: usize,
    negative: bool,
    size: u128,
    Ghost(esize): Ghost<nat>,
) -> (r: u8)
    requires
        start <= k <= fs <= q <= bytes@.len(),
        all_digits(bytes@.subrange(start as int, k as int)),
        all_digits(bytes@.subrange(fs as int, q as int)),
        size as int == capped(esize),
    ensures
        r == scaled_alpha(
            digits_value(bytes@.subrange(start as int, k as int) + bytes@.subrange(fs as int, q as int)),
            (if negative {
                -(esize as int)
            } else {
                esize as int
            }) - (q - fs),
        ),
{
    let ghost b = bytes@;
    let ghost whole = b.subrange(start as int, k as int);
    let ghost frac = b.subrange(fs as int, q as int);
    let ghost e: int = if negative {
        -(esize as int)
    } else {
        esize as int
    };
    let (_, whole_nz) = scan_digits(bytes, start, k);
    let (_, frac_nz) = scan_digits(bytes, fs, q);
    proof {
        lemma_digits_concat(whole, frac);
    }
    if !whole_nz && !frac_nz {
        proof {
            let p = pow10(frac.len());
            assert(digits_value(whole) * p + digits_value(frac) == 0) by (nonlinear_arith)
                requires
                    digits_value(whole) == 0,
                    digits_value(frac) == 0,
            ;
        }
        return 0;
    }
    let n = q - fs;
    let wl = k - start;
    proof {
        lemma_pow10_positive(frac.len());
        let p = pow10(frac.len());
        assert(digits_value(whole) * p + digits_value(frac) > 0) by (nonlinear_arith)
            requires
                digits_value(whole) > 0 || digits_value(frac) > 0,
                p >= 1,
        ;
        assert(digits_value(Seq::<u8>::empty()) == 0);
        assert(pow10(0) == 1);
        assert(frac + Seq::<u8>::empty() =~= frac);
    }
    if !negative || size == 0 {
        if whole_nz {
            proof {
                lemma_alpha_whole(whole, frac, e);
            }
            return 255;
        }
        if size >= n as u128 {
            return 255;
        }
        let t = fs + size as usize;
        let (_, lead_nz) = scan_digits(bytes, fs, t);
        proof {
            assert(frac.subrange(0, e) =~= b.subrange(fs as int, t as int));
            assert(frac.subrange(e, frac.len() as int) =~= b.subrange(t as int, q as int));
            lemma_digits_split(frac, e);
        }
        if lead_nz {
            proof {
                lemma_alpha_frac_lead(whole, frac, e);
            }
            return 255;
        }
        let (c, st) = carry_over(bytes, t, q, 0, false, Ghost(Seq::empty()));
        proof {
            assert(b.subrange(t as int, q as int) + Seq::<u8>::empty() =~= frac.subrange(
                e,
                frac.len() as int,
            ));
            lemma_alpha_frac_rest(whole, frac, e);
        }
        round_alpha(c, st)
    } else if (wl as u128) > size {
        let z = size as usize;
        let cut = k - z;
        let (_, lead_nz) = scan_digits(bytes, start, cut);
        proof {
            assert(whole.subrange(0, wl - z) =~= b.subrange(start as int, cut as int));
            lemma_digits_split(whole, wl - z);
        }
        if lead_nz {
            proof {
                lemma_alpha_whole_lead(whole, frac, z as int);
            }
            return 255;
        }
        let (c1, st1) = carry_over(bytes, fs, q, 0, false, Ghost(Seq::empty()));
        proof {
            assert(b.subrange(cut as int, k as int) =~= whole.subrange(wl - z, wl as int));
        }
        let (c2, st2) = carry_over(bytes, cut, k, c1, st1, Ghost(frac));
        proof {
            lemma_alpha_whole_rest(whole, frac, z as int);
        }
        round_alpha(c2, st2)
    } else {
        let (c1, st1) = carry_over(bytes, fs, q, 0, false, Ghost(Seq::empty()));
        let (c2, st2) = carry_over(bytes, start, k, c1, st1, Ghost(frac));
        let pad = size - wl as u128;
        proof {
            lemma_alpha_shifted(whole, frac, esize as int, c2 as int, st2);
        }
        if pad >= 11 {
            return 0;
        }
        let mut unit: u64 = 1;
        let mut i: u128 = 0;
        while i < pad
            invariant
                pad < 11,
                i <= pad,
                unit as nat == pow10(i as nat),
            decreases pad - i,
        {
            proof {
                lemma_pow10_grows(i as nat, 10);
                assert(pow10(10) == 10_000_000_000) by {
                    reveal_with_fuel(pow10, 11);
                }
            }
            unit = unit * 10;
            i = i + 1;
        }
        proof {
            lemma_pow10_positive(pad as nat);
        }
        round_alpha(c2 / unit, st2 || c2 % unit != 0)
    }
}

/// The parts of an alpha, cut where its sign, `e` and `.` are.
proof fn lemma_alpha_parts(b: Seq<u8>, start: int, q: int, k: int)
    requires
        start == (if b.len() > 0 && (b[0] == PLUS || b[0] == MINUS) {
            1int
        } else {
            0int
        }),
        start <= k <= q <= b.len(),
        q - start == exp_index(b.subrange(start, b.len() as int), 0),
        k - start == dot_index(b.subrange(start, q), 0),
    ensures
        ({
            let body = b.subrange(start, b.len() as int);
            let negative = b.len() > 0 && b[0] == MINUS;
            let fs = if k < q {
                k + 1
            } else {
                q
            };
            let whole = b.subrange(start, k);
            let frac = b.subrange(fs, q);
            let exponent = if q < b.len() {
                exponent_value(b.subrange(q + 1, b.len() as int))
            } else {
                Some(0int)
            };
            alpha_value(b) == if ascii_same(body, inf_letters()) || ascii_same(
                body,
                infinity_letters(),
            ) {
                Some(
                    if negative {
                        0u8
                    } else {
                        255u8
                    },
                )
            } else if ascii_same(body, nan_letters()) {
                Some(0u8)
            } else if !all_digits(whole) || !all_digits(frac) || whole.len() + frac.len() == 0
                || exponent is None {
                None
            } else if negative {
                Some(0u8)
            } else {
                Some(scaled_alpha(digits_value(whole + frac), exponent.unwrap() - frac.len()))
            }
        }),
{
    reveal(alpha_value);
    let body = b.subrange(start, b.len() as int);
    if start == 1 {
        assert(body =~= b.drop_first());
    } else {
        assert(body =~= b);
    }
    let mantissa = body.subrange(0, q - start);
    assert(mantissa =~= b.subrange(start, q));
    let fs = if k < q {
        k + 1
    } else {
        q
    };
    assert(mantissa.subrange(0, k - start) =~= b.subrange(start, k));
    if k < q {
        assert(mantissa.subrange(k - start + 1, mantissa.len() as int) =~= b.subrange(fs, q));
    } else {
        assert(b.subrange(fs, q) =~= Seq::<u8>::empty());
    }
    if q < b.len() {
        assert(body.subrange(q - start + 1, body.len() as int) =~= b.subrange(q + 1, b.len() as int));
    }
}

/// Reads an alpha; see `alpha_value`.
#[verifier::spinoff_prover]
#[verifier::rlimit(30)]
pub fn parse_alpha(s: &str) -> (r: Option<u8>)
    ensures
        r == alpha_value(encode_utf8(s@)),
{
    let bytes = s.as_bytes();
    let ghost b = bytes@;
    let len = bytes.len();
    let negative = len > 0 && bytes[0] == MINUS;
    let start: usize = if len > 0 && (bytes[0] == PLUS || bytes[0] == MINUS) {
        1
    } else {
        0
    };
    let q = find_exp(bytes, start);
    let k = find_dot(bytes, start, q);
    let fs = if k < q {
        k + 1
    } else {
        q
    };
    proof {
        lemma_alpha_parts(b, start as int, q as int, k as int);
    }
    let inf: Vec<u8> = vec![105u8, 110u8, 102u8];
    let infinity: Vec<u8> = vec![105u8, 110u8, 102u8, 105u8, 110u8, 105u8, 116u8, 121u8];
    let nan: Vec<u8> = vec![110u8, 97u8, 110u8];
    proof {
        assert(inf@ =~= inf_letters());
        assert(infinity@ =~= infinity_letters());
        assert(nan@ =~= nan_letters());
    }
    if spells(bytes, start, inf.as_slice()) || spells(bytes, start, infinity.as_slice()) {
        return Some(
            if negative {
                0
            } else {
                255
            },
        );
    }
    if spells(bytes, start, nan.as_slice()) {
        return Some(0);
    }
    let (whole_ok, _) = scan_digits(bytes, start, k);
    if !whole_ok {
        return None;
    }
    let (frac_ok, _) = scan_digits(bytes, fs, q);
    if !frac_ok {
        return None;
    }
    if (k - start) + (q - fs) == 0 {
        return None;
    }
    let (eneg, emag) = if q < len {
        match read_exponent(bytes, q + 1) {
            None => {
                return None;
            },
            Some(found) => found,
        }
    } else {
        (false, 0u128)
    };
    let ghost x = b.subrange(q + 1, len as int);
    let ghost esize: nat = if q < len {
        digits_value(unsigned_part(x))
    } else {
        0
    };
    if negative {
        return Some(0);
    }
    proof {
        assert(emag as int == capped(esize));
    }
    Some(alpha_of_digits(bytes, start, k, fs, q, eneg, emag, Ghost(esize)))
}

} // verus!
