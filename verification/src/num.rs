//! Decimal fields of the fixed-width format: integer columns and
//! fixed-point columns with a set number of fraction digits, modelled as
//! scaled integers. Both directions are specified exactly, and parsing a
//! formatted value is proved to recover it.
use vstd::prelude::*;
use crate::text::{is_ws, ascii7, no_edge_ws};

verus! {

/// Largest magnitude a fixed-point column may hold, in scaled units.
pub const FIXED_CAP: u64 = 1000000000000000;

/// ASCII code of the digit zero.
pub const D0: u8 = 48;

/// ASCII code of the minus sign.
pub const MINUS: u8 = 45;

/// ASCII code of the plus sign.
pub const PLUS: u8 = 43;

/// ASCII code of the decimal point.
pub const DOT: u8 = 46;

pub open spec fn is_digit(b: u8) -> bool {
    48 <= b && b <= 57
}

pub open spec fn all_digits(s: Seq<u8>) -> bool {
    forall|i: int| 0 <= i < s.len() ==> is_digit(#[trigger] s[i])
}

pub open spec fn pow10(k: nat) -> int
    decreases k,
{
    if k == 0 {
        1
    } else {
        10 * pow10((k - 1) as nat)
    }
}

/// The decimal digits of `n`, most significant first, without sign and
/// without leading zeros (a single zero for `n == 0`).
pub open spec fn dec_digits(n: nat) -> Seq<u8>
    decreases n,
{
    if n < 10 {
        seq![(48 + n) as u8]
    } else {
        dec_digits(n / 10).push((48 + n % 10) as u8)
    }
}

/// The canonical decimal text of a signed integer.
pub open spec fn int_repr(n: int) -> Seq<u8> {
    if n < 0 {
        seq![MINUS] + dec_digits((-n) as nat)
    } else {
        dec_digits(n as nat)
    }
}

/// The value of a digit string, most significant digit first.
pub open spec fn digits_val(s: Seq<u8>) -> int
    decreases s.len(),
{
    if s.len() == 0 {
        0
    } else {
        digits_val(s.drop_last()) * 10 + (s.last() - D0)
    }
}

/// A run of `n` zero digits.
pub open spec fn zeros(n: nat) -> Seq<u8> {
    Seq::new(n, |i: int| D0)
}

/// The digit string left-padded with zero digits to width `w`.
pub open spec fn zpad(s: Seq<u8>, w: nat) -> Seq<u8> {
    if s.len() < w {
        zeros((w - s.len()) as nat) + s
    } else {
        s
    }
}

/// The canonical fixed-point text of `m` scaled by `10^scale`: sign,
/// integer part, decimal point, and exactly `scale` fraction digits.
pub open spec fn fixed_repr(m: int, scale: nat) -> Seq<u8> {
    let a = if m < 0 {
        -m
    } else {
        m
    };
    let sign: Seq<u8> = if m < 0 {
        seq![MINUS]
    } else {
        Seq::empty()
    };
    sign + dec_digits((a / pow10(scale)) as nat) + seq![DOT] + zpad(
        dec_digits((a % pow10(scale)) as nat),
        scale,
    )
}

/// Splits an optional leading sign off a numeric field.
pub open spec fn split_sign(s: Seq<u8>) -> (bool, Seq<u8>) {
    if s.len() > 0 && s[0] == MINUS {
        (true, s.drop_first())
    } else if s.len() > 0 && s[0] == PLUS {
        (false, s.drop_first())
    } else {
        (false, s)
    }
}

/// The signed value of a decimal integer field: an optional sign followed
/// by at least one digit; anything else has no value.
pub open spec fn parse_int_val(s: Seq<u8>) -> Option<int> {
    let (neg, ds) = split_sign(s);
    if ds.len() >= 1 && all_digits(ds) {
        if neg {
            Some(-digits_val(ds))
        } else {
            Some(digits_val(ds))
        }
    } else {
        None
    }
}

/// The value of a decimal integer field when it fits a 32-bit signed
/// integer; out-of-range values are rejected as the conversion would be.
pub open spec fn parse_i32_val(s: Seq<u8>) -> Option<int> {
    match parse_int_val(s) {
        Some(v) => if -2147483648 <= v && v <= 2147483647 {
            Some(v)
        } else {
            None
        },
        None => None,
    }
}

/// Index of the first decimal point in `s`, or `s.len()` if there is none.
pub open spec fn dot_pos(s: Seq<u8>) -> int
    decreases s.len(),
{
    if s.len() == 0 {
        0
    } else if s[0] == DOT {
        0
    } else {
        1 + dot_pos(s.drop_first())
    }
}

/// The value of a fixed-point decimal field, in units of `10^-scale`: an
/// optional sign, then digits with at most one decimal point, at least one
/// digit in all, at most `scale` fraction digits, and a scaled magnitude
/// of at most `FIXED_CAP`. This grammar is deliberately narrower than
/// general floating-point syntax: exponent and special forms, fractions
/// longer than the column's precision, and magnitudes beyond the cap are
/// rejected, since the stored value is an exact scaled integer.
pub open spec fn parse_fixed_val(s: Seq<u8>, scale: nat) -> Option<int> {
    let (neg, ds) = split_sign(s);
    let p = dot_pos(ds);
    if p == ds.len() {
        if ds.len() >= 1 && all_digits(ds) {
            fixed_guard(neg, digits_val(ds) * pow10(scale))
        } else {
            None
        }
    } else {
        let ip = ds.subrange(0, p);
        let fp = ds.subrange(p + 1, ds.len() as int);
        if ip.len() + fp.len() >= 1 && all_digits(ip) && all_digits(fp) && fp.len() <= scale {
            fixed_guard(
                neg,
                digits_val(ip) * pow10(scale) + digits_val(fp) * pow10((scale - fp.len()) as nat),
            )
        } else {
            None
        }
    }
}

/// Applies the magnitude cap and the sign to a scaled fixed-point value.
pub open spec fn fixed_guard(neg: bool, val: int) -> Option<int> {
    if val <= FIXED_CAP {
        if neg {
            Some(-val)
        } else {
            Some(val)
        }
    } else {
        None
    }
}

/// Concrete values of the small powers of ten the proofs mention.
pub proof fn lemma_pow10_vals()
    ensures
        pow10(0) == 1,
        pow10(1) == 10,
        pow10(2) == 100,
        pow10(3) == 1000,
        pow10(5) == 100000,
        pow10(6) == 1000000,
        pow10(15) == FIXED_CAP as int,
        pow10(17) == 100000000000000000,
{
    reveal_with_fuel(pow10, 19);
}

pub proof fn lemma_pow10_pos(k: nat)
    ensures
        pow10(k) >= 1,
    decreases k,
{
    if k > 0 {
        lemma_pow10_pos((k - 1) as nat);
    }
}

pub proof fn lemma_pow10_le(i: nat, j: nat)
    requires
        i <= j,
    ensures
        pow10(i) <= pow10(j),
    decreases j,
{
    if i < j {
        lemma_pow10_le(i, (j - 1) as nat);
        lemma_pow10_pos((j - 1) as nat);
    }
}

/// The digits of `n` are digits, value back to `n`, and nonempty.
pub proof fn lemma_dec_digits(n: nat)
    ensures
        all_digits(dec_digits(n)),
        dec_digits(n).len() >= 1,
        digits_val(dec_digits(n)) == n,
    decreases n,
{
    if n < 10 {
        let s = dec_digits(n);
        assert(s.drop_last() =~= Seq::<u8>::empty());
        assert(digits_val(Seq::<u8>::empty()) == 0);
        assert(digits_val(s) == n);
    } else {
        lemma_dec_digits(n / 10);
        let s = dec_digits(n);
        assert(s.drop_last() =~= dec_digits(n / 10));
        assert(s.last() == (48 + n % 10) as u8);
        assert(digits_val(s) == (n / 10) * 10 + n % 10);
        assert((n / 10) * 10 + n % 10 == n) by {
            vstd::arithmetic::div_mod::lemma_fundamental_div_mod(n as int, 10);
        }
    }
}

/// A digit string's value is below `10^len`, and nonnegative.
pub proof fn lemma_digits_val_bound(s: Seq<u8>)
    requires
        all_digits(s),
    ensures
        0 <= digits_val(s) < pow10(s.len()),
    decreases s.len(),
{
    if s.len() == 0 {
    } else {
        assert(all_digits(s.drop_last())) by {
            assert(forall|i: int|
                0 <= i < s.len() - 1 ==> s.drop_last()[i] == #[trigger] s[i]);
        }
        lemma_digits_val_bound(s.drop_last());
        assert(is_digit(s.last()));
    }
}

/// `n` fits in `k` digits exactly when `n < 10^k`.
pub proof fn lemma_dec_digits_len(n: nat, k: nat)
    requires
        k >= 1,
    ensures
        dec_digits(n).len() <= k <==> n < pow10(k),
    decreases n,
{
    if n < 10 {
        assert(dec_digits(n).len() == 1);
        lemma_pow10_le(1, k);
        lemma_pow10_vals();
    } else {
        if k == 1 {
            lemma_dec_digits(n / 10);
            assert(dec_digits(n).len() >= 2);
            lemma_pow10_vals();
        } else {
            lemma_dec_digits_len(n / 10, (k - 1) as nat);
            assert(dec_digits(n).len() == dec_digits(n / 10).len() + 1);
            let q = (n / 10) as int;
            let pk1 = pow10((k - 1) as nat);
            lemma_pow10_pos((k - 1) as nat);
            vstd::arithmetic::div_mod::lemma_fundamental_div_mod(n as int, 10);
            if q < pk1 {
                vstd::arithmetic::mul::lemma_mul_inequality(q, pk1 - 1, 10);
                assert(n < 10 * pk1);
            } else {
                vstd::arithmetic::mul::lemma_mul_inequality(pk1, q, 10);
                assert(n >= 10 * pk1);
            }
        }
    }
}

/// Concatenating digit strings multiplies the left value by the width of
/// the right.
pub proof fn lemma_digits_val_concat(a: Seq<u8>, b: Seq<u8>)
    ensures
        digits_val(a + b) == digits_val(a) * pow10(b.len()) + digits_val(b),
    decreases b.len(),
{
    if b.len() == 0 {
        assert(a + b =~= a);
    } else {
        lemma_digits_val_concat(a, b.drop_last());
        assert((a + b).drop_last() =~= a + b.drop_last());
        assert((a + b).last() == b.last());
        assert(digits_val(a + b) == (digits_val(a) * pow10((b.len() - 1) as nat) + digits_val(
            b.drop_last(),
        )) * 10 + (b.last() - D0));
        assert(pow10(b.len()) == 10 * pow10((b.len() - 1) as nat));
        assert(digits_val(a) * pow10((b.len() - 1) as nat) * 10 == digits_val(a) * pow10(
            b.len(),
        )) by {
            vstd::arithmetic::mul::lemma_mul_is_associative(
                digits_val(a),
                pow10((b.len() - 1) as nat),
                10,
            );
        }
    }
}

/// Leading zero digits do not change a digit string's value.
pub proof fn lemma_zeros_val(k: nat)
    ensures
        zeros(k).len() == k,
        all_digits(zeros(k)),
        digits_val(zeros(k)) == 0,
    decreases k,
{
    if k > 0 {
        lemma_zeros_val((k - 1) as nat);
        assert(zeros(k).drop_last() =~= zeros((k - 1) as nat));
        assert(zeros(k).last() == D0);
    }
}

/// Every byte of an integer's canonical text is a sign or a digit, so the
/// text is ASCII and has no whitespace to trim.
pub proof fn lemma_int_repr_clean(n: int)
    ensures
        forall|i: int|
            0 <= i < int_repr(n).len() ==> (#[trigger] int_repr(n)[i] == MINUS || is_digit(
                int_repr(n)[i],
            )),
        int_repr(n).len() >= 1,
        no_edge_ws(int_repr(n)),
        ascii7(int_repr(n)),
{
    if n < 0 {
        lemma_dec_digits((-n) as nat);
    } else {
        lemma_dec_digits(n as nat);
    }
    assert forall|i: int| 0 <= i < int_repr(n).len() implies !is_ws(#[trigger] int_repr(n)[i])
        && int_repr(n)[i] < 128 by {
        assert(int_repr(n)[i] == MINUS || is_digit(int_repr(n)[i]));
    }
}

/// Every byte of a fixed-point canonical text is a sign, a digit or the
/// decimal point, so the text is ASCII and has no whitespace to trim.
pub proof fn lemma_fixed_repr_clean(m: int, scale: nat)
    ensures
        forall|i: int|
            0 <= i < fixed_repr(m, scale).len() ==> (#[trigger] fixed_repr(m, scale)[i] == MINUS
                || fixed_repr(m, scale)[i] == DOT || is_digit(fixed_repr(m, scale)[i])),
        fixed_repr(m, scale).len() >= 2,
        no_edge_ws(fixed_repr(m, scale)),
        ascii7(fixed_repr(m, scale)),
{
    let a = if m < 0 {
        -m
    } else {
        m
    };
    lemma_pow10_pos(scale);
    lemma_dec_digits((a / pow10(scale)) as nat);
    lemma_dec_digits((a % pow10(scale)) as nat);
    lemma_zeros_val((scale - dec_digits((a % pow10(scale)) as nat).len()) as nat);
    let s = fixed_repr(m, scale);
    assert forall|i: int| 0 <= i < s.len() implies (#[trigger] s[i] == MINUS || s[i] == DOT
        || is_digit(s[i])) by {
    }
    assert forall|i: int| 0 <= i < s.len() implies !is_ws(#[trigger] s[i]) && s[i] < 128 by {
        assert(s[i] == MINUS || s[i] == DOT || is_digit(s[i]));
    }
    assert(s.len() >= 2);
    assert(no_edge_ws(s)) by {
        assert(!is_ws(s[0]));
        assert(!is_ws(s[s.len() - 1]));
    }
}

/// Parsing the canonical text of an integer recovers the integer.
pub proof fn lemma_parse_int_repr(n: int)
    ensures
        parse_int_val(int_repr(n)) == Some(n),
{
    if n < 0 {
        lemma_dec_digits((-n) as nat);
        let s = int_repr(n);
        assert(s[0] == MINUS);
        assert(s.drop_first() =~= dec_digits((-n) as nat));
    } else {
        lemma_dec_digits(n as nat);
        let s = int_repr(n);
        assert(is_digit(s[0]));
        assert(s[0] != MINUS && s[0] != PLUS);
    }
}

/// The first decimal point of a digit run followed by a point is right
/// after the run.
pub proof fn lemma_dot_pos_concat(a: Seq<u8>, b: Seq<u8>)
    requires
        all_digits(a),
    ensures
        dot_pos(a + seq![DOT] + b) == a.len(),
    decreases a.len(),
{
    let s = a + seq![DOT] + b;
    if a.len() == 0 {
        assert(s[0] == DOT);
    } else {
        assert(is_digit(s[0]));
        assert(s[0] != DOT);
        assert(s.drop_first() =~= a.drop_first() + seq![DOT] + b);
        assert(all_digits(a.drop_first())) by {
            assert(forall|i: int|
                0 <= i < a.len() - 1 ==> a.drop_first()[i] == #[trigger] a[i + 1]);
        }
        lemma_dot_pos_concat(a.drop_first(), b);
    }
}

/// A pure digit string has no decimal point.
pub proof fn lemma_dot_pos_digits(s: Seq<u8>)
    requires
        all_digits(s),
    ensures
        dot_pos(s) == s.len(),
    decreases s.len(),
{
    if s.len() > 0 {
        assert(is_digit(s[0]));
        assert(all_digits(s.drop_first())) by {
            assert(forall|i: int|
                0 <= i < s.len() - 1 ==> s.drop_first()[i] == #[trigger] s[i + 1]);
        }
        lemma_dot_pos_digits(s.drop_first());
    }
}

/// If the first `k` bytes are digits and byte `k` (if any) is the decimal
/// point, the first decimal point is at `k`.
pub proof fn lemma_dot_pos_at(s: Seq<u8>, k: int)
    requires
        0 <= k <= s.len(),
        all_digits(s.subrange(0, k)),
        k == s.len() || s[k] == DOT,
    ensures
        dot_pos(s) == k,
{
    if k == s.len() {
        assert(s.subrange(0, k) =~= s);
        assert(all_digits(s));
        lemma_dot_pos_digits(s);
    } else {
        let a = s.subrange(0, k);
        let b = s.subrange(k + 1, s.len() as int);
        assert(s =~= a + seq![DOT] + b);
        lemma_dot_pos_concat(a, b);
    }
}

/// The first decimal point lies within the field, is a point, and no
/// point comes before it.
pub proof fn lemma_dot_pos_props(s: Seq<u8>)
    ensures
        0 <= dot_pos(s) <= s.len(),
        dot_pos(s) < s.len() ==> s[dot_pos(s)] == DOT,
        forall|j: int| 0 <= j < dot_pos(s) ==> #[trigger] s[j] != DOT,
    decreases s.len(),
{
    if s.len() == 0 {
    } else if s[0] == DOT {
    } else {
        lemma_dot_pos_props(s.drop_first());
        let p = dot_pos(s);
        assert(p == 1 + dot_pos(s.drop_first()));
        if p < s.len() {
            assert(s[p] == s.drop_first()[p - 1]);
        }
        assert forall|j: int| 0 <= j < p implies #[trigger] s[j] != DOT by {
            if j > 0 {
                assert(s[j] == s.drop_first()[j - 1]);
            }
        }
    }
}

/// Parsing the canonical fixed-point text recovers the scaled value.
pub proof fn lemma_parse_fixed_repr(m: int, scale: nat)
    requires
        scale >= 1,
        -(FIXED_CAP as int) <= m <= FIXED_CAP as int,
    ensures
        parse_fixed_val(fixed_repr(m, scale), scale) == Some(m),
{
    let a = if m < 0 {
        -m
    } else {
        m
    };
    let p10 = pow10(scale);
    lemma_pow10_pos(scale);
    vstd::arithmetic::div_mod::lemma_fundamental_div_mod(a, p10);
    vstd::arithmetic::div_mod::lemma_div_pos_is_pos(a, p10);
    vstd::arithmetic::div_mod::lemma_mod_bound(a, p10);
    let hi = (a / p10) as nat;
    let lo = (a % p10) as nat;
    lemma_dec_digits(hi);
    lemma_dec_digits(lo);
    let hid = dec_digits(hi);
    let lod = dec_digits(lo);
    assert(lod.len() <= scale) by {
        lemma_dec_digits_len(lo, scale);
    }
    let fp = zpad(lod, scale);
    lemma_zeros_val((scale - lod.len()) as nat);
    assert(all_digits(fp)) by {
        if lod.len() < scale {
            assert(forall|i: int|
                0 <= i < fp.len() ==> #[trigger] fp[i] == if i < scale - lod.len() {
                    zeros((scale - lod.len()) as nat)[i]
                } else {
                    lod[i - (scale - lod.len())]
                });
        }
    }
    assert(fp.len() == scale);
    assert(digits_val(fp) == lo) by {
        if lod.len() < scale {
            lemma_digits_val_concat(zeros((scale - lod.len()) as nat), lod);
        }
    }
    let s = fixed_repr(m, scale);
    let body = hid + seq![DOT] + fp;
    if m < 0 {
        assert(s =~= seq![MINUS] + body);
        assert(s[0] == MINUS);
        assert(s.drop_first() =~= body);
    } else {
        assert(s =~= body);
        assert(is_digit(s[0]));
        assert(s[0] != MINUS && s[0] != PLUS);
        assert(split_sign(s) == (false, s));
    }
    let (neg, ds) = split_sign(s);
    assert(ds =~= body);
    lemma_dot_pos_concat(hid, fp);
    assert(dot_pos(ds) == hid.len());
    assert(ds.subrange(0, hid.len() as int) =~= hid);
    assert(ds.subrange(hid.len() as int + 1, ds.len() as int) =~= fp);
    assert(digits_val(hid) * p10 + digits_val(fp) * pow10((scale - fp.len()) as nat) == hi * p10
        + lo);
    assert(a == p10 * (a / p10) + a % p10);
    assert(hi * p10 == p10 * hi) by {
        vstd::arithmetic::mul::lemma_mul_is_commutative(hi as int, p10);
    }
    assert(hi * p10 + lo == a);
    assert(fixed_guard(neg, a) == Some(m));
}

/// Exec mirror of `pow10` for small exponents.
pub fn pow10_u64(k: usize) -> (r: u64)
    requires
        k <= 18,
    ensures
        r as int == pow10(k as nat),
{
    let mut i: usize = 0;
    let mut r: u64 = 1;
    while i < k
        invariant
            i <= k <= 18,
            r as int == pow10(i as nat),
        decreases k - i,
    {
        proof {
            lemma_pow10_le(i as nat, 17);
            lemma_pow10_vals();
        }
        r = r * 10;
        i = i + 1;
    }
    r
}

/// Absolute value of a 64-bit integer, as an unsigned value.
pub fn abs_u64(m: i64) -> (r: u64)
    ensures
        r as int == if m < 0 {
            -(m as int)
        } else {
            m as int
        },
{
    if m >= 0 {
        m as u64
    } else {
        let t = -(m + 1);
        (t as u64) + 1
    }
}

/// Appends the decimal digits of `n` to `out`.
pub fn push_dec_digits(out: &mut Vec<u8>, n: u64)
    ensures
        final(out)@ == old(out)@ + dec_digits(n as nat),
    decreases n,
{
    if n < 10 {
        out.push(48 + n as u8);
        proof {
            assert(out@ =~= old(out)@ + dec_digits(n as nat));
        }
    } else {
        push_dec_digits(out, n / 10);
        out.push(48 + (n % 10) as u8);
        proof {
            assert(out@ =~= old(out)@ + dec_digits(n as nat));
        }
    }
}

/// The canonical decimal text of a signed integer.
pub fn fmt_i64(n: i64) -> (r: Vec<u8>)
    ensures
        r@ == int_repr(n as int),
{
    let mut out: Vec<u8> = Vec::new();
    if n < 0 {
        out.push(MINUS);
    }
    let mag = abs_u64(n);
    push_dec_digits(&mut out, mag);
    proof {
        assert(out@ =~= int_repr(n as int));
    }
    out
}

/// Appends `n` zero digits to `out`.
fn push_zero_digits(out: &mut Vec<u8>, n: usize)
    ensures
        final(out)@ == old(out)@ + zeros(n as nat),
{
    let mut i: usize = 0;
    while i < n
        invariant
            i <= n,
            out@ =~= old(out)@ + zeros(i as nat),
        decreases n - i,
    {
        out.push(D0);
        i = i + 1;
        proof {
            assert(out@ =~= old(out)@ + zeros(i as nat));
        }
    }
}

/// The canonical fixed-point text of `m` in units of `10^-scale`.
pub fn fmt_fixed(m: i64, scale: usize) -> (r: Vec<u8>)
    requires
        1 <= scale <= 9,
    ensures
        r@ == fixed_repr(m as int, scale as nat),
{
    let mut out: Vec<u8> = Vec::new();
    if m < 0 {
        out.push(MINUS);
    }
    let mag = abs_u64(m);
    let p = pow10_u64(scale);
    proof {
        lemma_pow10_pos(scale as nat);
    }
    let hi = mag / p;
    let lo = mag % p;
    push_dec_digits(&mut out, hi);
    out.push(DOT);
    let mut frac: Vec<u8> = Vec::new();
    push_dec_digits(&mut frac, lo);
    proof {
        lemma_dec_digits_len(lo as nat, scale as nat);
    }
    push_zero_digits(&mut out, scale - frac.len());
    crate::text::push_bytes(&mut out, &frac);
    proof {
        assert(out@ =~= fixed_repr(m as int, scale as nat));
    }
    out
}

/// Parses a trimmed decimal integer field as a 32-bit signed integer,
/// exactly as `parse_i32_val` describes.
#[verifier::loop_isolation(false)]
pub fn parse_i32_bytes(s: &Vec<u8>) -> (r: Option<i32>)
    ensures
        match r {
            Some(v) => parse_i32_val(s@) == Some(v as int),
            None => parse_i32_val(s@) is None,
        },
{
    let n = s.len();
    if n == 0 {
        return None;
    }
    let (neg, start): (bool, usize) = if s[0] == MINUS {
        (true, 1)
    } else if s[0] == PLUS {
        (false, 1)
    } else {
        (false, 0)
    };
    let ghost ds = s@.subrange(start as int, n as int);
    proof {
        assert((split_sign(s@).0, split_sign(s@).1) == (neg, ds)) by {
            if start == 1 {
                assert(s@.drop_first() =~= ds);
            } else {
                assert(s@ =~= ds);
            }
        }
    }
    if start >= n {
        return None;
    }
    let mut acc: u64 = 0;
    let mut i: usize = start;
    while i < n
        invariant
            start <= i <= n,
            n == s@.len(),
            ds == s@.subrange(start as int, n as int),
            all_digits(s@.subrange(start as int, i as int)),
            acc as int == if digits_val(s@.subrange(start as int, i as int)) <= 3000000000 {
                digits_val(s@.subrange(start as int, i as int))
            } else {
                3000000000
            },
            digits_val(s@.subrange(start as int, i as int)) >= 0,
        decreases n - i,
    {
        let b = s[i];
        if b < 48 || b > 57 {
            proof {
                assert(ds[i - start] == b);
                assert(!is_digit(b));
                assert(!all_digits(ds));
            }
            return None;
        }
        let d = (b - 48) as u64;
        let ghost pre = s@.subrange(start as int, i as int);
        let ghost cur = s@.subrange(start as int, i + 1);
        proof {
            assert(cur.drop_last() =~= pre);
            assert(cur.last() == b);
            assert(digits_val(cur) == digits_val(pre) * 10 + (b - D0));
        }
        let t = acc * 10 + d;
        acc = if t > 3000000000 {
            3000000000
        } else {
            t
        };
        i = i + 1;
    }
    proof {
        assert(s@.subrange(start as int, n as int) =~= ds);
        lemma_digits_val_bound(ds);
    }
    if neg {
        if acc <= 2147483648 {
            let v: i64 = -(acc as i64);
            Some(v as i32)
        } else {
            None
        }
    } else {
        if acc <= 2147483647 {
            Some(acc as i32)
        } else {
            None
        }
    }
}

/// Parses a trimmed fixed-point field in units of `10^-scale`, exactly as
/// `parse_fixed_val` describes.
#[verifier::loop_isolation(false)]
#[verifier::rlimit(80)]
pub fn parse_fixed_bytes(s: &Vec<u8>, scale: usize) -> (r: Option<i64>)
    requires
        1 <= scale <= 6,
    ensures
        match r {
            Some(v) => parse_fixed_val(s@, scale as nat) == Some(v as int),
            None => parse_fixed_val(s@, scale as nat) is None,
        },
{
    let n = s.len();
    if n == 0 {
        return None;
    }
    let (neg, start): (bool, usize) = if s[0] == MINUS {
        (true, 1)
    } else if s[0] == PLUS {
        (false, 1)
    } else {
        (false, 0)
    };
    let ghost ds = s@.subrange(start as int, n as int);
    proof {
        assert((split_sign(s@).0, split_sign(s@).1) == (neg, ds)) by {
            if start == 1 {
                assert(s@.drop_first() =~= ds);
            } else {
                assert(s@ =~= ds);
            }
        }
    }
    // Integer part: digits until a decimal point or the end.
    let mut acc: u64 = 0;
    let mut i: usize = start;
    while i < n && s[i] != DOT
        invariant
            start <= i <= n,
            n == s@.len(),
            all_digits(s@.subrange(start as int, i as int)),
            acc as int == if digits_val(s@.subrange(start as int, i as int)) <= 2000000000000000 {
                digits_val(s@.subrange(start as int, i as int))
            } else {
                2000000000000000
            },
            digits_val(s@.subrange(start as int, i as int)) >= 0,
        decreases n - i,
    {
        let b = s[i];
        if b < 48 || b > 57 {
            proof {
                let p = dot_pos(ds);
                lemma_dot_pos_props(ds);
                assert(ds[i - start] == b);
                assert(!is_digit(b));
                if p < ds.len() {
                    // The offending byte lies before or inside one of the
                    // two digit runs, whichever way the point falls.
                    if i - start < p {
                        assert(ds.subrange(0, p)[i - start] == b);
                        assert(!all_digits(ds.subrange(0, p)));
                    } else if i - start > p {
                        assert(ds.subrange(p + 1, ds.len() as int)[i - start - p - 1] == b);
                        assert(!all_digits(ds.subrange(p + 1, ds.len() as int)));
                    } else {
                        assert(ds[p] == DOT);
                        assert(false);
                    }
                } else {
                    assert(!all_digits(ds));
                }
            }
            return None;
        }
        let d = (b - 48) as u64;
        let ghost pre = s@.subrange(start as int, i as int);
        let ghost cur = s@.subrange(start as int, i + 1);
        proof {
            assert(cur.drop_last() =~= pre);
            assert(cur.last() == b);
            assert(digits_val(cur) == digits_val(pre) * 10 + (b - D0));
        }
        let t = acc * 10 + d;
        acc = if t > 2000000000000000 {
            2000000000000000
        } else {
            t
        };
        i = i + 1;
    }
    let ghost ip_end = i as int;
    let ghost ipart = s@.subrange(start as int, ip_end);
    proof {
        if i < n {
            assert(ds[ip_end - start] == DOT);
            assert(all_digits(ds.subrange(0, ip_end - start))) by {
                assert(ds.subrange(0, ip_end - start) =~= ipart);
            }
            lemma_dot_pos_at(ds, ip_end - start);
        } else {
            assert(i == n);
            assert(ds =~= ipart);
            lemma_dot_pos_digits(ds);
        }
        assert(ds.subrange(0, dot_pos(ds)) =~= ipart);
    }
    if i >= n {
        // No decimal point: the whole field is the integer part.
        if i == start {
            return None;
        }
        proof {
            lemma_digits_val_bound(ipart);
        }
        return fixed_combine(neg, acc, 0, 0, scale, Ghost(digits_val(ipart)), Ghost(0));
    }
    // Fraction part after the decimal point.
    let fstart = i + 1;
    let ghost fpart = ds.subrange(ip_end - start + 1, ds.len() as int);
    proof {
        assert(fpart =~= s@.subrange(fstart as int, n as int));
    }
    if n - fstart > scale {
        return None;
    }
    if i == start && fstart >= n {
        // A lone decimal point has no digits at all.
        return None;
    }
    let mut facc: u64 = 0;
    let mut j: usize = fstart;
    while j < n
        invariant
            fstart <= j <= n,
            n == s@.len(),
            n - fstart <= scale <= 6,
            fpart == s@.subrange(fstart as int, n as int),
            all_digits(s@.subrange(fstart as int, j as int)),
            facc as int == digits_val(s@.subrange(fstart as int, j as int)),
            facc as int >= 0,
            (facc as int) < pow10((j - fstart) as nat),
        decreases n - j,
    {
        let b = s[j];
        if b < 48 || b > 57 {
            proof {
                assert(fpart[j - fstart] == b);
                assert(!is_digit(b));
            }
            return None;
        }
        let d = (b - 48) as u64;
        let ghost pre = s@.subrange(fstart as int, j as int);
        let ghost cur = s@.subrange(fstart as int, j + 1);
        proof {
            assert(cur.drop_last() =~= pre);
            assert(cur.last() == b);
            assert(digits_val(cur) == digits_val(pre) * 10 + (b - D0));
            lemma_pow10_le((j - fstart) as nat, 5);
            lemma_pow10_vals();
        }
        facc = facc * 10 + d;
        j = j + 1;
    }
    proof {
        assert(s@.subrange(fstart as int, n as int) =~= fpart);
        lemma_digits_val_bound(ipart);
        lemma_digits_val_bound(fpart);
    }
    fixed_combine(
        neg,
        acc,
        facc,
        n - fstart,
        scale,
        Ghost(digits_val(ipart)),
        Ghost(digits_val(fpart)),
    )
}

/// Combines the saturated integer part and the fraction part of a
/// fixed-point field, applying the magnitude cap.
fn fixed_combine(
    neg: bool,
    acc: u64,
    facc: u64,
    flen: usize,
    scale: usize,
    Ghost(ipv): Ghost<int>,
    Ghost(fpv): Ghost<int>,
) -> (r: Option<i64>)
    requires
        1 <= scale <= 6,
        flen <= scale,
        ipv >= 0,
        acc as int == if ipv <= 2000000000000000 {
            ipv
        } else {
            2000000000000000
        },
        facc as int == fpv,
        0 <= fpv,
        fpv < pow10(flen as nat),
    ensures
        match r {
            Some(v) => fixed_guard(neg, ipv * pow10(scale as nat) + fpv * pow10(
                (scale - flen) as nat,
            )) == Some(v as int),
            None => fixed_guard(
                neg,
                ipv * pow10(scale as nat) + fpv * pow10((scale - flen) as nat),
            ) is None,
        },
{
    let p = pow10_u64(scale);
    let ghost pw = pow10((scale - flen) as nat);
    let ghost val = ipv * pow10(scale as nat) + fpv * pw;
    proof {
        lemma_pow10_pos(scale as nat);
        lemma_pow10_pos((scale - flen) as nat);
        lemma_pow10_vals();
        lemma_pow10_le(scale as nat, 6);
        // The integer part alone bounds the value from below.
        vstd::arithmetic::mul::lemma_mul_is_commutative(ipv, pow10(scale as nat));
        vstd::arithmetic::mul::lemma_mul_inequality(1, pow10(scale as nat), ipv);
        vstd::arithmetic::mul::lemma_mul_nonnegative(fpv, pw);
        assert(ipv * pow10(scale as nat) >= ipv);
        assert(val >= ipv);
        assert(ipv >= acc);
    }
    if acc > FIXED_CAP {
        proof {
            assert(val > FIXED_CAP);
        }
        return None;
    }
    proof {
        assert(acc as int == ipv);
    }
    let cap_div = FIXED_CAP / p;
    proof {
        // The cap is an exact multiple of the scale's power of ten.
        lemma_pow10_mod(scale as nat);
        vstd::arithmetic::div_mod::lemma_fundamental_div_mod(FIXED_CAP as int, p as int);
        assert(cap_div as int * p as int == FIXED_CAP as int) by {
            vstd::arithmetic::mul::lemma_mul_is_commutative(cap_div as int, p as int);
        }
    }
    if acc > cap_div {
        proof {
            vstd::arithmetic::mul::lemma_mul_inequality(
                cap_div as int + 1,
                acc as int,
                p as int,
            );
            assert((cap_div as int + 1) * p as int == cap_div as int * p as int + p as int) by {
                vstd::arithmetic::mul::lemma_mul_is_distributive_add_other_way(
                    p as int,
                    cap_div as int,
                    1,
                );
            }
            assert(acc as int * p as int > FIXED_CAP as int);
            assert(ipv * pow10(scale as nat) == acc as int * p as int);
            assert(val > FIXED_CAP);
        }
        return None;
    }
    proof {
        vstd::arithmetic::mul::lemma_mul_inequality(acc as int, cap_div as int, p as int);
        assert(acc as int * p as int <= FIXED_CAP as int);
    }
    let scaled = acc * p;
    let fscale = pow10_u64(scale - flen);
    proof {
        // The fraction contributes less than one unit of the integer part.
        vstd::arithmetic::mul::lemma_mul_strict_inequality(fpv, pow10(flen as nat), pw);
        lemma_pow10_add(flen as nat, (scale - flen) as nat);
        assert(fpv * pw < pow10(scale as nat));
        assert(fpv >= 0 && pw >= 1);
        vstd::arithmetic::mul::lemma_mul_nonnegative(fpv, pw);
    }
    let total = scaled + facc * fscale;
    proof {
        assert(total as int == val);
    }
    if total > FIXED_CAP {
        return None;
    }
    if neg {
        let v: i64 = -(total as i64);
        Some(v)
    } else {
        Some(total as i64)
    }
}

/// `10^a * 10^b == 10^(a+b)`.
pub proof fn lemma_pow10_add(a: nat, b: nat)
    ensures
        pow10(a) * pow10(b) == pow10((a + b) as nat),
    decreases a,
{
    if a == 0 {
    } else {
        lemma_pow10_add((a - 1) as nat, b);
        assert(pow10(a) * pow10(b) == 10 * pow10((a - 1) as nat) * pow10(b));
        vstd::arithmetic::mul::lemma_mul_is_associative(10, pow10((a - 1) as nat), pow10(b));
    }
}

/// Powers of ten divide the cap's power of ten.
proof fn lemma_pow10_mod(k: nat)
    requires
        k <= 15,
    ensures
        pow10(15) % pow10(k) == 0,
{
    lemma_pow10_add(k, (15 - k) as nat);
    lemma_pow10_pos(k);
    lemma_pow10_pos((15 - k) as nat);
    vstd::arithmetic::div_mod::lemma_mod_multiples_basic(pow10((15 - k) as nat), pow10(k));
    assert(pow10((15 - k) as nat) * pow10(k) == pow10(15)) by {
        lemma_pow10_add((15 - k) as nat, k);
    }
}

/// A value read from a narrow integer field writes back no wider: the
/// canonical text of a parsed value fits the field it came from.
pub proof fn lemma_parse_repr_len(f: Seq<u8>, w: nat, n: int)
    requires
        parse_int_val(f) == Some(n),
        f.len() <= w,
        w >= 1,
    ensures
        int_repr(n).len() <= w,
{
    let (neg, ds) = split_sign(f);
    lemma_digits_val_bound(ds);
    if n >= 0 {
        assert(n <= digits_val(ds));
        assert(ds.len() <= w);
        lemma_pow10_le(ds.len(), w);
        lemma_dec_digits_len(n as nat, w);
    } else {
        assert(n == -digits_val(ds));
        assert(ds.len() >= 1);
        assert(f.len() == ds.len() + 1);
        assert(ds.len() <= w - 1);
        assert(w >= 2);
        lemma_pow10_le(ds.len(), (w - 1) as nat);
        lemma_dec_digits_len((-n) as nat, (w - 1) as nat);
        assert(int_repr(n).len() == 1 + dec_digits((-n) as nat).len());
    }
}

} // verus!
