//! Decimal text to fixed-point values and back.
//!
//! Gerber streams carry numbers as ASCII decimal text. This module parses
//! optionally signed integers and decimals into the crate's fixed-point
//! representation (units of 10^-6, see `fixed`), and serializes a fixed-point
//! value back to canonical decimal text with six fractional digits.

use vstd::prelude::*;
use crate::fixed::FIX_ONE;

verus! {

pub open spec fn is_digit(b: u8) -> bool {
    48 <= b && b <= 57
}

pub open spec fn all_digits(s: Seq<u8>) -> bool {
    forall|i: int| 0 <= i < s.len() ==> is_digit(#[trigger] s[i])
}

/// The non-negative integer denoted by a digit string (most significant first).
pub open spec fn digits_val(s: Seq<u8>) -> int
    decreases s.len(),
{
    if s.len() == 0 {
        0
    } else {
        digits_val(s.drop_last()) * 10 + (s.last() - 48)
    }
}

/// An unsigned digit run parses when it is non-empty, at most 18 digits long
/// (so the value fits comfortably in `i64`) and all digits.
pub open spec fn spec_parse_digits(s: Seq<u8>) -> Option<int> {
    if 1 <= s.len() && s.len() <= 18 && all_digits(s) {
        Some(digits_val(s))
    } else {
        None
    }
}

/// A signed integer: optional `-` or `+`, then a digit run.
pub open spec fn spec_parse_int(s: Seq<u8>) -> Option<int> {
    if s.len() > 0 && s[0] == 45 {
        match spec_parse_digits(s.skip(1)) {
            Some(v) => Some(-v),
            None => None,
        }
    } else if s.len() > 0 && s[0] == 43 {
        spec_parse_digits(s.skip(1))
    } else {
        spec_parse_digits(s)
    }
}

pub proof fn lemma_digits_val_bound(s: Seq<u8>, cap: int)
    requires
        all_digits(s),
        s.len() <= cap,
        0 <= cap,
    ensures
        0 <= digits_val(s),
        digits_val(s) < pow10(cap as nat),
    decreases s.len(),
{
    if s.len() == 0 {
        assert(pow10(cap as nat) >= 1) by {
            lemma_pow10_pos(cap as nat);
        }
    } else {
        lemma_digits_val_bound(s.drop_last(), cap - 1);
        assert(pow10(cap as nat) == 10 * pow10((cap - 1) as nat));
    }
}

pub open spec fn pow10(n: nat) -> int
    decreases n,
{
    if n == 0 {
        1
    } else {
        10 * pow10((n - 1) as nat)
    }
}

pub proof fn lemma_pow10_pos(n: nat)
    ensures
        pow10(n) >= 1,
    decreases n,
{
    if n > 0 {
        lemma_pow10_pos((n - 1) as nat);
    }
}

pub proof fn lemma_pow10_mono(a: nat, b: nat)
    requires
        a <= b,
    ensures
        pow10(a) <= pow10(b),
    decreases b,
{
    if a < b {
        lemma_pow10_mono(a, (b - 1) as nat);
        lemma_pow10_pos((b - 1) as nat);
    }
}

pub proof fn lemma_pow10_vals()
    ensures
        pow10(6) == 1_000_000,
        pow10(13) == 10_000_000_000_000,
        pow10(18) == 1_000_000_000_000_000_000,
{
    reveal_with_fuel(pow10, 20);
}

/// Parse a non-empty run of at most 18 digits.
fn parse_digits(s: &[u8]) -> (r: Option<i64>)
    ensures
        r is Some ==> spec_parse_digits(s@) == Some(r->0 as int) && r->0 >= 0,
        r is None ==> spec_parse_digits(s@) is None,
{
    if s.len() < 1 || s.len() > 18 {
        return None;
    }
    let mut val: i64 = 0;
    let mut i: usize = 0;
    proof {
        assert(s@.take(0) =~= Seq::<u8>::empty());
    }
    while i < s.len()
        invariant
            0 <= i <= s.len(),
            s.len() <= 18,
            all_digits(s@.take(i as int)),
            val == digits_val(s@.take(i as int)),
            0 <= val,
            val < pow10(i as nat),
        decreases s.len() - i,
    {
        let b: u8 = s[i];
        if b < 48 || b > 57 {
            proof {
                assert(!is_digit(s@[i as int]));
            }
            return None;
        }
        proof {
            lemma_pow10_mono((i + 1) as nat, 18);
            lemma_pow10_vals();
        }
        val = val * 10 + ((b - 48) as i64);
        i = i + 1;
        proof {
            assert(s@.take(i as int).drop_last() =~= s@.take(i as int - 1));
            lemma_pow10_pos((i - 1) as nat);
        }
    }
    proof {
        assert(s@.take(s.len() as int) =~= s@);
    }
    Some(val)
}

/// Parse an optionally signed integer.
pub fn parse_int(s: &[u8]) -> (r: Option<i64>)
    ensures
        r is Some ==> spec_parse_int(s@) == Some(r->0 as int),
        r is None ==> spec_parse_int(s@) is None,
{
    if s.len() > 0 && s[0] == 45 {
        let rest: &[u8] = vstd::slice::slice_subrange(s, 1, s.len());
        proof {
            assert(rest@ =~= s@.skip(1));
        }
        match parse_digits(rest) {
            Some(v) => Some(-v),
            None => None,
        }
    } else if s.len() > 0 && s[0] == 43 {
        let rest: &[u8] = vstd::slice::slice_subrange(s, 1, s.len());
        proof {
            assert(rest@ =~= s@.skip(1));
        }
        parse_digits(rest)
    } else {
        parse_digits(s)
    }
}

/// The fixed-point value of `int_part.frac_part`, fractional digits beyond
/// six truncated.
pub open spec fn spec_decimal_val(ip: Seq<u8>, fp: Seq<u8>) -> int {
    digits_val(ip) * (FIX_ONE as int) + digits_val(frac6(fp))
}

/// The first six fractional digits, right-padded with zeros.
pub open spec fn frac6(fp: Seq<u8>) -> Seq<u8> {
    if fp.len() >= 6 {
        fp.take(6)
    } else {
        fp + Seq::new((6 - fp.len()) as nat, |i: int| 48u8)
    }
}

/// A decimal literal: optional sign, digits, optionally `.` then digits.
/// At least one digit must be present on one of the two sides. The integer
/// part is limited to 13 digits; a value outside the `i64` range saturates.
pub open spec fn spec_parse_decimal(s: Seq<u8>) -> Option<int> {
    if s.len() > 0 && (s[0] == 45 || s[0] == 43) {
        match spec_parse_decimal_unsigned(s.skip(1)) {
            Some(v) => Some(
                crate::fixed::sat_i64(if s[0] == 45 { -v } else { v }),
            ),
            None => None,
        }
    } else {
        match spec_parse_decimal_unsigned(s) {
            Some(v) => Some(crate::fixed::sat_i64(v)),
            None => None,
        }
    }
}

pub open spec fn has_dot(s: Seq<u8>) -> bool {
    exists|i: int| 0 <= i < s.len() && #[trigger] s[i] == 46
}

pub open spec fn spec_parse_decimal_unsigned(s: Seq<u8>) -> Option<int> {
    if has_dot(s) {
        spec_decimal_parts(s.take(first_dot(s)), s.skip(first_dot(s) + 1))
    } else {
        spec_decimal_parts(s, Seq::<u8>::empty())
    }
}

/// Index of the first `.` in `s` (meaningful only when `has_dot(s)`).
pub open spec fn first_dot(s: Seq<u8>) -> int
    decreases s.len(),
{
    if s.len() == 0 {
        0
    } else if s[0] == 46 {
        0
    } else {
        1 + first_dot(s.skip(1))
    }
}

pub open spec fn spec_decimal_parts(ip: Seq<u8>, fp: Seq<u8>) -> Option<int> {
    if all_digits(ip) && all_digits(fp) && ip.len() <= 13 && (ip.len() > 0 || fp.len() > 0) {
        Some(spec_decimal_val(ip, fp))
    } else {
        None
    }
}

proof fn lemma_first_dot_at(s: Seq<u8>, i: int)
    requires
        0 <= i < s.len(),
        s[i] == 46,
        forall|j: int| 0 <= j < i ==> s[j] != 46,
    ensures
        first_dot(s) == i,
        has_dot(s),
    decreases i,
{
    if i > 0 {
        assert(s.skip(1)[i - 1] == 46);
        lemma_first_dot_at(s.skip(1), i - 1);
    }
}

proof fn lemma_digits_val_zeros_append(s: Seq<u8>, k: nat)
    ensures
        digits_val(s + Seq::new(k, |i: int| 48u8)) == digits_val(s) * pow10(k),
    decreases k,
{
    if k == 0 {
        assert(s + Seq::new(0, |i: int| 48u8) =~= s);
    } else {
        let t = s + Seq::new(k, |i: int| 48u8);
        assert(t.drop_last() =~= s + Seq::new((k - 1) as nat, |i: int| 48u8));
        assert(t.last() == 48);
        lemma_digits_val_zeros_append(s, (k - 1) as nat);
        assert(digits_val(t) == digits_val(s) * pow10((k - 1) as nat) * 10);
        assert(pow10(k) == 10 * pow10((k - 1) as nat));
        assert(digits_val(s) * pow10((k - 1) as nat) * 10 == digits_val(s) * pow10(k))
            by (nonlinear_arith)
            requires pow10(k) == 10 * pow10((k - 1) as nat);
    }
}

/// The decimal digits of `n`, most significant first, no leading zeros.
pub open spec fn dec_digits(n: nat) -> Seq<u8>
    decreases n,
{
    if n < 10 {
        seq![(48 + n) as u8]
    } else {
        dec_digits(n / 10).push((48 + n % 10) as u8)
    }
}

/// Exactly `k` decimal digits of `n` (`n < 10^k`), zero-padded on the left.
pub open spec fn fixed_digits(n: nat, k: nat) -> Seq<u8>
    decreases k,
{
    if k == 0 {
        Seq::<u8>::empty()
    } else {
        fixed_digits(n / 10, (k - 1) as nat).push((48 + n % 10) as u8)
    }
}

pub proof fn lemma_dec_digits_val(n: nat)
    ensures
        digits_val(dec_digits(n)) == n,
        all_digits(dec_digits(n)),
        dec_digits(n).len() >= 1,
    decreases n,
{
    if n < 10 {
        assert(dec_digits(n) == seq![(48 + n) as u8]);
        assert(dec_digits(n).drop_last() =~= Seq::<u8>::empty());
        assert(digits_val(Seq::<u8>::empty()) == 0);
        assert(((48 + n) as u8) as int == 48 + n);
        assert(dec_digits(n).last() == (48 + n) as u8);
        assert(digits_val(dec_digits(n)) == digits_val(dec_digits(n).drop_last()) * 10 + (
        dec_digits(n).last() - 48));
    } else {
        lemma_dec_digits_val(n / 10);
        vstd::arithmetic::div_mod::lemma_fundamental_div_mod(n as int, 10);
        let s = dec_digits(n);
        assert(((48 + n % 10) as u8) as int == 48 + ((n % 10) as int));
        assert(s.last() == (48 + n % 10) as u8);
        assert(s.drop_last() =~= dec_digits(n / 10));
        assert(forall|i: int| 0 <= i < s.len() ==> is_digit(s[i])) by {
            assert(forall|i: int|
                0 <= i < s.len() - 1 ==> s[i] == #[trigger] dec_digits(n / 10)[i]);
        }
    }
}

pub proof fn lemma_dec_digits_len(n: nat, k: nat)
    requires
        n < pow10(k),
        k >= 1,
    ensures
        dec_digits(n).len() <= k,
    decreases n,
{
    if n >= 10 {
        assert(pow10(k) == 10 * pow10((k - 1) as nat));
        assert(n / 10 < pow10((k - 1) as nat)) by (nonlinear_arith)
            requires n < 10 * pow10((k - 1) as nat) && n >= 10;
        assert(pow10((k - 1) as nat) > 1) by {
            lemma_pow10_pos((k - 1) as nat);
            if k == 1 {
                assert(n < 10);
            }
        }
        lemma_dec_digits_len(n / 10, (k - 1) as nat);
    }
}

pub proof fn lemma_fixed_digits_val(n: nat, k: nat)
    requires
        n < pow10(k),
    ensures
        digits_val(fixed_digits(n, k)) == n,
        all_digits(fixed_digits(n, k)),
        fixed_digits(n, k).len() == k,
    decreases k,
{
    if k == 0 {
    } else {
        assert(pow10(k) == 10 * pow10((k - 1) as nat));
        assert(n / 10 < pow10((k - 1) as nat)) by (nonlinear_arith)
            requires n < 10 * pow10((k - 1) as nat);
        lemma_fixed_digits_val(n / 10, (k - 1) as nat);
        vstd::arithmetic::div_mod::lemma_fundamental_div_mod(n as int, 10);
        let s = fixed_digits(n, k);
        assert(((48 + n % 10) as u8) as int == 48 + ((n % 10) as int));
        assert(s.last() == (48 + n % 10) as u8);
        assert(s.drop_last() =~= fixed_digits(n / 10, (k - 1) as nat));
        assert(forall|i: int| 0 <= i < s.len() ==> is_digit(s[i])) by {
            assert(forall|i: int|
                0 <= i < s.len() - 1
                    ==> s[i] == #[trigger] fixed_digits(n / 10, (k - 1) as nat)[i]);
        }
    }
}

/// Canonical decimal text of a fixed-point value: optional `-`, the integer
/// part without leading zeros, `.`, then exactly six fractional digits.
pub open spec fn spec_format_fixed(v: int) -> Seq<u8> {
    let m = if v < 0 { -v } else { v };
    let sign: Seq<u8> = if v < 0 { seq![45u8] } else { Seq::<u8>::empty() };
    sign + dec_digits((m / (FIX_ONE as int)) as nat) + seq![46u8] + fixed_digits(
        (m % (FIX_ONE as int)) as nat,
        6,
    )
}

/// Emit the decimal digits of `n`, most significant first.
fn push_dec(n: u64, out: &mut Vec<u8>)
    ensures
        final(out)@ == old(out)@ + dec_digits(n as nat),
    decreases n,
{
    if n < 10 {
        out.push((48 + n) as u8);
    } else {
        push_dec(n / 10, out);
        out.push((48 + n % 10) as u8);
        proof {
            assert(out@ =~= old(out)@ + dec_digits(n as nat));
        }
    }
}

/// Emit exactly `k` digits of `n`, zero-padded on the left.
fn push_fixed(n: u64, k: u64, out: &mut Vec<u8>)
    ensures
        final(out)@ == old(out)@ + fixed_digits(n as nat, k as nat),
    decreases k,
{
    if k > 0 {
        push_fixed(n / 10, k - 1, out);
        out.push((48 + n % 10) as u8);
        proof {
            assert(out@ =~= old(out)@ + fixed_digits(n as nat, k as nat));
        }
    } else {
        proof {
            assert(out@ =~= old(out)@ + fixed_digits(n as nat, 0));
        }
    }
}

/// Serialize a fixed-point value as decimal text.
pub fn format_fixed(v: i64) -> (r: Vec<u8>)
    ensures
        r@ == spec_format_fixed(v as int),
{
    let mut out: Vec<u8> = Vec::new();
    let m: u64 = if v < 0 {
        out.push(45);
        (-(v as i128)) as u64
    } else {
        v as u64
    };
    push_dec(m / (FIX_ONE as u64), &mut out);
    out.push(46);
    push_fixed(m % (FIX_ONE as u64), 6, &mut out);
    proof {
        assert(out@ =~= spec_format_fixed(v as int));
    }
    out
}

/// `r == all_digits(s)`, decided by scanning.
pub fn check_digits(s: &[u8]) -> (r: bool)
    ensures
        r == all_digits(s@),
{
    let mut i: usize = 0;
    while i < s.len()
        invariant
            0 <= i <= s.len(),
            forall|j: int| 0 <= j < i ==> is_digit(#[trigger] s@[j]),
        decreases s.len() - i,
    {
        let b: u8 = s[i];
        if b < 48 || b > 57 {
            proof {
                assert(!is_digit(s@[i as int]));
            }
            return false;
        }
        i = i + 1;
    }
    true
}

/// The value of a digit run of at most 18 digits.
fn digits_to_u64(s: &[u8]) -> (r: u64)
    requires
        all_digits(s@),
        s@.len() <= 18,
    ensures
        r as int == digits_val(s@),
{
    let mut val: u64 = 0;
    let mut i: usize = 0;
    proof {
        assert(s@.take(0) =~= Seq::<u8>::empty());
    }
    while i < s.len()
        invariant
            0 <= i <= s.len(),
            s@.len() <= 18,
            all_digits(s@),
            val == digits_val(s@.take(i as int)),
            val < pow10(i as nat),
        decreases s.len() - i,
    {
        proof {
            lemma_pow10_mono((i + 1) as nat, 18);
            lemma_pow10_vals();
            assert(is_digit(s@[i as int]));
        }
        let b: u8 = s[i];
        val = val * 10 + ((b - 48) as u64);
        i = i + 1;
        proof {
            assert(s@.take(i as int).drop_last() =~= s@.take(i as int - 1));
        }
    }
    proof {
        assert(s@.take(s.len() as int) =~= s@);
    }
    val
}

/// The value of the first six fractional digits, zero-padded.
fn frac_value(fp: &[u8]) -> (r: u64)
    requires
        all_digits(fp@),
    ensures
        r as int == digits_val(frac6(fp@)),
        r < 1_000_000,
{
    let mut f: u64 = 0;
    let mut j: usize = 0;
    proof {
        assert(frac6(fp@).take(0) =~= Seq::<u8>::empty());
        lemma_pow10_vals();
    }
    while j < 6
        invariant
            0 <= j <= 6,
            all_digits(fp@),
            f == digits_val(frac6(fp@).take(j as int)),
            f < pow10(j as nat),
        decreases 6 - j,
    {
        let dg: u8 = if j < fp.len() {
            proof {
                assert(is_digit(fp@[j as int]));
            }
            fp[j] - 48
        } else {
            0
        };
        proof {
            lemma_pow10_mono((j + 1) as nat, 6);
            lemma_pow10_vals();
            assert(frac6(fp@)[j as int] == if j < fp@.len() {
                fp@[j as int]
            } else {
                48u8
            });
        }
        f = f * 10 + (dg as u64);
        j = j + 1;
        proof {
            assert(frac6(fp@).take(j as int).drop_last() =~= frac6(fp@).take(j as int - 1));
        }
    }
    proof {
        assert(frac6(fp@).take(6) =~= frac6(fp@));
        lemma_pow10_vals();
    }
    f
}

/// Parse the unsigned part of a decimal literal; the result is exact (not
/// yet clamped to `i64`).
fn parse_decimal_unsigned(s: &[u8]) -> (r: Option<i128>)
    ensures
        r is Some ==> spec_parse_decimal_unsigned(s@) == Some(r->0 as int) && r->0 >= 0,
        r is None ==> spec_parse_decimal_unsigned(s@) is None,
{
    let mut d: usize = 0;
    while d < s.len() && s[d] != 46
        invariant
            0 <= d <= s.len(),
            forall|j: int| 0 <= j < d ==> s@[j] != 46,
        decreases s.len() - d,
    {
        d = d + 1;
    }
    let ip: &[u8];
    let fp: &[u8];
    if d < s.len() {
        proof {
            lemma_first_dot_at(s@, d as int);
        }
        ip = vstd::slice::slice_subrange(s, 0, d);
        fp = vstd::slice::slice_subrange(s, d + 1, s.len());
        proof {
            assert(ip@ =~= s@.take(d as int));
            assert(fp@ =~= s@.skip(d as int + 1));
        }
    } else {
        ip = s;
        fp = vstd::slice::slice_subrange(s, d, d);
        proof {
            assert(!has_dot(s@));
            assert(fp@ =~= Seq::<u8>::empty());
        }
    }
    if ip.len() > 13 {
        return None;
    }
    if !check_digits(ip) {
        return None;
    }
    if !check_digits(fp) {
        return None;
    }
    if ip.len() == 0 && fp.len() == 0 {
        return None;
    }
    proof {
        lemma_digits_val_bound(ip@, 13);
        lemma_pow10_vals();
    }
    let ipv: u64 = digits_to_u64(ip);
    let f: u64 = frac_value(fp);
    proof {
        assert((ipv as int) * (FIX_ONE as int) + (f as int) < i128::MAX as int)
            by (nonlinear_arith)
            requires
                0 <= ipv as int <= u64::MAX as int,
                0 <= f as int <= u64::MAX as int;
    }
    let wide: i128 = (ipv as i128) * (FIX_ONE as i128) + (f as i128);
    Some(wide)
}

/// Parse a decimal literal into a fixed-point value, clamped to `i64`.
pub fn parse_decimal(s: &[u8]) -> (r: Option<i64>)
    ensures
        r is Some ==> spec_parse_decimal(s@) == Some(r->0 as int),
        r is None ==> spec_parse_decimal(s@) is None,
{
    if s.len() > 0 && (s[0] == 45 || s[0] == 43) {
        let neg: bool = s[0] == 45;
        let rest: &[u8] = vstd::slice::slice_subrange(s, 1, s.len());
        proof {
            assert(rest@ =~= s@.skip(1));
        }
        match parse_decimal_unsigned(rest) {
            Some(v) => {
                let signed: i128 = if neg {
                    -v
                } else {
                    v
                };
                Some(crate::fixed::sat_i64_exec(signed))
            },
            None => None,
        }
    } else {
        match parse_decimal_unsigned(s) {
            Some(v) => Some(crate::fixed::sat_i64_exec(v)),
            None => None,
        }
    }
}

/// Serialization round trip: a fixed-point value printed by `format_fixed`
/// parses back to exactly the same value.
pub proof fn lemma_decimal_round_trip(v: i64)
    ensures
        spec_parse_decimal(spec_format_fixed(v as int)) == Some(v as int),
{
    let m: int = if v < 0 { -(v as int) } else { v as int };
    let ipn: nat = (m / (FIX_ONE as int)) as nat;
    let fr: nat = (m % (FIX_ONE as int)) as nat;
    let ipd = dec_digits(ipn);
    let frd = fixed_digits(fr, 6);
    let u = ipd + seq![46u8] + frd;
    lemma_dec_digits_val(ipn);
    lemma_pow10_vals();
    vstd::arithmetic::div_mod::lemma_fundamental_div_mod(m, FIX_ONE as int);
    lemma_fixed_digits_val(fr, 6);
    lemma_dec_digits_len(ipn, 13);
    let ld = ipd.len() as int;
    assert(u[ld] == 46);
    assert(forall|j: int| 0 <= j < ld ==> u[j] != 46) by {
        assert(forall|j: int| 0 <= j < ld ==> u[j] == #[trigger] ipd[j] && is_digit(ipd[j]));
    }
    lemma_first_dot_at(u, ld);
    assert(u.take(ld) =~= ipd);
    assert(u.skip(ld + 1) =~= frd);
    assert(frac6(frd) =~= frd);
    assert(spec_parse_decimal_unsigned(u) == Some(m));
    if v < 0 {
        let s = spec_format_fixed(v as int);
        assert(s =~= seq![45u8] + u);
        assert(s[0] == 45);
        assert(s.skip(1) =~= u);
        assert(crate::fixed::sat_i64(-m) == v as int);
    } else {
        let s = spec_format_fixed(v as int);
        assert(s =~= u);
        assert(s.len() > 0 && s[0] != 45 && s[0] != 43) by {
            assert(s[0] == ipd[0] && is_digit(ipd[0]));
        }
        assert(crate::fixed::sat_i64(m) == v as int);
    }
}


/// Whether `b` is ASCII whitespace.
pub open spec fn is_space(b: u8) -> bool {
    b == 32 || b == 9 || b == 10 || b == 13 || b == 12 || b == 11
}

/// The run of whitespace at the front of `s`.
pub open spec fn ws_prefix(s: Seq<u8>) -> int
    decreases s.len(),
{
    if s.len() == 0 || !is_space(s[0]) {
        0
    } else {
        1 + ws_prefix(s.skip(1))
    }
}

/// The run of whitespace at the back of `s`.
pub open spec fn ws_suffix(s: Seq<u8>) -> int
    decreases s.len(),
{
    if s.len() == 0 || !is_space(s.last()) {
        0
    } else {
        1 + ws_suffix(s.drop_last())
    }
}

proof fn lemma_ws_prefix_bounds(s: Seq<u8>)
    ensures
        0 <= ws_prefix(s) <= s.len(),
        forall|i: int| 0 <= i < ws_prefix(s) ==> is_space(#[trigger] s[i]),
        ws_prefix(s) < s.len() ==> !is_space(s[ws_prefix(s)]),
    decreases s.len(),
{
    if s.len() > 0 && is_space(s[0]) {
        lemma_ws_prefix_bounds(s.skip(1));
        assert forall|i: int| 0 <= i < ws_prefix(s) implies is_space(#[trigger] s[i]) by {
            if i > 0 {
                assert(s.skip(1)[i - 1] == s[i]);
            }
        }
        if ws_prefix(s) < s.len() {
            assert(s.skip(1)[ws_prefix(s) - 1] == s[ws_prefix(s)]);
        }
    }
}

proof fn lemma_ws_suffix_bounds(s: Seq<u8>)
    ensures
        0 <= ws_suffix(s) <= s.len(),
        forall|i: int| s.len() - ws_suffix(s) <= i < s.len() ==> is_space(#[trigger] s[i]),
        ws_suffix(s) < s.len() ==> !is_space(s[s.len() - ws_suffix(s) - 1]),
    decreases s.len(),
{
    if s.len() > 0 && is_space(s.last()) {
        lemma_ws_suffix_bounds(s.drop_last());
        assert forall|i: int| s.len() - ws_suffix(s) <= i < s.len() implies
            is_space(#[trigger] s[i]) by {
            if i < s.len() - 1 {
                assert(s.drop_last()[i] == s[i]);
            }
        }
        if ws_suffix(s) < s.len() {
            assert(s.drop_last()[s.len() - ws_suffix(s) - 1]
                == s[s.len() - ws_suffix(s) - 1]);
        }
    }
}

/// `s` with leading and trailing whitespace removed.
pub open spec fn spec_trim(s: Seq<u8>) -> Seq<u8> {
    let t = s.skip(ws_prefix(s));
    t.take(t.len() - ws_suffix(t))
}

/// Trim ASCII whitespace from both ends.
pub fn trim(s: &[u8]) -> (r: &[u8])
    ensures
        r@ == spec_trim(s@),
{
    proof {
        lemma_ws_prefix_bounds(s@);
    }
    let mut a: usize = 0;
    while a < s.len() && (s[a] == 32 || s[a] == 9 || s[a] == 10 || s[a] == 13 || s[a] == 12
        || s[a] == 11)
        invariant
            0 <= a <= s@.len(),
            forall|i: int| 0 <= i < a ==> is_space(#[trigger] s@[i]),
        decreases s@.len() - a,
    {
        a = a + 1;
    }
    proof {
        lemma_ws_run_prefix(s@, a as int);
    }
    let mut b: usize = s.len();
    while b > a && (s[b - 1] == 32 || s[b - 1] == 9 || s[b - 1] == 10 || s[b - 1] == 13
        || s[b - 1] == 12 || s[b - 1] == 11)
        invariant
            a <= b <= s@.len(),
            forall|i: int| b <= i < s@.len() ==> is_space(#[trigger] s@[i]),
        decreases b,
    {
        b = b - 1;
    }
    let r: &[u8] = vstd::slice::slice_subrange(s, a, b);
    proof {
        let t = s@.skip(a as int);
        assert forall|i: int| (b as int - a as int) <= i < t.len() implies
            is_space(#[trigger] t[i]) by {
            assert(t[i] == s@[a as int + i]);
        }
        if b > a {
            assert(t[b as int - a as int - 1] == s@[b as int - 1]);
            assert(!is_space(t[b as int - a as int - 1]));
        }
        lemma_ws_run_suffix(t, t.len() - (b as int - a as int));
        assert(r@ =~= spec_trim(s@));
    }
    r
}

/// A whitespace run at the front of length `n`, ended by a non-space, pins
/// down `ws_prefix`.
proof fn lemma_ws_run_prefix(s: Seq<u8>, n: int)
    requires
        0 <= n <= s.len(),
        forall|i: int| 0 <= i < n ==> is_space(#[trigger] s[i]),
        n < s.len() ==> !is_space(s[n]),
    ensures
        ws_prefix(s) == n,
    decreases n,
{
    if n > 0 {
        assert forall|i: int| 0 <= i < n - 1 implies is_space(#[trigger] s.skip(1)[i]) by {
            assert(s.skip(1)[i] == s[i + 1]);
        }
        if n - 1 < s.skip(1).len() {
            assert(s.skip(1)[n - 1] == s[n]);
        }
        lemma_ws_run_prefix(s.skip(1), n - 1);
    }
}

/// A whitespace run at the back of length `n`, preceded by a non-space,
/// pins down `ws_suffix`.
proof fn lemma_ws_run_suffix(s: Seq<u8>, n: int)
    requires
        0 <= n <= s.len(),
        forall|i: int| s.len() - n <= i < s.len() ==> is_space(#[trigger] s[i]),
        n < s.len() ==> !is_space(s[s.len() - n - 1]),
    ensures
        ws_suffix(s) == n,
    decreases n,
{
    if n > 0 {
        assert(is_space(s.last()));
        assert forall|i: int| s.drop_last().len() - (n - 1) <= i < s.drop_last().len() implies
            is_space(#[trigger] s.drop_last()[i]) by {
            assert(s.drop_last()[i] == s[i]);
        }
        if n - 1 < s.drop_last().len() {
            assert(s.drop_last()[s.drop_last().len() - (n - 1) - 1]
                == s[s.len() - n - 1]);
        }
        lemma_ws_run_suffix(s.drop_last(), n - 1);
    }
}

/// Whether `b` occurs in `s`.
pub open spec fn has_byte(s: Seq<u8>, b: u8) -> bool {
    exists|i: int| 0 <= i < s.len() && #[trigger] s[i] == b
}

/// The index of the first occurrence of `b` (meaningful when `has_byte`).
pub open spec fn first_occ(s: Seq<u8>, b: u8) -> int
    decreases s.len(),
{
    if s.len() == 0 {
        0
    } else if s[0] == b {
        0
    } else {
        1 + first_occ(s.skip(1), b)
    }
}

pub proof fn lemma_first_occ_at(s: Seq<u8>, b: u8, i: int)
    requires
        0 <= i < s.len(),
        s[i] == b,
        forall|j: int| 0 <= j < i ==> s[j] != b,
    ensures
        first_occ(s, b) == i,
        has_byte(s, b),
    decreases i,
{
    if i > 0 {
        assert(s.skip(1)[i - 1] == b);
        lemma_first_occ_at(s.skip(1), b, i - 1);
    }
}

pub proof fn lemma_first_occ_bounds(s: Seq<u8>, b: u8)
    requires
        has_byte(s, b),
    ensures
        0 <= first_occ(s, b) < s.len(),
        s[first_occ(s, b)] == b,
        forall|j: int| 0 <= j < first_occ(s, b) ==> s[j] != b,
    decreases s.len(),
{
    if s.len() > 0 && s[0] != b {
        let w = choose|i: int| 0 <= i < s.len() && #[trigger] s[i] == b;
        assert(s.skip(1)[w - 1] == b);
        lemma_first_occ_bounds(s.skip(1), b);
        assert forall|j: int| 0 <= j < first_occ(s, b) implies s[j] != b by {
            if j > 0 {
                assert(s.skip(1)[j - 1] == s[j]);
            }
        }
        assert(s[first_occ(s, b)] == s.skip(1)[first_occ(s.skip(1), b)]);
    }
}

/// Find the first occurrence of `b` in `s`.
pub fn find_byte(s: &[u8], b: u8) -> (r: Option<usize>)
    ensures
        r is Some ==> has_byte(s@, b) && r->0 as int == first_occ(s@, b)
            && r->0 < s@.len(),
        r is None ==> !has_byte(s@, b),
{
    let mut i: usize = 0;
    while i < s.len()
        invariant
            0 <= i <= s@.len(),
            forall|j: int| 0 <= j < i ==> s@[j] != b,
        decreases s@.len() - i,
    {
        if s[i] == b {
            proof {
                lemma_first_occ_at(s@, b, i as int);
            }
            return Some(i);
        }
        i = i + 1;
    }
    None
}

/// The segments of `s` between occurrences of `sep` (empty segments kept,
/// one more segment than separators).
pub open spec fn spec_split(s: Seq<u8>, sep: u8) -> Seq<Seq<u8>>
    decreases s.len(),
    via spec_split_dec
{
    if !has_byte(s, sep) {
        seq![s]
    } else {
        seq![s.take(first_occ(s, sep))] + spec_split(s.skip(first_occ(s, sep) + 1), sep)
    }
}

#[via_fn]
proof fn spec_split_dec(s: Seq<u8>, sep: u8) {
    if has_byte(s, sep) {
        lemma_first_occ_bounds(s, sep);
    }
}

/// Split `s` at every occurrence of `sep`.
pub fn split_bytes(s: &[u8], sep: u8) -> (r: Vec<Vec<u8>>)
    ensures
        r@.map_values(|v: Vec<u8>| v@) == spec_split(s@, sep),
{
    let mut out: Vec<Vec<u8>> = Vec::new();
    let mut rest: &[u8] = s;
    loop
        invariant
            spec_split(s@, sep) =~~= out@.map_values(|v: Vec<u8>| v@) + spec_split(rest@, sep),
        decreases rest@.len(),
    {
        let ghost o0 = out@;
        match find_byte(rest, sep) {
            Some(p) => {
                let rlen: usize = rest.len();
                proof {
                    assert(p < rlen);
                }
                let seg: &[u8] = vstd::slice::slice_subrange(rest, 0, p);
                let mut segv: Vec<u8> = Vec::new();
                append_bytes(&mut segv, seg);
                out.push(segv);
                let new_rest: &[u8] = vstd::slice::slice_subrange(rest, p + 1, rlen);
                proof {
                    assert(seg@ =~= rest@.take(p as int));
                    assert(new_rest@ =~= rest@.skip(p as int + 1));
                    assert(out@.map_values(|v: Vec<u8>| v@) =~~= o0.map_values(
                        |v: Vec<u8>| v@).push(seg@));
                    assert(spec_split(rest@, sep) == seq![rest@.take(p as int)] + spec_split(
                        new_rest@, sep));
                }
                rest = new_rest;
            },
            None => {
                let mut segv: Vec<u8> = Vec::new();
                append_bytes(&mut segv, rest);
                out.push(segv);
                proof {
                    assert(spec_split(rest@, sep) =~~= seq![rest@]);
                    assert(out@.map_values(|v: Vec<u8>| v@) =~~= o0.map_values(
                        |v: Vec<u8>| v@).push(rest@));
                    assert(out@.map_values(|v: Vec<u8>| v@) =~~= spec_split(s@, sep));
                }
                return out;
            },
        }
    }
}

/// Append a byte slice to a vector.
pub fn append_bytes(dst: &mut Vec<u8>, src: &[u8])
    ensures
        final(dst)@ == old(dst)@ + src@,
{
    let mut i: usize = 0;
    while i < src.len()
        invariant
            0 <= i <= src@.len(),
            dst@ =~= old(dst)@ + src@.take(i as int),
        decreases src@.len() - i,
    {
        dst.push(src[i]);
        i = i + 1;
        proof {
            assert(dst@ =~= old(dst)@ + src@.take(i as int));
        }
    }
    proof {
        assert(old(dst)@ + src@.take(src@.len() as int) =~= old(dst)@ + src@);
    }
}

/// Append every point of `src` to `dst`.
pub fn append_points(dst: &mut Vec<crate::geom::Point>, src: &Vec<crate::geom::Point>)
    ensures
        final(dst)@ == old(dst)@ + src@,
{
    let mut i: usize = 0;
    while i < src.len()
        invariant
            0 <= i <= src@.len(),
            dst@ =~= old(dst)@ + src@.take(i as int),
        decreases src@.len() - i,
    {
        dst.push(src[i]);
        i = i + 1;
        proof {
            assert(dst@ =~= old(dst)@ + src@.take(i as int));
        }
    }
    proof {
        assert(old(dst)@ + src@.take(src@.len() as int) =~= old(dst)@ + src@);
    }
}

/// Whether `s` starts with `p`.
pub open spec fn spec_starts_with(s: Seq<u8>, p: Seq<u8>) -> bool {
    p.len() <= s.len() && s.take(p.len() as int) == p
}

/// Test a byte prefix.
pub fn starts_with(s: &[u8], p: &[u8]) -> (r: bool)
    ensures
        r == spec_starts_with(s@, p@),
{
    if p.len() > s.len() {
        proof {
            assert(!spec_starts_with(s@, p@));
        }
        return false;
    }
    let mut i: usize = 0;
    while i < p.len()
        invariant
            0 <= i <= p@.len(),
            p@.len() <= s@.len(),
            forall|j: int| 0 <= j < i ==> s@[j] == p@[j],
        decreases p@.len() - i,
    {
        if s[i] != p[i] {
            proof {
                assert(s@.take(p@.len() as int)[i as int] != p@[i as int]);
            }
            return false;
        }
        i = i + 1;
    }
    proof {
        assert(s@.take(p@.len() as int) =~= p@);
    }
    true
}

/// Byte-wise equality.
pub fn bytes_eq(a: &[u8], b: &[u8]) -> (r: bool)
    ensures
        r == (a@ == b@),
{
    if a.len() != b.len() {
        proof {
            assert(a@.len() != b@.len());
        }
        return false;
    }
    let mut i: usize = 0;
    while i < a.len()
        invariant
            0 <= i <= a@.len(),
            a@.len() == b@.len(),
            forall|j: int| 0 <= j < i ==> a@[j] == b@[j],
        decreases a@.len() - i,
    {
        if a[i] != b[i] {
            return false;
        }
        i = i + 1;
    }
    proof {
        assert(a@ =~= b@);
    }
    true
}

/// The run of trailing bytes equal to `b`.
pub open spec fn suffix_run(s: Seq<u8>, b: u8) -> int
    decreases s.len(),
{
    if s.len() == 0 || s.last() != b {
        0
    } else {
        1 + suffix_run(s.drop_last(), b)
    }
}

/// The run of leading bytes equal to `b`.
pub open spec fn prefix_run(s: Seq<u8>, b: u8) -> int
    decreases s.len(),
{
    if s.len() == 0 || s[0] != b {
        0
    } else {
        1 + prefix_run(s.skip(1), b)
    }
}

/// `s` with every trailing `b` removed.
pub open spec fn spec_trim_end(s: Seq<u8>, b: u8) -> Seq<u8> {
    s.take(s.len() - suffix_run(s, b))
}

/// `s` with every leading `b` removed.
pub open spec fn spec_trim_start(s: Seq<u8>, b: u8) -> Seq<u8> {
    s.skip(prefix_run(s, b))
}

proof fn lemma_suffix_run_bounds(s: Seq<u8>, b: u8)
    ensures
        0 <= suffix_run(s, b) <= s.len(),
        forall|i: int| s.len() - suffix_run(s, b) <= i < s.len() ==> #[trigger] s[i] == b,
        suffix_run(s, b) < s.len() ==> s[s.len() - suffix_run(s, b) - 1] != b,
    decreases s.len(),
{
    if s.len() > 0 && s.last() == b {
        lemma_suffix_run_bounds(s.drop_last(), b);
        assert forall|i: int| s.len() - suffix_run(s, b) <= i < s.len() implies
            #[trigger] s[i] == b by {
            if i < s.len() - 1 {
                assert(s.drop_last()[i] == s[i]);
            }
        }
        if suffix_run(s, b) < s.len() {
            assert(s.drop_last()[s.drop_last().len() - suffix_run(s.drop_last(), b) - 1]
                == s[s.len() - suffix_run(s, b) - 1]);
        }
    }
}

proof fn lemma_prefix_run_bounds(s: Seq<u8>, b: u8)
    ensures
        0 <= prefix_run(s, b) <= s.len(),
        forall|i: int| 0 <= i < prefix_run(s, b) ==> #[trigger] s[i] == b,
        prefix_run(s, b) < s.len() ==> s[prefix_run(s, b)] != b,
    decreases s.len(),
{
    if s.len() > 0 && s[0] == b {
        lemma_prefix_run_bounds(s.skip(1), b);
        assert forall|i: int| 0 <= i < prefix_run(s, b) implies #[trigger] s[i] == b by {
            if i > 0 {
                assert(s.skip(1)[i - 1] == s[i]);
            }
        }
        if prefix_run(s, b) < s.len() {
            assert(s.skip(1)[prefix_run(s, b) - 1] == s[prefix_run(s, b)]);
        }
    }
}

proof fn lemma_suffix_run_from_scan(s: Seq<u8>, b: u8, n: int)
    requires
        0 <= n <= s.len(),
        forall|i: int| s.len() - n <= i < s.len() ==> #[trigger] s[i] == b,
        n < s.len() ==> s[s.len() - n - 1] != b,
    ensures
        suffix_run(s, b) == n,
    decreases n,
{
    if n > 0 {
        assert(s.last() == b);
        assert forall|i: int| s.drop_last().len() - (n - 1) <= i < s.drop_last().len() implies
            #[trigger] s.drop_last()[i] == b by {
            assert(s.drop_last()[i] == s[i]);
        }
        if n - 1 < s.drop_last().len() {
            assert(s.drop_last()[s.drop_last().len() - (n - 1) - 1] == s[s.len() - n - 1]);
        }
        lemma_suffix_run_from_scan(s.drop_last(), b, n - 1);
    }
}

proof fn lemma_prefix_run_from_scan(s: Seq<u8>, b: u8, n: int)
    requires
        0 <= n <= s.len(),
        forall|i: int| 0 <= i < n ==> #[trigger] s[i] == b,
        n < s.len() ==> s[n] != b,
    ensures
        prefix_run(s, b) == n,
    decreases n,
{
    if n > 0 {
        assert forall|i: int| 0 <= i < n - 1 implies #[trigger] s.skip(1)[i] == b by {
            assert(s.skip(1)[i] == s[i + 1]);
        }
        if n - 1 < s.skip(1).len() {
            assert(s.skip(1)[n - 1] == s[n]);
        }
        lemma_prefix_run_from_scan(s.skip(1), b, n - 1);
    }
}

/// Strip every trailing `b`.
pub fn trim_end_byte(s: &[u8], b: u8) -> (r: &[u8])
    ensures
        r@ == spec_trim_end(s@, b),
{
    proof {
        lemma_suffix_run_bounds(s@, b);
    }
    let mut e: usize = s.len();
    while e > 0 && s[e - 1] == b
        invariant
            0 <= e <= s@.len(),
            forall|i: int| e <= i < s@.len() ==> #[trigger] s@[i] == b,
        decreases e,
    {
        e = e - 1;
    }
    proof {
        lemma_suffix_run_from_scan(s@, b, s@.len() - e as int);
    }
    let r: &[u8] = vstd::slice::slice_subrange(s, 0, e);
    proof {
        assert(r@ =~= spec_trim_end(s@, b));
    }
    r
}

/// Strip every leading `b`.
pub fn trim_start_byte(s: &[u8], b: u8) -> (r: &[u8])
    ensures
        r@ == spec_trim_start(s@, b),
{
    proof {
        lemma_prefix_run_bounds(s@, b);
    }
    let mut a: usize = 0;
    while a < s.len() && s[a] == b
        invariant
            0 <= a <= s@.len(),
            forall|i: int| 0 <= i < a ==> #[trigger] s@[i] == b,
        decreases s@.len() - a,
    {
        a = a + 1;
    }
    proof {
        lemma_prefix_run_from_scan(s@, b, a as int);
    }
    let r: &[u8] = vstd::slice::slice_subrange(s, a, s.len());
    proof {
        assert(r@ =~= spec_trim_start(s@, b));
    }
    r
}


/// Whether `a` or `b` occurs in `s`.
pub open spec fn has_either(s: Seq<u8>, a: u8, b: u8) -> bool {
    exists|i: int| 0 <= i < s.len() && (#[trigger] s[i] == a || s[i] == b)
}

/// The index of the first occurrence of `a` or `b`.
pub open spec fn first_either(s: Seq<u8>, a: u8, b: u8) -> int
    decreases s.len(),
{
    if s.len() == 0 {
        0
    } else if s[0] == a || s[0] == b {
        0
    } else {
        1 + first_either(s.skip(1), a, b)
    }
}

proof fn lemma_first_either_at(s: Seq<u8>, a: u8, b: u8, i: int)
    requires
        0 <= i < s.len(),
        s[i] == a || s[i] == b,
        forall|j: int| 0 <= j < i ==> s[j] != a && s[j] != b,
    ensures
        first_either(s, a, b) == i,
        has_either(s, a, b),
    decreases i,
{
    if i > 0 {
        assert(s.skip(1)[i - 1] == s[i]);
        lemma_first_either_at(s.skip(1), a, b, i - 1);
    }
}

pub proof fn lemma_first_either_bounds(s: Seq<u8>, a: u8, b: u8)
    requires
        has_either(s, a, b),
    ensures
        0 <= first_either(s, a, b) < s.len(),
    decreases s.len(),
{
    if s.len() > 0 && s[0] != a && s[0] != b {
        let w = choose|i: int| 0 <= i < s.len() && (#[trigger] s[i] == a || s[i] == b);
        assert(s.skip(1)[w - 1] == s[w]);
        lemma_first_either_bounds(s.skip(1), a, b);
    }
}

/// The segments of `s` between occurrences of `a` or `b`.
pub open spec fn spec_split2(s: Seq<u8>, a: u8, b: u8) -> Seq<Seq<u8>>
    decreases s.len(),
    via spec_split2_dec
{
    if !has_either(s, a, b) {
        seq![s]
    } else {
        seq![s.take(first_either(s, a, b))] + spec_split2(
            s.skip(first_either(s, a, b) + 1),
            a,
            b,
        )
    }
}

#[via_fn]
proof fn spec_split2_dec(s: Seq<u8>, a: u8, b: u8) {
    if has_either(s, a, b) {
        lemma_first_either_bounds(s, a, b);
    }
}

/// Split `s` at every occurrence of `a` or `b`.
pub fn split_bytes2(s: &[u8], a: u8, b: u8) -> (r: Vec<Vec<u8>>)
    ensures
        r@.map_values(|v: Vec<u8>| v@) == spec_split2(s@, a, b),
{
    let mut out: Vec<Vec<u8>> = Vec::new();
    let mut rest: &[u8] = s;
    loop
        invariant
            spec_split2(s@, a, b) =~~= out@.map_values(|v: Vec<u8>| v@) + spec_split2(
                rest@, a, b),
        decreases rest@.len(),
    {
        let ghost o0 = out@;
        let mut p: usize = 0;
        let mut found: bool = false;
        while p < rest.len() && !found
            invariant
                0 <= p <= rest@.len(),
                found ==> p >= 1 && (rest@[p - 1] == a || rest@[p - 1] == b)
                    && (forall|j: int| 0 <= j < p - 1 ==> rest@[j] != a && rest@[j] != b),
                !found ==> forall|j: int| 0 <= j < p ==> rest@[j] != a && rest@[j] != b,
            decreases rest@.len() - p,
        {
            if rest[p] == a || rest[p] == b {
                found = true;
            }
            p = p + 1;
        }
        if found {
            let cut: usize = p - 1;
            proof {
                lemma_first_either_at(rest@, a, b, cut as int);
            }
            let seg: &[u8] = vstd::slice::slice_subrange(rest, 0, cut);
            let mut segv: Vec<u8> = Vec::new();
            append_bytes(&mut segv, seg);
            out.push(segv);
            let rl: usize = rest.len();
            let new_rest: &[u8] = vstd::slice::slice_subrange(rest, cut + 1, rl);
            proof {
                assert(seg@ =~= rest@.take(cut as int));
                assert(new_rest@ =~= rest@.skip(cut as int + 1));
                assert(out@.map_values(|v: Vec<u8>| v@) =~~= o0.map_values(
                    |v: Vec<u8>| v@).push(seg@));
                assert(spec_split2(rest@, a, b) == seq![rest@.take(cut as int)] + spec_split2(
                    new_rest@, a, b));
            }
            rest = new_rest;
        } else {
            proof {
                assert(!has_either(rest@, a, b));
            }
            let mut segv: Vec<u8> = Vec::new();
            append_bytes(&mut segv, rest);
            out.push(segv);
            proof {
                assert(spec_split2(rest@, a, b) =~~= seq![rest@]);
                assert(out@.map_values(|v: Vec<u8>| v@) =~~= o0.map_values(
                    |v: Vec<u8>| v@).push(rest@));
                assert(out@.map_values(|v: Vec<u8>| v@) =~~= spec_split2(s@, a, b));
            }
            return out;
        }
    }
}


/// The run of non-whitespace at the front of `s`.
pub open spec fn word_run(s: Seq<u8>) -> int
    decreases s.len(),
{
    if s.len() == 0 || is_space(s[0]) {
        0
    } else {
        1 + word_run(s.skip(1))
    }
}

proof fn lemma_word_ws_bounds(s: Seq<u8>)
    ensures
        0 <= word_run(s) <= s.len(),
        0 <= ws_prefix(s) <= s.len(),
    decreases s.len(),
{
    if s.len() > 0 {
        lemma_word_ws_bounds(s.skip(1));
    }
}

/// The whitespace-separated words of `s`, in order, without empties.
pub open spec fn spec_split_ws(s: Seq<u8>) -> Seq<Seq<u8>>
    decreases s.len(),
    via spec_split_ws_dec
{
    if s.len() == 0 {
        Seq::<Seq<u8>>::empty()
    } else if is_space(s[0]) {
        spec_split_ws(s.skip(ws_prefix(s)))
    } else {
        seq![s.take(word_run(s))] + spec_split_ws(s.skip(word_run(s)))
    }
}

#[via_fn]
proof fn spec_split_ws_dec(s: Seq<u8>) {
    lemma_word_ws_bounds(s);
    if s.len() > 0 {
        lemma_word_ws_bounds(s.skip(1));
        if is_space(s[0]) {
            assert(ws_prefix(s) >= 1);
        } else {
            assert(word_run(s) >= 1);
        }
    }
}

proof fn lemma_word_run_from_scan(s: Seq<u8>, n: int)
    requires
        0 <= n <= s.len(),
        forall|i: int| 0 <= i < n ==> !is_space(#[trigger] s[i]),
        n < s.len() ==> is_space(s[n]),
    ensures
        word_run(s) == n,
    decreases n,
{
    if n > 0 {
        assert forall|i: int| 0 <= i < n - 1 implies !is_space(#[trigger] s.skip(1)[i]) by {
            assert(s.skip(1)[i] == s[i + 1]);
        }
        if n - 1 < s.skip(1).len() {
            assert(s.skip(1)[n - 1] == s[n]);
        }
        lemma_word_run_from_scan(s.skip(1), n - 1);
    }
}

proof fn lemma_ws_prefix_from_scan(s: Seq<u8>, n: int)
    requires
        0 <= n <= s.len(),
        forall|i: int| 0 <= i < n ==> is_space(#[trigger] s[i]),
        n < s.len() ==> !is_space(s[n]),
    ensures
        ws_prefix(s) == n,
    decreases n,
{
    if n > 0 {
        assert forall|i: int| 0 <= i < n - 1 implies is_space(#[trigger] s.skip(1)[i]) by {
            assert(s.skip(1)[i] == s[i + 1]);
        }
        if n - 1 < s.skip(1).len() {
            assert(s.skip(1)[n - 1] == s[n]);
        }
        lemma_ws_prefix_from_scan(s.skip(1), n - 1);
    }
}

/// Split on whitespace runs, dropping empties.
pub fn split_whitespace_bytes(s: &[u8]) -> (r: Vec<Vec<u8>>)
    ensures
        r@.map_values(|v: Vec<u8>| v@) == spec_split_ws(s@),
{
    let mut out: Vec<Vec<u8>> = Vec::new();
    let mut rest: &[u8] = s;
    proof {
        assert(out@.map_values(|v: Vec<u8>| v@) =~~= Seq::<Seq<u8>>::empty());
        assert(Seq::<Seq<u8>>::empty() + spec_split_ws(s@) =~~= spec_split_ws(s@));
    }
    loop
        invariant
            spec_split_ws(s@) =~~= out@.map_values(|v: Vec<u8>| v@) + spec_split_ws(rest@),
        decreases rest@.len(),
    {
        let ghost o0 = out@;
        if rest.len() == 0 {
            proof {
                assert(spec_split_ws(rest@) =~~= Seq::<Seq<u8>>::empty());
                assert(out@.map_values(|v: Vec<u8>| v@) + Seq::<Seq<u8>>::empty()
                    =~~= out@.map_values(|v: Vec<u8>| v@));
            }
            return out;
        }
        let b0: u8 = rest[0];
        if b0 == 32 || b0 == 9 || b0 == 10 || b0 == 13 || b0 == 12 || b0 == 11 {
            let mut a: usize = 0;
            while a < rest.len() && (rest[a] == 32 || rest[a] == 9 || rest[a] == 10
                || rest[a] == 13 || rest[a] == 12 || rest[a] == 11)
                invariant
                    0 <= a <= rest@.len(),
                    forall|i: int| 0 <= i < a ==> is_space(#[trigger] rest@[i]),
                decreases rest@.len() - a,
            {
                a = a + 1;
            }
            proof {
                lemma_ws_prefix_from_scan(rest@, a as int);
            }
            let rl: usize = rest.len();
            let nr: &[u8] = vstd::slice::slice_subrange(rest, a, rl);
            proof {
                assert(nr@ =~= rest@.skip(a as int));
            }
            rest = nr;
        } else {
            let mut a: usize = 0;
            while a < rest.len() && !(rest[a] == 32 || rest[a] == 9 || rest[a] == 10
                || rest[a] == 13 || rest[a] == 12 || rest[a] == 11)
                invariant
                    0 <= a <= rest@.len(),
                    forall|i: int| 0 <= i < a ==> !is_space(#[trigger] rest@[i]),
                decreases rest@.len() - a,
            {
                a = a + 1;
            }
            proof {
                lemma_word_run_from_scan(rest@, a as int);
                assert(a >= 1);
            }
            let word: &[u8] = vstd::slice::slice_subrange(rest, 0, a);
            let mut wv: Vec<u8> = Vec::new();
            append_bytes(&mut wv, word);
            out.push(wv);
            let rl: usize = rest.len();
            let nr: &[u8] = vstd::slice::slice_subrange(rest, a, rl);
            proof {
                assert(word@ =~= rest@.take(a as int));
                assert(nr@ =~= rest@.skip(a as int));
                assert(out@.map_values(|v: Vec<u8>| v@) =~~= o0.map_values(
                    |v: Vec<u8>| v@).push(word@));
            }
            rest = nr;
        }
    }
}

} // verus!
