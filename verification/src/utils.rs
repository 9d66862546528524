//! The value codec: pure conversions from attribute or element text to
//! typed values.  Every conversion fails with a [`ParsingError`] on
//! malformed input and never panics.

use vstd::prelude::*;

use crate::bytes_util::lit;
use crate::bytes_util::name_is;
use crate::errors::ParsingError;
use crate::float_bits::spec_int_to_f64_bits;
use crate::float_bits::int_to_f64_bits;
use crate::float_bits::F64_INFINITY_BITS;
use crate::float_bits::F64_NEG_INFINITY_BITS;

verus! {

/// Whether every byte of `s` is an ASCII decimal digit.
pub open spec fn all_digits(s: Seq<u8>) -> bool {
    forall|i: int| 0 <= i < s.len() ==> 48 <= #[trigger] s[i] <= 57
}

/// The integer a digit string denotes (most significant digit first).
pub open spec fn digits_val(s: Seq<u8>) -> int
    decreases s.len(),
{
    if s.len() == 0 {
        0
    } else {
        digits_val(s.drop_last()) * 10 + s.last() - 48
    }
}

/// A digit string denotes a non-negative value.
pub proof fn lemma_digits_val_nonneg(s: Seq<u8>)
    requires
        all_digits(s),
    ensures
        digits_val(s) >= 0,
    decreases s.len(),
{
    if s.len() > 0 {
        assert(all_digits(s.drop_last())) by {
            assert(forall|i: int|
                0 <= i < s.drop_last().len() ==> s.drop_last()[i] == #[trigger] s[i]);
        }
        lemma_digits_val_nonneg(s.drop_last());
    }
}

/// Extending a digit string on the right never shrinks its value.
pub proof fn lemma_digits_val_prefix_le(s: Seq<u8>, i: int, j: int)
    requires
        all_digits(s),
        0 <= i <= j <= s.len(),
    ensures
        digits_val(s.take(i)) <= digits_val(s.take(j)),
    decreases j - i,
{
    if i < j {
        lemma_digits_val_prefix_le(s, i, j - 1);
        let t = s.take(j);
        assert(t.drop_last() =~= s.take(j - 1));
        assert(all_digits(s.take(j - 1))) by {
            assert(forall|k: int|
                0 <= k < s.take(j - 1).len() ==> s.take(j - 1)[k] == #[trigger] s[k]);
        }
        lemma_digits_val_nonneg(s.take(j - 1));
        assert(digits_val(t) == digits_val(s.take(j - 1)) * 10 + t.last() - 48);
        assert(48 <= t.last() <= 57);
        assert(digits_val(s.take(j - 1)) * 10 >= digits_val(s.take(j - 1))) by (nonlinear_arith)
            requires
                digits_val(s.take(j - 1)) >= 0,
        ;
    }
}

/// What [`parse_u64`] yields: the denoted integer for a non-empty,
/// all-digit string whose value fits in 64 bits, nothing otherwise.
pub open spec fn spec_parse_u64(s: Seq<u8>) -> Option<u64> {
    if s.len() > 0 && all_digits(s) && digits_val(s) <= u64::MAX {
        Some(digits_val(s) as u64)
    } else {
        None
    }
}

/// Diagnostic for a malformed unsigned integer.
pub open spec fn invalid_integer_msg() -> Seq<char> {
    "Invalid unsigned integer"@
}

/// Law: every non-empty decimal digit string whose value lies below 2^63
/// decodes to exactly the integer it denotes.
pub proof fn lemma_parse_u64_round_trip(s: Seq<u8>)
    requires
        s.len() > 0,
        all_digits(s),
        digits_val(s) < 0x8000000000000000,
    ensures
        spec_parse_u64(s) == Some(digits_val(s) as u64),
{
    lemma_digits_val_nonneg(s);
}

/// Decodes a strict decimal digit string into a `u64`.
pub fn parse_u64(value: &[u8]) -> (r: Result<u64, ParsingError>)
    ensures
        match r {
            Ok(n) => spec_parse_u64(value@) == Some(n),
            Err(e) => spec_parse_u64(value@) is None && e@ == invalid_integer_msg(),
        },
{
    let n = value.len();
    if n == 0 {
        return Err(ParsingError::new("Invalid unsigned integer"));
    }
    let mut acc: u64 = 0;
    let mut i: usize = 0;
    while i < n
        invariant
            0 < n == value@.len(),
            i <= n,
            all_digits(value@.take(i as int)),
            acc == digits_val(value@.take(i as int)),
        decreases n - i,
    {
        let b = value[i];
        if b < 48 || b > 57 {
            proof {
                assert(!all_digits(value@));
            }
            return Err(ParsingError::new("Invalid unsigned integer"));
        }
        let d = (b - 48) as u64;
        proof {
            assert(value@.take(i + 1).drop_last() =~= value@.take(i as int));
            assert(value@.take(i + 1).last() == value@[i as int]);
            assert(all_digits(value@.take(i + 1)));
        }
        if acc > (u64::MAX - d) / 10 {
            proof {
                assert(value@.take(value@.len() as int) =~= value@);
                assert(acc * 10 + d > u64::MAX) by (nonlinear_arith)
                    requires
                        acc > (u64::MAX - d) / 10,
                        0 <= d <= 9,
                ;
                if all_digits(value@) {
                    lemma_digits_val_prefix_le(value@, i + 1, value@.len() as int);
                    assert(digits_val(value@) > u64::MAX);
                }
            }
            return Err(ParsingError::new("Invalid unsigned integer"));
        }
        proof {
            assert(acc * 10 + d <= u64::MAX) by (nonlinear_arith)
                requires
                    acc <= (u64::MAX - d) / 10,
                    0 <= d <= 9,
            ;
        }
        acc = acc * 10 + d;
        i += 1;
    }
    proof {
        assert(value@.take(n as int) =~= value@);
        lemma_digits_val_nonneg(value@);
    }
    Ok(acc)
}

/// Diagnostic for a malformed boolean.
pub open spec fn invalid_boolean_msg() -> Seq<char> {
    "Invalid boolean value"@
}

/// What [`parse_bool`] yields: `true` and `false` for exactly those two
/// literal texts, nothing otherwise.
pub open spec fn spec_parse_bool(s: Seq<u8>) -> Option<bool> {
    if s == lit("true") {
        Some(true)
    } else if s == lit("false") {
        Some(false)
    } else {
        None
    }
}

/// Decodes the literal texts `true` and `false`.
pub fn parse_bool(value: &[u8]) -> (r: Result<bool, ParsingError>)
    ensures
        match r {
            Ok(b) => spec_parse_bool(value@) == Some(b),
            Err(e) => spec_parse_bool(value@) is None && e@ == invalid_boolean_msg(),
        },
{
    if name_is(value, "true") {
        Ok(true)
    } else if name_is(value, "false") {
        Ok(false)
    } else {
        Err(ParsingError::new("Invalid boolean value"))
    }
}

/// What [`parse_u64_or_bool`] yields, as a float bit pattern: positive
/// infinity for `true`, negative infinity for `false`, and the float value
/// of the integer for a decimal digit string.
pub open spec fn spec_parse_u64_or_bool(s: Seq<u8>) -> Option<u64> {
    if s == lit("true") {
        Some(F64_INFINITY_BITS)
    } else if s == lit("false") {
        Some(F64_NEG_INFINITY_BITS)
    } else {
        match spec_parse_u64(s) {
            Some(n) => Some(spec_int_to_f64_bits(n as nat)),
            None => None,
        }
    }
}

/// Decodes the tri-state numeric-or-boolean encoding: booleans map to the
/// two infinities, anything else must be a decimal integer.
pub fn parse_u64_or_bool(value: &[u8]) -> (r: Result<u64, ParsingError>)
    ensures
        match r {
            Ok(b) => spec_parse_u64_or_bool(value@) == Some(b),
            Err(e) => spec_parse_u64_or_bool(value@) is None && e@ == invalid_integer_msg(),
        },
{
    if name_is(value, "true") {
        Ok(F64_INFINITY_BITS)
    } else if name_is(value, "false") {
        Ok(F64_NEG_INFINITY_BITS)
    } else {
        match parse_u64(value) {
            Ok(n) => Ok(int_to_f64_bits(n as u128)),
            Err(e) => Err(e),
        }
    }
}

/// `10^k`.
pub open spec fn pow10(k: nat) -> nat
    decreases k,
{
    if k == 0 {
        1
    } else {
        10 * pow10((k - 1) as nat)
    }
}

/// Powers of ten are positive.
proof fn lemma_pow10_pos(k: nat)
    ensures
        pow10(k) >= 1,
    decreases k,
{
    if k > 0 {
        lemma_pow10_pos((k - 1) as nat);
    }
}

/// Powers of ten do not decrease.
proof fn lemma_pow10_le(i: nat, j: nat)
    requires
        i <= j,
    ensures
        pow10(i) <= pow10(j),
    decreases j,
{
    if i < j {
        lemma_pow10_le(i, (j - 1) as nat);
        lemma_pow10_pos((j - 1) as nat);
    }
}

/// Powers of ten compose additively.
pub proof fn lemma_pow10_adds(a: nat, b: nat)
    ensures
        pow10(a + b) == pow10(a) * pow10(b),
    decreases b,
{
    if b == 0 {
        assert(pow10(a) * 1 == pow10(a)) by (nonlinear_arith);
    } else {
        lemma_pow10_adds(a, (b - 1) as nat);
        assert(pow10((a + b) as nat) == 10 * pow10((a + b - 1) as nat));
        assert(pow10(b) == 10 * pow10((b - 1) as nat));
        assert(10 * (pow10(a) * pow10((b - 1) as nat)) == pow10(a) * (10 * pow10((b - 1) as nat)))
            by (nonlinear_arith);
    }
}


/// A digit string's value lies below `10^length`.
proof fn lemma_digits_val_lt_pow10(s: Seq<u8>)
    requires
        all_digits(s),
    ensures
        0 <= digits_val(s) < pow10(s.len()),
    decreases s.len(),
{
    if s.len() > 0 {
        let d = s.drop_last();
        assert(all_digits(d)) by {
            assert(forall|i: int| 0 <= i < d.len() ==> d[i] == #[trigger] s[i]);
        }
        lemma_digits_val_lt_pow10(d);
        assert(digits_val(d) * 10 + 9 < pow10(s.len())) by (nonlinear_arith)
            requires
                digits_val(d) < pow10((s.len() - 1) as nat),
                pow10(s.len()) == 10 * pow10((s.len() - 1) as nat),
        ;
    }
}

/// `s` with leading zero digits removed.
pub open spec fn strip_zeros(s: Seq<u8>) -> Seq<u8>
    decreases s.len(),
{
    if s.len() > 0 && s[0] == 48 {
        strip_zeros(s.skip(1))
    } else {
        s
    }
}



/// Index of the first `.` byte of `s` (its length where there is none).
pub open spec fn first_dot(s: Seq<u8>) -> int
    decreases s.len(),
{
    if s.len() == 0 {
        0
    } else if s[0] == 46 {
        0
    } else {
        1 + first_dot(s.skip(1))
    }
}

/// Where the first `k` bytes hold no dot and byte `k` is one (or `k` is the
/// length), the first dot sits exactly at `k`.
proof fn lemma_first_dot_is(s: Seq<u8>, k: int)
    requires
        0 <= k <= s.len(),
        forall|j: int| 0 <= j < k ==> s[j] != 46,
        k < s.len() ==> s[k] == 46,
    ensures
        first_dot(s) == k,
    decreases s.len(),
{
    if s.len() > 0 {
        if k == 0 {
        } else {
            assert(s[0] != 46);
            let t = s.skip(1);
            assert(forall|j: int| 0 <= j < k - 1 ==> t[j] == #[trigger] s[j + 1]);
            assert(k - 1 < t.len() ==> t[k - 1] == s[k]);
            lemma_first_dot_is(t, k - 1);
        }
    }
}



/// Diagnostic for a malformed decimal number.
pub open spec fn invalid_number_msg() -> Seq<char> {
    "Invalid decimal number"@
}

/// Index of the first exponent marker (`e` or `E`) of `s`, or its length.
pub open spec fn first_e(s: Seq<u8>) -> int
    decreases s.len(),
{
    if s.len() == 0 {
        0
    } else if s[0] == 101 || s[0] == 69 {
        0
    } else {
        1 + first_e(s.skip(1))
    }
}

/// Where the first `k` bytes hold no marker and byte `k` is one (or `k`
/// is the length), the first marker sits exactly at `k`.
proof fn lemma_first_e_is(s: Seq<u8>, k: int)
    requires
        0 <= k <= s.len(),
        forall|j: int| 0 <= j < k ==> s[j] != 101 && #[trigger] s[j] != 69,
        k < s.len() ==> (s[k] == 101 || s[k] == 69),
    ensures
        first_e(s) == k,
    decreases s.len(),
{
    if s.len() > 0 {
        if k == 0 {
        } else {
            assert(s[0] != 101 && s[0] != 69);
            let t = s.skip(1);
            assert(forall|j: int| 0 <= j < k - 1 ==> t[j] == #[trigger] s[j + 1]);
            assert(k - 1 < t.len() ==> t[k - 1] == s[k]);
            lemma_first_e_is(t, k - 1);
        }
    }
}

/// ASCII letters lowered, anything else untouched.
pub open spec fn lower_byte(b: u8) -> u8 {
    if 65 <= b <= 90 {
        (b + 32) as u8
    } else {
        b
    }
}

/// Bytewise ASCII lowering.
pub open spec fn lower_bytes(s: Seq<u8>) -> Seq<u8> {
    s.map_values(|b: u8| lower_byte(b))
}

/// Tests whether `v` equals the (lowercase) name `pat` up to ASCII case.
fn matches_ci(v: &[u8], pat: &str) -> (r: bool)
    ensures
        r <==> lower_bytes(v@) == lit(pat),
{
    let pb = pat.as_bytes();
    if v.len() != pb.len() {
        proof {
            assert(lower_bytes(v@).len() == v@.len());
        }
        return false;
    }
    let n = v.len();
    let mut i: usize = 0;
    while i < n
        invariant
            n == v@.len() && n == pb@.len(),
            pb@ == lit(pat),
            i <= n,
            forall|j: int| 0 <= j < i ==> lower_byte(#[trigger] v@[j]) == pb@[j],
        decreases n - i,
    {
        let b = v[i];
        let low: u8 = if 65 <= b && b <= 90 {
            b + 32
        } else {
            b
        };
        if low != pb[i] {
            proof {
                assert(lower_bytes(v@)[i as int] == lower_byte(v@[i as int]));
            }
            return false;
        }
        i += 1;
    }
    proof {
        assert(lower_bytes(v@) =~= lit(pat));
    }
    true
}

/// The value an exponent digit string denotes, saturated at `10^30`.
/// The saturation never changes a result: pulling a value with a larger
/// exponent back into the finite range would take a significand longer
/// than the address space can hold.
pub open spec fn exp_sat(d: Seq<u8>) -> int {
    if digits_val(d) > 1000000000000000000000000000000 {
        1000000000000000000000000000000
    } else {
        digits_val(d)
    }
}

/// Decodes an exponent digit run, saturating its value.
fn exp_value(value: &[u8], from: usize, to: usize) -> (r: Result<u128, ParsingError>)
    requires
        from <= to <= value@.len(),
    ensures
        match r {
            Ok(a) => all_digits(value@.subrange(from as int, to as int)) && a == exp_sat(
                value@.subrange(from as int, to as int),
            ) && a <= 1000000000000000000000000000000,
            Err(e) => !all_digits(value@.subrange(from as int, to as int)) && e@
                == invalid_number_msg(),
        },
{
    let mut acc: u128 = 0;
    let mut i: usize = from;
    proof {
        assert(value@.subrange(from as int, from as int) =~= Seq::<u8>::empty());
    }
    while i < to
        invariant
            from <= i <= to <= value@.len(),
            all_digits(value@.subrange(from as int, i as int)),
            acc == exp_sat(value@.subrange(from as int, i as int)),
            acc <= 1000000000000000000000000000000,
        decreases to - i,
    {
        let b = value[i];
        if b < 48 || b > 57 {
            proof {
                let whole = value@.subrange(from as int, to as int);
                assert(whole[i - from] == value@[i as int]);
                assert(!all_digits(whole));
            }
            return Err(ParsingError::new("Invalid decimal number"));
        }
        let d = (b - 48) as u128;
        proof {
            let cur = value@.subrange(from as int, i as int);
            let next = value@.subrange(from as int, i + 1);
            assert(next.drop_last() =~= cur);
            assert(next.last() == value@[i as int]);
            assert(all_digits(next));
            lemma_digits_val_nonneg(cur);
            assert(digits_val(cur) * 10 + d >= digits_val(cur)) by (nonlinear_arith)
                requires
                    digits_val(cur) >= 0,
                    d >= 0,
            ;
        }
        if acc >= 1000000000000000000000000000000 {
            proof {
                let cur = value@.subrange(from as int, i as int);
                assert(digits_val(cur) >= 1000000000000000000000000000000);
            }
        } else {
            let t = acc * 10 + d;
            acc = if t > 1000000000000000000000000000000 {
                1000000000000000000000000000000
            } else {
                t
            };
        }
        i += 1;
    }
    proof {
        assert(value@.subrange(from as int, to as int) =~= value@.subrange(from as int, i as int));
    }
    Ok(acc)
}

/// Ten to a power dominates eight to it.
pub proof fn lemma_pow10_ge_pow8(k: nat)
    ensures
        pow10(k) >= vstd::arithmetic::power2::pow2(3 * k),
    decreases k,
{
    vstd::arithmetic::power2::lemma2_to64();
    if k > 0 {
        lemma_pow10_ge_pow8((k - 1) as nat);
        vstd::arithmetic::power2::lemma_pow2_adds((3 * (k - 1)) as nat, 3);
        assert(pow10(k) == 10 * pow10((k - 1) as nat));
        assert(10 * pow10((k - 1) as nat) >= 8 * vstd::arithmetic::power2::pow2((3 * (k - 1)) as nat))
            by (nonlinear_arith)
            requires
                pow10((k - 1) as nat) >= vstd::arithmetic::power2::pow2((3 * (k - 1)) as nat),
        ;
        assert(vstd::arithmetic::power2::pow2(3 * k) == vstd::arithmetic::power2::pow2(
            (3 * (k - 1)) as nat,
        ) * 8) by {
            assert(vstd::arithmetic::power2::pow2(3) == 8);
        }
    } else {
        assert(vstd::arithmetic::power2::pow2(0) == 1);
    }
}

/// Sixteen to a power dominates ten to it.
pub proof fn lemma_pow10_le_pow16(k: nat)
    ensures
        pow10(k) <= vstd::arithmetic::power2::pow2(4 * k),
    decreases k,
{
    vstd::arithmetic::power2::lemma2_to64();
    if k > 0 {
        lemma_pow10_le_pow16((k - 1) as nat);
        vstd::arithmetic::power2::lemma_pow2_adds((4 * (k - 1)) as nat, 4);
        assert(pow10(k) == 10 * pow10((k - 1) as nat));
        assert(10 * pow10((k - 1) as nat) <= 16 * vstd::arithmetic::power2::pow2((4 * (k - 1)) as nat))
            by (nonlinear_arith)
            requires
                pow10((k - 1) as nat) <= vstd::arithmetic::power2::pow2((4 * (k - 1)) as nat),
        ;
        assert(vstd::arithmetic::power2::pow2(4 * k) == vstd::arithmetic::power2::pow2(
            (4 * (k - 1)) as nat,
        ) * 16) by {
            assert(vstd::arithmetic::power2::pow2(4) == 16);
        }
    } else {
        assert(vstd::arithmetic::power2::pow2(0) == 1);
    }
}

/// Where the decimal the text denotes lands: `m` is the value of every
/// significand digit and `e10` the decimal scale, so the denoted value is
/// the exact rational `m * 10^e10`, and the result is its correctly
/// rounded double (overflow saturating to infinity, underflow to zero).
pub open spec fn spec_decimal_route(m: int, e10: int, neg: bool) -> u64 {
    if m <= 0 {
        crate::float_bits::spec_with_sign_bit(0, neg)
    } else {
        let a = if e10 >= 0 {
            m * pow10(e10 as nat)
        } else {
            m
        };
        let b = if e10 >= 0 {
            1int
        } else {
            pow10((-e10) as nat) as int
        };
        crate::float_bits::spec_with_sign_bit(
            crate::float_bits::spec_rat_to_f64_bits(a as nat, b as nat),
            neg,
        )
    }
}

/// Converts a routed decimal to its double bit pattern.  `nd` bounds the
/// significand's digit count, which decides when a tiny scale certainly
/// underflows.
#[verifier::rlimit(100)]
#[verifier::spinoff_prover]
fn decimal_route_big(sd: &crate::bignum::BigNum, nd: usize, e10: i128, neg: bool) -> (r: u64)
    requires
        sd.wf(),
        sd@ < pow10(nd as nat),
        -2000000000000000000000000000000 <= e10 <= 2000000000000000000000000000000,
    ensures
        r == spec_decimal_route(sd@ as int, e10 as int, neg),
{
    proof {
        crate::float_bits::lemma_pow2_values();
    }
    if sd.is_zero() {
        return crate::float_bits::with_sign_bit(0, neg);
    }
    if e10 >= 342 {
        // the value is at least 10^342 > 2^1026: certain overflow
        proof {
            let a = (sd@ as int) * pow10(e10 as nat);
            lemma_pow10_le(342, e10 as nat);
            lemma_pow10_ge_pow8(342);
            lemma_pow10_pos(e10 as nat);
            assert(a >= pow10(e10 as nat)) by (nonlinear_arith)
                requires
                    sd@ >= 1,
                    pow10(e10 as nat) >= 1,
                    a == (sd@ as int) * pow10(e10 as nat),
            ;
            vstd::arithmetic::power2::lemma_pow2_strictly_increases(1024, 1026);
            crate::float_bits::lemma_up_shift_at_least(1, a as nat, 1024);
            assert(vstd::arithmetic::power2::pow2(1024) * 1
                == vstd::arithmetic::power2::pow2(1024)) by (nonlinear_arith);
        }
        return crate::float_bits::with_sign_bit(crate::float_bits::F64_INFINITY_BITS, neg);
    }
    if e10 < 0 && -e10 >= (nd as i128) + 400 {
        // the value is below 10^(-400): certain underflow
        proof {
            let j = (-e10) as nat;
            let b = pow10(j);
            lemma_pow10_le((nd + 400) as nat, j);
            assert(pow10((nd + 400) as nat) == pow10(nd as nat) * pow10(400)) by {
                lemma_pow10_adds(nd as nat, 400);
            }
            lemma_pow10_ge_pow8(400);
            vstd::arithmetic::power2::lemma_pow2_strictly_increases(1076, 1200);
            vstd::arithmetic::power2::lemma_pow2_pos(1076);
            lemma_pow10_pos(nd as nat);
            assert((sd@ as int) * vstd::arithmetic::power2::pow2(1076) < b) by (nonlinear_arith)
                requires
                    sd@ < pow10(nd as nat),
                    b >= pow10(nd as nat) * pow10(400),
                    pow10(400) >= vstd::arithmetic::power2::pow2(1200),
                    vstd::arithmetic::power2::pow2(1200) > vstd::arithmetic::power2::pow2(1076),
                    vstd::arithmetic::power2::pow2(1076) > 0,
                    pow10(nd as nat) > 0,
                    sd@ >= 1,
            ;
            crate::float_bits::lemma_norm_shift_at_least(
                sd@,
                b as nat,
                1076,
            );
            assert(sd@ < b as nat) by (nonlinear_arith)
                requires
                    (sd@ as int) * vstd::arithmetic::power2::pow2(1076) < b,
                    vstd::arithmetic::power2::pow2(1076) >= 1,
                    sd@ >= 0,
            ;
        }
        return crate::float_bits::with_sign_bit(0, neg);
    }
    // construct the exact rational and round it
    if e10 >= 0 {
        let mut abig = sd.duplicate();
        let mut jj: i128 = 0;
        proof {
            assert(sd@ * pow10(0) == sd@) by (nonlinear_arith)
                requires
                    pow10(0) == 1,
            ;
        }
        while jj < e10
            invariant
                0 <= jj <= e10 < 342,
                abig.wf(),
                abig@ == sd@ * pow10(jj as nat),
                sd.wf(),
                sd@ >= 1,
            decreases e10 - jj,
        {
            proof {
                assert(pow10((jj + 1) as nat) == 10 * pow10(jj as nat));
                assert((sd@ * pow10(jj as nat)) * 10 == sd@ * pow10((jj + 1) as nat))
                    by (nonlinear_arith)
                    requires
                        pow10((jj + 1) as nat) == pow10(jj as nat) * 10,
                ;
            }
            abig = abig.mul_small_add(10, 0);
            jj += 1;
        }
        let bbig = crate::bignum::BigNum::from_u64(1);
        proof {
            lemma_pow10_pos(e10 as nat);
            assert(abig@ >= 1) by (nonlinear_arith)
                requires
                    sd@ >= 1,
                    pow10(e10 as nat) >= 1,
                    abig@ == sd@ * pow10(e10 as nat),
            ;
        }
        let bits = crate::float_bits::rat_to_f64_bits_big(&abig, &bbig);
        crate::float_bits::with_sign_bit(bits, neg)
    } else {
        let abig = sd.duplicate();
        let mut bbig = crate::bignum::BigNum::from_u64(1);
        let mut jj: i128 = 0;
        while jj < -e10
            invariant
                -2000000000000000000000000000000 <= e10 <= 0,
                0 <= jj <= -e10,
                bbig.wf(),
                bbig@ == pow10(jj as nat),
            decreases -e10 - jj,
        {
            proof {
                assert(pow10((jj + 1) as nat) == 10 * pow10(jj as nat));
            }
            bbig = bbig.mul_small_add(10, 0);
            jj += 1;
        }
        proof {
            lemma_pow10_pos((-e10) as nat);
        }
        let bits = crate::float_bits::rat_to_f64_bits_big(&abig, &bbig);
        crate::float_bits::with_sign_bit(bits, neg)
    }
}

/// What the mantissa part of a decimal (its digits and optional dot,
/// sign and exponent already split off) denotes: the value of every
/// significand digit at the scale the dot and the exponent fix, routed
/// through [`spec_decimal_route`] to its correctly rounded double.
pub open spec fn spec_parse_mantissa(mant: Seq<u8>, eval: int, neg: bool) -> Option<u64> {
    let fd = first_dot(mant);
    let ip = mant.take(fd);
    let fp = if fd < mant.len() {
        mant.skip(fd + 1)
    } else {
        Seq::<u8>::empty()
    };
    if mant.len() == 0 {
        None
    } else if !all_digits(ip) || !all_digits(fp) {
        None
    } else if ip.len() == 0 && fp.len() == 0 {
        None
    } else {
        let d_all = ip + fp;
        let sd = strip_zeros(d_all);
        let e10 = ip.len() - d_all.len() + eval;
        Some(spec_decimal_route(digits_val(sd), e10, neg))
    }
}

/// What [`parse_f64`] yields: the double bit pattern of the decimal the
/// text denotes.  The accepted shape is an optional sign, then `inf`,
/// `infinity` or `nan` in any ASCII case, or digits with an optional
/// `.` fraction and an optional `e`/`E` exponent.  Every accepted text
/// yields the correctly rounded double of the exact decimal it denotes,
/// magnitudes beyond the format saturating to the infinities and zeroes
/// they round to.
pub open spec fn spec_parse_f64(s: Seq<u8>) -> Option<u64> {
    let has_sign = s.len() > 0 && (s[0] == 43 || s[0] == 45);
    let neg = s.len() > 0 && s[0] == 45;
    let body = if has_sign {
        s.skip(1)
    } else {
        s
    };
    if body.len() == 0 {
        None
    } else if lower_bytes(body) == lit("inf") || lower_bytes(body) == lit("infinity") {
        Some(crate::float_bits::spec_with_sign_bit(crate::float_bits::F64_INFINITY_BITS, neg))
    } else if lower_bytes(body) == lit("nan") {
        Some(crate::float_bits::spec_with_sign_bit(crate::float_bits::F64_NAN_BITS, neg))
    } else {
        let ep = first_e(body);
        let mant = body.take(ep);
        let has_exp = ep < body.len();
        let etext = body.skip(ep + 1);
        let eneg = etext.len() > 0 && etext[0] == 45;
        let esign = etext.len() > 0 && (etext[0] == 43 || etext[0] == 45);
        let edigits = if esign {
            etext.skip(1)
        } else {
            etext
        };
        if has_exp && (edigits.len() == 0 || !all_digits(edigits)) {
            None
        } else {
            let ev = if !has_exp {
                0int
            } else if eneg {
                -exp_sat(edigits)
            } else {
                exp_sat(edigits)
            };
            spec_parse_mantissa(mant, ev, neg)
        }
    }
}

/// Decodes the mantissa part of a decimal number.
#[verifier::rlimit(100)]
#[verifier::spinoff_prover]
fn parse_mantissa(mant: &[u8], eval: i128, neg: bool) -> (r: Result<
    u64,
    ParsingError,
>)
    requires
        -1000000000000000000000000000000 <= eval <= 1000000000000000000000000000000,
    ensures
        match r {
            Ok(b) => spec_parse_mantissa(mant@, eval as int, neg) == Some(b),
            Err(e) => spec_parse_mantissa(mant@, eval as int, neg) is None && e@
                == invalid_number_msg(),
        },
{
    let n = mant.len();
    if n == 0 {
        return Err(ParsingError::new("Invalid decimal number"));
    }
    let mut dp: usize = n;
    let mut i: usize = 0;
    while i < n
        invariant
            i <= n == mant@.len(),
            dp == n || (dp < i && mant@[dp as int] == 46),
            forall|k: int| 0 <= k < i && k != dp ==> 48 <= #[trigger] mant@[k] <= 57,
        decreases n - i,
    {
        let b = mant[i];
        if b == 46 {
            if dp != n {
                proof {
                    lemma_mantissa_second_dot(mant@, dp as int, i as int, eval as int, neg);
                }
                return Err(ParsingError::new("Invalid decimal number"));
            }
            dp = i;
        } else if b < 48 || b > 57 {
            proof {
                lemma_mantissa_bad_char(mant@, dp as int, i as int, eval as int, neg);
            }
            return Err(ParsingError::new("Invalid decimal number"));
        }
        i += 1;
    }
    let ip_end = if dp == n {
        n
    } else {
        dp
    };
    let ghost fd = first_dot(mant@);
    proof {
        lemma_first_dot_is(mant@, ip_end as int);
        assert(fd == ip_end);
        assert(mant@.take(fd) =~= mant@.subrange(0, ip_end as int));
        if dp < n {
            assert(mant@.skip(fd + 1) =~= mant@.subrange(dp + 1, n as int));
        }
    }
    let fstart = if dp == n {
        n
    } else {
        dp + 1
    };
    let ghost ip = mant@.take(fd);
    let ghost fp = if fd < mant@.len() {
        mant@.skip(fd + 1)
    } else {
        Seq::<u8>::empty()
    };
    proof {
        assert(fp =~= mant@.subrange(fstart as int, n as int));
        assert(all_digits(ip));
        assert(all_digits(fp));
    }
    if ip_end == 0 && fstart >= n {
        return Err(ParsingError::new("Invalid decimal number"));
    }
    // collect every significand digit, integer part then fraction
    let ghost d_all = ip + fp;
    let mut dbuf: Vec<u8> = Vec::new();
    let mut a: usize = 0;
    proof {
        assert(dbuf@ =~= mant@.subrange(0, 0));
    }
    while a < ip_end
        invariant
            a <= ip_end <= n == mant@.len(),
            dbuf@ == mant@.subrange(0, a as int),
        decreases ip_end - a,
    {
        dbuf.push(mant[a]);
        proof {
            assert(mant@.subrange(0, a + 1) =~= mant@.subrange(0, a as int).push(
                mant@[a as int],
            ));
        }
        a += 1;
    }
    proof {
        assert(ip =~= mant@.subrange(0, ip_end as int));
        assert(mant@.subrange(fstart as int, fstart as int) =~= Seq::<u8>::empty());
        assert(dbuf@ =~= ip + mant@.subrange(fstart as int, fstart as int));
    }
    let mut c: usize = fstart;
    while c < n
        invariant
            fstart <= c <= n == mant@.len(),
            ip == mant@.subrange(0, ip_end as int),
            ip_end <= fstart,
            dbuf@ == ip + mant@.subrange(fstart as int, c as int),
        decreases n - c,
    {
        dbuf.push(mant[c]);
        proof {
            assert(mant@.subrange(fstart as int, c + 1) =~= mant@.subrange(
                fstart as int,
                c as int,
            ).push(mant@[c as int]));
            assert((ip + mant@.subrange(fstart as int, c as int)).push(mant@[c as int]) =~= ip
                + mant@.subrange(fstart as int, c + 1));
        }
        c += 1;
    }
    proof {
        assert(fp =~= mant@.subrange(fstart as int, n as int));
        assert(dbuf@ =~= d_all);
        assert(all_digits(d_all)) by {
            assert(forall|k: int|
                0 <= k < d_all.len() ==> d_all[k] == (if k < ip.len() {
                    #[trigger] ip[k]
                } else {
                    fp[k - ip.len()]
                }));
        }
    }
    // strip leading zeros
    let dlen = dbuf.len();
    let mut zz: usize = 0;
    proof {
        assert(dbuf@.subrange(0, dlen as int) =~= dbuf@);
        assert(strip_zeros(d_all) == strip_zeros(dbuf@.subrange(0, dlen as int)));
    }
    while zz < dlen && dbuf[zz] == 48
        invariant
            zz <= dlen,
            dlen == dbuf@.len(),
            dbuf@ == d_all,
            all_digits(d_all),
            strip_zeros(d_all) == strip_zeros(dbuf@.subrange(zz as int, dlen as int)),
        decreases dlen - zz,
    {
        proof {
            let cur = dbuf@.subrange(zz as int, dlen as int);
            assert(cur[0] == 48);
            assert(cur.skip(1) =~= dbuf@.subrange(zz + 1, dlen as int));
        }
        zz += 1;
    }
    proof {
        let fin = dbuf@.subrange(zz as int, dlen as int);
        if zz < dlen {
            assert(fin[0] != 48);
        }
        assert(strip_zeros(fin) =~= fin);
        assert(strip_zeros(d_all) =~= dbuf@.subrange(zz as int, dlen as int));
    }
    if zz == dlen {
        proof {
            assert(strip_zeros(d_all).len() == 0);
        }
        return Ok(crate::float_bits::with_sign_bit(0, neg));
    }
    let nd = dlen - zz;
    proof {
        assert(forall|k: int| zz <= k < dlen ==> 48 <= #[trigger] dbuf@[k] <= 57);
    }
    let sd_big = crate::bignum::BigNum::from_digits(dbuf.as_slice(), zz, dlen);
    proof {
        let sd = strip_zeros(d_all);
        assert(all_digits(sd)) by {
            assert(forall|k: int| 0 <= k < sd.len() ==> sd[k] == #[trigger] dbuf@[k + zz]);
        }
        lemma_digits_val_lt_pow10(sd);
        lemma_digits_val_nonneg(sd);
        assert(sd.len() == nd);
    }
    let e10: i128 = (ip_end as i128) - (dlen as i128) + eval;
    Ok(decimal_route_big(&sd_big, nd, e10, neg))
}


/// A second dot makes the fractional part non-numeric.
proof fn lemma_mantissa_second_dot(s: Seq<u8>, dp: int, i: int, eval: int, neg: bool)
    requires
        0 <= dp < i < s.len(),
        s[dp] == 46,
        s[i] == 46,
        forall|k: int| 0 <= k < i && k != dp ==> 48 <= #[trigger] s[k] <= 57,
    ensures
        spec_parse_mantissa(s, eval, neg) is None,
{
    lemma_first_dot_is(s, dp);
    let fd = first_dot(s);
    let fp = s.skip(fd + 1);
    assert(fp[i - dp - 1] == s[i]);
    assert(!all_digits(fp));
}

/// A byte that is neither digit nor dot lands in the integer or the
/// fractional part and invalidates it.
proof fn lemma_mantissa_bad_char(s: Seq<u8>, dp: int, i: int, eval: int, neg: bool)
    requires
        0 <= i < s.len(),
        dp == s.len() || (0 <= dp < i && s[dp] == 46),
        s[i] != 46,
        !(48 <= s[i] <= 57),
        forall|k: int| 0 <= k < i && k != dp ==> 48 <= #[trigger] s[k] <= 57,
    ensures
        spec_parse_mantissa(s, eval, neg) is None,
{
    let fd = first_dot(s);
    lemma_first_dot_le_len(s);
    if dp < s.len() {
        lemma_first_dot_is(s, dp);
        let fp = s.skip(fd + 1);
        assert(fp[i - dp - 1] == s[i]);
        assert(!all_digits(fp));
    } else {
        lemma_first_dot_ge(s, i + 1);
        let ip = s.take(fd);
        assert(ip[i as int] == s[i]);
        assert(!all_digits(ip));
    }
}

/// Decodes a decimal number into the bit pattern of the correctly
/// rounded double it denotes.
pub fn parse_f64(value: &[u8]) -> (r: Result<u64, ParsingError>)
    ensures
        match r {
            Ok(b) => spec_parse_f64(value@) == Some(b),
            Err(e) => spec_parse_f64(value@) is None && e@ == invalid_number_msg(),
        },
{
    let n = value.len();
    let has_sign = n > 0 && (value[0] == 43 || value[0] == 45);
    let neg = n > 0 && value[0] == 45;
    let start: usize = if has_sign {
        1
    } else {
        0
    };
    let ghost body = if has_sign {
        value@.skip(1)
    } else {
        value@
    };
    proof {
        assert(forall|k: int| 0 <= k < body.len() ==> body[k] == #[trigger] value@[k + start]);
    }
    if start >= n {
        return Err(ParsingError::new("Invalid decimal number"));
    }
    let body_slice = vstd::slice::slice_subrange(value, start, n);
    proof {
        assert(body_slice@ =~= body);
    }
    if matches_ci(body_slice, "inf") || matches_ci(body_slice, "infinity") {
        return Ok(crate::float_bits::with_sign_bit(crate::float_bits::F64_INFINITY_BITS, neg));
    }
    if matches_ci(body_slice, "nan") {
        return Ok(crate::float_bits::with_sign_bit(crate::float_bits::F64_NAN_BITS, neg));
    }
    let mut ep: usize = start;
    loop
        invariant
            start <= ep <= n == value@.len(),
            forall|k: int| start <= k < ep ==> value@[k] != 101 && #[trigger] value@[k] != 69,
        ensures
            start <= ep <= n,
            forall|k: int| start <= k < ep ==> value@[k] != 101 && #[trigger] value@[k] != 69,
            ep < n ==> (value@[ep as int] == 101 || value@[ep as int] == 69),
        decreases n - ep,
    {
        if ep == n {
            break ;
        }
        let b = value[ep];
        if b == 101 || b == 69 {
            break ;
        }
        ep += 1;
    }
    let ghost fe = first_e(body);
    proof {
        lemma_first_e_is(body, ep - start);
        assert(fe == ep - start);
        assert(body.take(fe) =~= value@.subrange(start as int, ep as int));
    }
    let has_exp = ep < n;
    let mut eval: i128 = 0;
    if has_exp {
        let ghost etext = body.skip(fe + 1);
        proof {
            assert(etext =~= value@.subrange(ep + 1, n as int));
        }
        let es = ep + 1;
        if es >= n {
            return Err(ParsingError::new("Invalid decimal number"));
        }
        let eneg = value[es] == 45;
        let esign = eneg || value[es] == 43;
        let ed: usize = if esign {
            es + 1
        } else {
            es
        };
        let ghost edigits = if esign {
            etext.skip(1)
        } else {
            etext
        };
        proof {
            assert(edigits =~= value@.subrange(ed as int, n as int));
        }
        if ed >= n {
            return Err(ParsingError::new("Invalid decimal number"));
        }
        let mag = match exp_value(value, ed, n) {
            Ok(a) => a,
            Err(e) => {
                return Err(e);
            },
        };
        eval = if eneg {
            -(mag as i128)
        } else {
            mag as i128
        };
    }
    let mant_slice = vstd::slice::slice_subrange(value, start, ep);
    proof {
        assert(mant_slice@ =~= body.take(fe));
    }
    parse_mantissa(mant_slice, eval, neg)
}

/// Where the first `k` bytes hold no dot, the first dot sits at `k` or
/// beyond.
proof fn lemma_first_dot_ge(s: Seq<u8>, k: int)
    requires
        0 <= k <= s.len(),
        forall|j: int| 0 <= j < k ==> s[j] != 46,
    ensures
        first_dot(s) >= k,
    decreases s.len(),
{
    lemma_first_dot_le_len(s);
    if k > 0 && s.len() > 0 {
        assert(s[0] != 46);
        let t = s.skip(1);
        assert(forall|j: int| 0 <= j < k - 1 ==> t[j] == #[trigger] s[j + 1]);
        lemma_first_dot_ge(t, k - 1);
        assert(first_dot(s) == 1 + first_dot(t));
    }
}

/// The first dot's index never exceeds the length.
proof fn lemma_first_dot_le_len(s: Seq<u8>)
    ensures
        0 <= first_dot(s) <= s.len(),
    decreases s.len(),
{
    if s.len() > 0 && s[0] != 46 {
        lemma_first_dot_le_len(s.skip(1));
    }
}

/// End of the digit run starting at `i`: the first index at or past `i`
/// holding no decimal digit.
pub open spec fn digits_end(s: Seq<u8>, i: int) -> int
    decreases s.len() - i,
{
    if i < 0 || i >= s.len() {
        i
    } else if 48 <= s[i] <= 57 {
        digits_end(s, i + 1)
    } else {
        i
    }
}

/// The digit run is a run of digits ending at a non-digit or the end.
proof fn lemma_digits_end_props(s: Seq<u8>, i: int)
    requires
        0 <= i <= s.len(),
    ensures
        i <= digits_end(s, i) <= s.len(),
        forall|k: int| i <= k < digits_end(s, i) ==> 48 <= #[trigger] s[k] <= 57,
        digits_end(s, i) < s.len() ==> !(48 <= s[digits_end(s, i)] <= 57),
    decreases s.len() - i,
{
    if i < s.len() && 48 <= s[i] <= 57 {
        lemma_digits_end_props(s, i + 1);
    }
}

/// Finds the end of the digit run starting at `from`.
fn scan_digits(value: &[u8], from: usize) -> (e: usize)
    requires
        from <= value@.len(),
    ensures
        e == digits_end(value@, from as int),
        from <= e <= value@.len(),
    decreases value@.len() - from,
{
    proof {
        lemma_digits_end_props(value@, from as int);
    }
    let n = value.len();
    let mut i: usize = from;
    while i < n
        invariant
            from <= i <= n == value@.len(),
            digits_end(value@, from as int) == digits_end(value@, i as int),
            forall|k: int| from <= k < i ==> 48 <= #[trigger] value@[k] <= 57,
        decreases n - i,
    {
        let b = value[i];
        if b < 48 || b > 57 {
            return i;
        }
        i += 1;
    }
    i
}

/// The seconds weight and the rank of a duration unit letter: the date
/// part recognizes `Y`, `M` and `D`, the time part `H`, `M` and `S`; the
/// rank enforces the fixed order of the grammar.  Years and months weigh
/// fixed approximations (365 and 30 days).
pub open spec fn unit_info(u: u8, date: bool) -> Option<(nat, nat)> {
    if date {
        if u == 89 {
            Some((0, 31536000))
        } else if u == 77 {
            Some((1, 2592000))
        } else if u == 68 {
            Some((2, 86400))
        } else {
            None
        }
    } else {
        if u == 72 {
            Some((0, 3600))
        } else if u == 77 {
            Some((1, 60))
        } else if u == 83 {
            Some((2, 1))
        } else {
            None
        }
    }
}

/// Termination measure over the unit rank.
pub open spec fn stage_measure(stage: nat) -> int {
    if stage >= 3 {
        0
    } else {
        3 - stage
    }
}

/// Seconds denoted by one half of a duration (the date part before `T`,
/// or the time part after it), read from position `i` with units of rank
/// at least `stage` still allowed.  Yields the seconds and the position
/// where the half ended: the end of the text, or (for the date part) the
/// `T` separator.
pub open spec fn spec_duration_part(s: Seq<u8>, i: int, stage: nat, date: bool) -> Option<
    (nat, int),
>
    decreases stage_measure(stage),
{
    if i < 0 || i > s.len() {
        None
    } else if i == s.len() {
        Some((0, i))
    } else if date && s[i] == 84 {
        Some((0, i))
    } else {
        let e = digits_end(s, i);
        if e == i || e == s.len() {
            None
        } else {
            match spec_parse_u64(s.subrange(i, e)) {
                None => None,
                Some(n) => match unit_info(s[e], date) {
                    None => None,
                    Some((rank, factor)) => if rank < stage || stage >= 3 {
                        None
                    } else {
                        match spec_duration_part(s, e + 1, (rank + 1) as nat, date) {
                            None => None,
                            Some((rest, j)) => Some(((n * factor + rest) as nat, j)),
                        }
                    },
                },
            }
        }
    }
}

/// The total seconds a duration text denotes: `P`, then date components,
/// then optionally `T` and time components, unit letters in fixed order.
///
/// Deliberate deviation: each component count must be a plain integer.
/// A fractional count written with `.` or `,` (`PT0.5S`, `PT1,5S`) is
/// rejected, exactly as the reference behaviour rejects it (its
/// fractional branch is unreachable); supporting fractions would need a
/// float sum across components, which this crate's exact integer
/// arithmetic does not cover.
pub open spec fn spec_duration_seconds(s: Seq<u8>) -> Option<nat> {
    if s.len() == 0 || s[0] != 80 {
        None
    } else {
        match spec_duration_part(s, 1, 0, true) {
            None => None,
            Some((dsum, i)) => if i == s.len() {
                Some(dsum)
            } else {
                match spec_duration_part(s, i + 1, 0, false) {
                    None => None,
                    Some((tsum, _)) => Some((dsum + tsum) as nat),
                }
            },
        }
    }
}

/// Diagnostic for a malformed duration.
pub open spec fn invalid_duration_msg() -> Seq<char> {
    "Invalid ISO 8601 duration"@
}

/// What [`parse_iso_8601_duration`] yields: the total seconds, as a float
/// bit pattern.
pub open spec fn spec_parse_duration(s: Seq<u8>) -> Option<u64> {
    match spec_duration_seconds(s) {
        None => None,
        Some(sec) => Some(spec_int_to_f64_bits(sec)),
    }
}

/// Adds an already-accumulated seconds count to a half's outcome.
pub open spec fn opt_add(k: nat, o: Option<(nat, int)>) -> Option<(nat, int)> {
    match o {
        None => None,
        Some((r, j)) => Some(((k + r) as nat, j)),
    }
}

/// Largest seconds count one component can contribute.
const COMPONENT_CAP: u128 = 581736521108504419730640000;

/// Decodes one half of a duration.
fn duration_part(value: &[u8], start: usize, date: bool) -> (r: Result<(u128, usize), ParsingError>)
    requires
        start <= value@.len(),
    ensures
        match r {
            Ok((sum, j)) => spec_duration_part(value@, start as int, 0, date) == Some(
                (sum as nat, j as int),
            ) && sum <= 3 * COMPONENT_CAP && start <= j <= value@.len(),
            Err(e) => spec_duration_part(value@, start as int, 0, date) is None && e@
                == invalid_duration_msg(),
        },
{
    let n = value.len();
    let mut i: usize = start;
    let mut stage: u8 = 0;
    let mut sum: u128 = 0;
    loop
        invariant
            start <= i <= n == value@.len(),
            stage <= 3,
            sum <= (stage as nat) * COMPONENT_CAP,
            opt_add(sum as nat, spec_duration_part(value@, i as int, stage as nat, date))
                == spec_duration_part(value@, start as int, 0, date),
        decreases n - i + 1,
    {
        if i == n {
            return Ok((sum, i));
        }
        let b = value[i];
        if date && b == 84 {
            return Ok((sum, i));
        }
        let e = scan_digits(value, i);
        proof {
            lemma_digits_end_props(value@, i as int);
        }
        if e == i || e == n {
            return Err(ParsingError::new("Invalid ISO 8601 duration"));
        }
        let num_slice = vstd::slice::slice_subrange(value, i, e);
        let n_val = match parse_u64(num_slice) {
            Ok(v) => v,
            Err(_) => {
                return Err(ParsingError::new("Invalid ISO 8601 duration"));
            },
        };
        let u = value[e];
        let (rank, factor): (u8, u64) = if date {
            if u == 89 {
                (0, 31536000)
            } else if u == 77 {
                (1, 2592000)
            } else if u == 68 {
                (2, 86400)
            } else {
                return Err(ParsingError::new("Invalid ISO 8601 duration"));
            }
        } else {
            if u == 72 {
                (0, 3600)
            } else if u == 77 {
                (1, 60)
            } else if u == 83 {
                (2, 1)
            } else {
                return Err(ParsingError::new("Invalid ISO 8601 duration"));
            }
        };
        if rank < stage {
            return Err(ParsingError::new("Invalid ISO 8601 duration"));
        }
        proof {
            assert((n_val as nat) * (factor as nat) <= COMPONENT_CAP) by (nonlinear_arith)
                requires
                    n_val <= 0xffffffffffffffffu64,
                    factor <= 31536000,
            ;
            assert(sum + (n_val as nat) * (factor as nat) <= ((rank + 1) as nat) * COMPONENT_CAP)
                by (nonlinear_arith)
                requires
                    sum <= (stage as nat) * COMPONENT_CAP,
                    stage <= rank,
                    (n_val as nat) * (factor as nat) <= COMPONENT_CAP,
            ;
        }
        sum = sum + (n_val as u128) * (factor as u128);
        i = e + 1;
        stage = rank + 1;
    }
}

/// Decodes an ISO 8601 duration into total seconds, as the bit pattern of
/// the nearest double.  Component counts are integers only: fractional
/// components are rejected, a deliberate deviation kept from the
/// reference behaviour (see [`spec_duration_seconds`]).
pub fn parse_iso_8601_duration(value: &[u8]) -> (r: Result<u64, ParsingError>)
    ensures
        match r {
            Ok(b) => spec_parse_duration(value@) == Some(b),
            Err(e) => spec_parse_duration(value@) is None && e@ == invalid_duration_msg(),
        },
{
    let n = value.len();
    if n == 0 || value[0] != 80 {
        return Err(ParsingError::new("Invalid ISO 8601 duration"));
    }
    let (dsum, i) = match duration_part(value, 1, true) {
        Ok(p) => p,
        Err(e) => {
            return Err(e);
        },
    };
    if i == n {
        return Ok(int_to_f64_bits(dsum));
    }
    let (tsum, _j) = match duration_part(value, i + 1, false) {
        Ok(p) => p,
        Err(e) => {
            return Err(e);
        },
    };
    Ok(int_to_f64_bits(dsum + tsum))
}

} // verus!
