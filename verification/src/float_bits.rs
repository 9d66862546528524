//! Verified construction of IEEE 754 double-precision bit patterns.
//!
//! Verified code never holds a platform float: every float value the
//! reporting protocol carries travels as its bit pattern in a `u64`, which
//! is exactly the shape that crosses the wire.  Two converters cover what
//! the decoding logic produces: a 128-bit one for plain integers (timeline
//! entries, integer attributes, duration seconds), and one over
//! arbitrary-precision integers that rounds any exact rational `a / b`
//! correctly, down to the subnormal range and saturating at the format's
//! ends -- the engine of the decimal float codec.  Both round to nearest,
//! ties to even, and both are ordinary integer arithmetic, implemented and
//! proved here rather than taken on trust.

use vstd::arithmetic::power2::lemma2_to64;
use vstd::arithmetic::power2::lemma2_to64_rest;
use vstd::arithmetic::power2::lemma_pow2_adds;
use vstd::arithmetic::power2::lemma_pow2_pos;
use vstd::arithmetic::power2::lemma_pow2_strictly_increases;
use vstd::arithmetic::power2::pow2;
use vstd::prelude::*;

verus! {

/// Bit pattern of positive infinity.
pub const F64_INFINITY_BITS: u64 = 0x7ff0000000000000;

/// Bit pattern of negative infinity.
pub const F64_NEG_INFINITY_BITS: u64 = 0xfff0000000000000;

/// Bit pattern of positive zero.
pub const F64_ZERO_BITS: u64 = 0;

/// Bit pattern of the quiet NaN the platform's parser yields for `nan`.
pub const F64_NAN_BITS: u64 = 0x7ff8000000000000;

/// The mantissa field's weight: 2^52.
pub const MANTISSA_BASE: u64 = 0x10000000000000;

/// The exponent bias of the double format.
pub const EXPONENT_BIAS: u64 = 1023;

/// Number of binary digits of `n` (0 for 0).
pub open spec fn bitlen(n: nat) -> nat
    decreases n,
{
    if n == 0 {
        0
    } else {
        1 + bitlen(n / 2)
    }
}

/// `n` has `bitlen(n)` binary digits: it lies in `[2^(len-1), 2^len)`.
pub proof fn lemma_bitlen_bounds(n: nat)
    requires
        n > 0,
    ensures
        bitlen(n) > 0,
        pow2((bitlen(n) - 1) as nat) <= n < pow2(bitlen(n)),
    decreases n,
{
    if n == 1 {
        lemma2_to64();
        assert(bitlen(1nat) == 1 + bitlen(0nat));
        assert(pow2(0) == 1 && pow2(1) == 2);
    } else {
        lemma_bitlen_bounds(n / 2);
        let l = bitlen(n / 2);
        assert(bitlen(n) == 1 + l);
        assert(pow2((l - 1) as nat) <= n / 2);
        assert(n / 2 < pow2(l));
        vstd::arithmetic::power2::lemma_pow2_unfold(l);
        vstd::arithmetic::power2::lemma_pow2_unfold((l + 1) as nat);
        assert(pow2((l + 1) as nat) == 2 * pow2(l));
        assert(pow2(l) == 2 * pow2((l - 1) as nat));
        assert(n == 2 * (n / 2) + n % 2) by (nonlinear_arith);
        assert(n % 2 < 2) by (nonlinear_arith);
        assert(pow2(l) <= n);
        assert(n < pow2((l + 1) as nat));
    }
}

/// Round-to-nearest-even of `keep + rest/(2*half)`, where `rest < 2*half`:
/// the mantissa kept after truncation, corrected by the dropped tail.
pub open spec fn round_half_even(keep: nat, rest: nat, half: nat) -> nat {
    if rest > half || (rest == half && keep % 2 == 1) {
        keep + 1
    } else {
        keep
    }
}

/// Assembles sign-0 double bits from an exponent (power of the leading
/// binary digit) and a full 53-bit significand in `[2^52, 2^53)`.
pub open spec fn assemble_bits(exp: nat, full_mantissa: nat) -> u64 {
    (((exp + EXPONENT_BIAS) * pow2(52) + (full_mantissa - pow2(52))) as u64)
}

/// The IEEE 754 double-precision bit pattern nearest to the non-negative
/// integer `n` (ties to even), with sign bit 0.
pub open spec fn spec_int_to_f64_bits(n: nat) -> u64 {
    if n == 0 {
        F64_ZERO_BITS
    } else {
        let len = bitlen(n);
        if len <= 53 {
            assemble_bits((len - 1) as nat, n * pow2((53 - len) as nat))
        } else {
            let sh = (len - 53) as nat;
            let keep = n / pow2(sh);
            let rest = n % pow2(sh);
            let m = round_half_even(keep, rest, pow2((sh - 1) as nat));
            if m == pow2(53) {
                assemble_bits(len as nat, pow2(52))
            } else {
                assemble_bits((len - 1) as nat, m)
            }
        }
    }
}

/// Number of binary digits of `n`.
pub fn bitlen_u128(n: u128) -> (r: usize)
    ensures
        r == bitlen(n as nat),
        r <= 128,
{
    let mut x: u128 = n;
    let mut count: usize = 0;
    proof {
        lemma_pow2_128();
        lemma_bitlen_le_128(n as nat);
    }
    while x > 0
        invariant
            bitlen(n as nat) == count + bitlen(x as nat),
            count + bitlen(x as nat) <= 128,
        decreases x,
    {
        x = x / 2;
        count = count + 1;
    }
    count
}

/// Any `u128` has at most 128 binary digits.
proof fn lemma_bitlen_le_128(n: nat)
    ensures
        n < pow2(128) ==> bitlen(n) <= 128,
{
    lemma_bitlen_le(n, 128);
}

/// Monotone bound: a value below `2^k` has at most `k` binary digits.
proof fn lemma_bitlen_le(n: nat, k: nat)
    ensures
        n < pow2(k) ==> bitlen(n) <= k,
    decreases n,
{
    if n > 0 && n < pow2(k) {
        lemma_pow2_pos(k);
        if k == 0 {
            assert(pow2(0) == 1) by {
                lemma2_to64();
            }
        } else {
            vstd::arithmetic::power2::lemma_pow2_unfold(k);
            assert(pow2(k) == 2 * pow2((k - 1) as nat));
            assert(n / 2 < pow2((k - 1) as nat)) by (nonlinear_arith)
                requires
                    n < 2 * pow2((k - 1) as nat),
            ;
            lemma_bitlen_le(n / 2, (k - 1) as nat);
            assert(bitlen(n) == 1 + bitlen(n / 2));
        }
    }
}

/// `2^k`, as a `u128`.
pub fn pow2_u128(k: usize) -> (r: u128)
    requires
        k < 128,
    ensures
        r == pow2(k as nat),
{
    proof {
        lemma_pow2_increase_bound(k as nat);
    }
    let mut i: usize = 0;
    let mut r: u128 = 1;
    proof {
        lemma2_to64();
    }
    while i < k
        invariant
            i <= k < 128,
            r == pow2(i as nat),
        decreases k - i,
    {
        proof {
            vstd::arithmetic::power2::lemma_pow2_unfold((i + 1) as nat);
            lemma_pow2_increase_bound(k as nat);
            if i + 1 < 128 {
                lemma_pow2_strictly_increases((i + 1) as nat, 128);
            }
            lemma_pow2_128();
        }
        r = r * 2;
        i = i + 1;
    }
    r
}

/// Concrete values of the two powers of two that bound the conversion
/// inputs.
pub proof fn lemma_pow2_values()
    ensures
        pow2(64) == 0x10000000000000000,
        pow2(127) == 0x80000000000000000000000000000000,
        pow2(128) == 0x100000000000000000000000000000000,
{
    lemma2_to64_rest();
    lemma_pow2_128();
    lemma_pow2_adds(64, 63);
}

/// The value of `2^128`.
proof fn lemma_pow2_128()
    ensures
        pow2(128) == 0x100000000000000000000000000000000,
{
    lemma2_to64_rest();
    lemma_pow2_adds(64, 64);
}

/// Powers below `2^128` stay within `u128` range.
proof fn lemma_pow2_increase_bound(k: nat)
    ensures
        k < 128 ==> pow2(k) < pow2(128),
        pow2(128) == 0x100000000000000000000000000000000,
{
    lemma_pow2_128();
    if k < 128 {
        lemma_pow2_strictly_increases(k, 128);
    }
}

/// Converts a non-negative integer to the bit pattern of the nearest
/// double, rounding ties to even.
pub fn int_to_f64_bits(n: u128) -> (r: u64)
    ensures
        r == spec_int_to_f64_bits(n as nat),
{
    if n == 0 {
        return F64_ZERO_BITS;
    }
    let len = bitlen_u128(n);
    proof {
        lemma_bitlen_bounds(n as nat);
        lemma2_to64();
        lemma2_to64_rest();
    }
    if len <= 53 {
        let scale = pow2_u128((53 - len) as usize);
        proof {
            lemma_pow2_adds((len - 1) as nat, (53 - len) as nat);
            lemma_pow2_adds(len as nat, (53 - len) as nat);
            assert(pow2((len - 1) as nat) * pow2((53 - len) as nat) <= (n as nat) * pow2(
                (53 - len) as nat,
            ) && (n as nat) * pow2((53 - len) as nat) < pow2(len as nat) * pow2(
                (53 - len) as nat,
            )) by (nonlinear_arith)
                requires
                    pow2((len - 1) as nat) <= n as nat,
                    (n as nat) < pow2(len as nat),
                    pow2((53 - len) as nat) > 0,
            ;
        }
        let m = n * scale;
        let m64: u64 = m as u64;
        proof {
            assert(pow2(52) <= m < pow2(53));
        }
        let e: u64 = (len - 1) as u64;
        (e + EXPONENT_BIAS) * MANTISSA_BASE + (m64 - MANTISSA_BASE)
    } else {
        let sh = len - 53;
        let p = pow2_u128(sh);
        proof {
            lemma_pow2_pos(sh as nat);
            vstd::arithmetic::power2::lemma_pow2_unfold(sh as nat);
            lemma_div_bounds(n as nat, pow2(sh as nat), len as nat);
        }
        let keep = n / p;
        let rest = n % p;
        let half = p / 2;
        proof {
            assert(half == pow2((sh - 1) as nat));
        }
        let m: u128 = if rest > half || (rest == half && keep % 2 == 1) {
            keep + 1
        } else {
            keep
        };
        proof {
            assert(pow2(52) <= m <= pow2(53));
        }
        if m == 0x20000000000000 {
            let e: u64 = len as u64;
            proof {
                assert(m == pow2(53));
            }
            (e + EXPONENT_BIAS) * MANTISSA_BASE
        } else {
            let e: u64 = (len - 1) as u64;
            let m64: u64 = m as u64;
            proof {
                assert(m != pow2(53));
                assert(m < pow2(53));
            }
            (e + EXPONENT_BIAS) * MANTISSA_BASE + (m64 - MANTISSA_BASE)
        }
    }
}

/// Truncating division keeps the quotient of a 53-bit-normalized value in
/// the mantissa range.
proof fn lemma_div_bounds(n: nat, p: nat, len: nat)
    requires
        len > 53,
        p == pow2((len - 53) as nat),
        pow2((len - 1) as nat) <= n < pow2(len),
    ensures
        pow2(52) <= n / p < pow2(53),
{
    lemma_pow2_pos((len - 53) as nat);
    lemma_pow2_adds(52, (len - 53) as nat);
    lemma_pow2_adds(53, (len - 53) as nat);
    assert(pow2((len - 1) as nat) == pow2(52) * p);
    assert(pow2(len) == pow2(53) * p);
    assert(n / p >= pow2(52)) by (nonlinear_arith)
        requires
            p > 0,
            n >= pow2(52) * p,
    ;
    assert(n / p < pow2(53)) by (nonlinear_arith)
        requires
            p > 0,
            n < pow2(53) * p,
    ;
}

/// Smallest count of doublings that lifts `r` to at least `den`
/// (0 where `r` is already there, and for the degenerate `r == 0`).
/// Termination measure of [`norm_shift`]: the distance still to cover.
pub open spec fn norm_shift_measure(r: nat, den: nat) -> int {
    if r >= den {
        0
    } else {
        den - r
    }
}

pub open spec fn norm_shift(r: nat, den: nat) -> nat
    decreases norm_shift_measure(r, den),
{
    if r == 0 {
        0
    } else if r >= den {
        0
    } else {
        1 + norm_shift((2 * r) as nat, den)
    }
}







/// A positive remainder's normalizing shift lands its doubled value in
/// `[den, 2 den)`.
proof fn lemma_norm_shift_pos_bound(r: nat, den: nat)
    requires
        1 <= r < den,
    ensures
        den <= r * pow2(norm_shift(r, den)),
        r * pow2(norm_shift(r, den)) < 2 * den,
    decreases den - r,
{
    lemma2_to64();
    let f = norm_shift(r, den);
    if 2 * r >= den {
        assert(f == 1 + norm_shift((2 * r) as nat, den));
        assert(norm_shift((2 * r) as nat, den) == 0);
        vstd::arithmetic::power2::lemma_pow2_unfold(1);
        assert(r * pow2(1) == 2 * r) by (nonlinear_arith)
            requires
                pow2(1) == 2,
        ;
    } else {
        lemma_norm_shift_pos_bound((2 * r) as nat, den);
        let f2 = norm_shift((2 * r) as nat, den);
        assert(f == 1 + f2);
        vstd::arithmetic::power2::lemma_pow2_unfold((f2 + 1) as nat);
        assert(r * pow2((f2 + 1) as nat) == (2 * r) * pow2(f2)) by (nonlinear_arith)
            requires
                pow2((f2 + 1) as nat) == 2 * pow2(f2),
        ;
    }
}










/// Smallest count of doublings that lifts `b` past half of `a`: for
/// `1 <= b <= a` it is the unique `g` with `b * 2^g <= a < b * 2^(g+1)`.
pub open spec fn up_shift(b: nat, a: nat) -> nat
    decreases a - b,
{
    if b == 0 {
        0
    } else if 2 * b > a {
        0
    } else {
        1 + up_shift((2 * b) as nat, a)
    }
}

/// The bracket the upward shift lands in.
pub proof fn lemma_up_shift_bracket(b: nat, a: nat)
    requires
        1 <= b <= a,
    ensures
        b * pow2(up_shift(b, a)) <= a,
        a < b * pow2(up_shift(b, a) + 1),
    decreases a - b,
{
    lemma2_to64();
    let g = up_shift(b, a);
    if 2 * b > a {
        assert(b * pow2(0) == b) by (nonlinear_arith)
            requires
                pow2(0) == 1,
        ;
        assert(b * pow2(1) == 2 * b) by (nonlinear_arith)
            requires
                pow2(1) == 2,
        ;
    } else {
        lemma_up_shift_bracket((2 * b) as nat, a);
        let g2 = up_shift((2 * b) as nat, a);
        assert(g == 1 + g2);
        vstd::arithmetic::power2::lemma_pow2_unfold((g2 + 1) as nat);
        vstd::arithmetic::power2::lemma_pow2_unfold((g2 + 2) as nat);
        assert((2 * b) * pow2(g2) == b * pow2((g2 + 1) as nat)) by (nonlinear_arith)
            requires
                pow2((g2 + 1) as nat) == 2 * pow2(g2),
        ;
        assert((2 * b) * pow2((g2 + 1) as nat) == b * pow2((g2 + 2) as nat)) by (nonlinear_arith)
            requires
                pow2((g2 + 2) as nat) == 2 * pow2((g2 + 1) as nat),
        ;
    }
}

/// The bracket determines the shift: it is unique.
pub proof fn lemma_up_shift_unique(b: nat, a: nat, g: nat)
    requires
        1 <= b <= a,
        b * pow2(g) <= a,
        a < b * pow2(g + 1),
    ensures
        up_shift(b, a) == g,
{
    let u = up_shift(b, a);
    lemma_up_shift_bracket(b, a);
    if u < g {
        if u + 1 < g {
            lemma_pow2_strictly_increases(u + 1, g);
        }
        assert(b * pow2(u + 1) <= b * pow2(g)) by (nonlinear_arith)
            requires
                pow2(u + 1) <= pow2(g),
                b >= 0,
        ;
        assert(false);
    }
    if u > g {
        if g + 1 < u {
            lemma_pow2_strictly_increases(g + 1, u);
        }
        assert(b * pow2(g + 1) <= b * pow2(u)) by (nonlinear_arith)
            requires
                pow2(g + 1) <= pow2(u),
                b >= 0,
        ;
        assert(false);
    }
}

/// A bracket below the shift forces it at least that high.
pub proof fn lemma_up_shift_at_least(b: nat, a: nat, g: nat)
    requires
        1 <= b,
        b * pow2(g) <= a,
    ensures
        up_shift(b, a) >= g,
{
    lemma_pow2_pos(g);
    assert(a >= b) by (nonlinear_arith)
        requires
            b * pow2(g) <= a,
            pow2(g) >= 1,
            b >= 1,
    ;
    let u = up_shift(b, a);
    lemma_up_shift_bracket(b, a);
    if u < g {
        if u + 1 < g {
            lemma_pow2_strictly_increases(u + 1, g);
        }
        assert(b * pow2(u + 1) <= b * pow2(g)) by (nonlinear_arith)
            requires
                pow2(u + 1) <= pow2(g),
                b >= 0,
        ;
        assert(false);
    }
}

/// The downward shift determines itself the same way.
pub proof fn lemma_norm_shift_unique(a: nat, b: nat, f: nat)
    requires
        1 <= a < b,
        b <= a * pow2(f),
        a * pow2(f) < 2 * b,
    ensures
        norm_shift(a, b) == f,
{
    let u = norm_shift(a, b);
    lemma_norm_shift_pos_bound(a, b);
    if u < f {
        lemma_pow2_unfold_ge(u, f);
        assert(2 * (a * pow2(u)) <= a * pow2(f)) by (nonlinear_arith)
            requires
                pow2(f) >= 2 * pow2(u),
                a >= 1,
        ;
        assert(false);
    }
    if u > f {
        lemma_pow2_unfold_ge(f, u);
        assert(2 * (a * pow2(f)) <= a * pow2(u)) by (nonlinear_arith)
            requires
                pow2(u) >= 2 * pow2(f),
                a >= 1,
        ;
        assert(false);
    }
}

/// Doubling a strictly smaller power at least doubles it.
proof fn lemma_pow2_unfold_ge(u: nat, f: nat)
    requires
        u < f,
    ensures
        pow2(f) >= 2 * pow2(u),
{
    vstd::arithmetic::power2::lemma_pow2_unfold(f);
    if u < f - 1 {
        lemma_pow2_strictly_increases(u, (f - 1) as nat);
    }
}

/// A short value forces the downward shift past any bound.
pub proof fn lemma_norm_shift_at_least(a: nat, b: nat, f: nat)
    requires
        1 <= a,
        a * pow2(f) < b,
    ensures
        norm_shift(a, b) > f,
{
    let u = norm_shift(a, b);
    lemma_pow2_pos(f);
    assert(a < b) by (nonlinear_arith)
        requires
            a * pow2(f) < b,
            pow2(f) >= 1,
            a >= 1,
    ;
    lemma_norm_shift_pos_bound(a, b);
    if u <= f {
        if u < f {
            lemma_pow2_strictly_increases(u, f);
        }
        assert(b <= a * pow2(u) && pow2(u) <= pow2(f) ==> b <= a * pow2(f)) by (nonlinear_arith)
            requires
                a >= 0,
        ;
        assert(false);
    }
}

/// Floor of the base-two logarithm of `a / b`.
pub open spec fn rat_log2(a: nat, b: nat) -> int {
    if a >= b {
        up_shift(b, a) as int
    } else {
        -(norm_shift(a, b) as int)
    }
}

/// An integer-threshold test moves through a floor division.
pub proof fn lemma_div_ge(num: nat, den: nat, x: nat)
    requires
        den >= 1,
    ensures
        (num >= x * den) <==> (num / den >= x),
{
    vstd::arithmetic::div_mod::lemma_fundamental_div_mod(num as int, den as int);
    assert((num >= x * den) <==> (num / den >= x)) by (nonlinear_arith)
        requires
            den >= 1,
            num == (num / den) * den + (num % den),
            0 <= num % den < den,
    ;
}

/// The half-way comparison of a remainder restated over the inputs.
pub proof fn lemma_round_test(num: nat, den: nat, q: nat)
    requires
        den >= 1,
        q == num / den,
    ensures
        (2 * num > (2 * q + 1) * den) <==> (2 * (num % den) > den),
        (2 * num == (2 * q + 1) * den) <==> (2 * (num % den) == den),
{
    vstd::arithmetic::div_mod::lemma_fundamental_div_mod(num as int, den as int);
    assert(((2 * num > (2 * q + 1) * den) <==> (2 * (num % den) > den)) && ((2 * num == (2 * q + 1)
        * den) <==> (2 * (num % den) == den))) by (nonlinear_arith)
        requires
            den >= 1,
            num == q * den + (num % den),
            0 <= num % den < den,
    ;
}

/// The correctly rounded double bit pattern of `a / b` (ties to even),
/// with sign bit 0, saturating to infinity above the largest finite
/// double and to zero below half the smallest subnormal.
pub open spec fn spec_rat_to_f64_bits(a: nat, b: nat) -> u64 {
    let e = rat_log2(a, b);
    if e >= 1024 {
        F64_INFINITY_BITS
    } else if e < -1075 {
        0
    } else {
        let sigma = if e >= -1022 {
            52 - e
        } else {
            1074int
        };
        let num = if sigma >= 0 {
            a * pow2(sigma as nat)
        } else {
            a
        };
        let den = if sigma >= 0 {
            b
        } else {
            b * pow2((-sigma) as nat)
        };
        let q = num / den;
        let r = num % den;
        let i = if 2 * r > den || (2 * r == den && q % 2 == 1) {
            (q + 1) as nat
        } else {
            q
        };
        if e >= -1022 {
            let e2 = if i == pow2(53) {
                e + 1
            } else {
                e
            };
            let m = if i == pow2(53) {
                pow2(52)
            } else {
                i
            };
            if e2 >= 1024 {
                F64_INFINITY_BITS
            } else {
                (((e2 + 1023) * pow2(52) + (m - pow2(52))) as u64)
            }
        } else {
            (i as u64)
        }
    }
}

/// The scaled quotient the conversion rounds sits in the mantissa range.
proof fn lemma_q_bounds(a: nat, b: nat, e: int)
    requires
        a >= 1,
        b >= 1,
        e == rat_log2(a, b),
        -1075 <= e <= 1023,
    ensures
        ({
            let sigma = if e >= -1022 {
                52 - e
            } else {
                1074int
            };
            let num = if sigma >= 0 {
                a * pow2(sigma as nat)
            } else {
                a
            };
            let den = if sigma >= 0 {
                b
            } else {
                b * pow2((-sigma) as nat)
            };
            &&& den >= 1
            &&& num >= 1
            &&& (e >= -1022 ==> pow2(52) <= num / den && num / den < pow2(53))
            &&& (e < -1022 ==> num / den < pow2(52))
        }),
{
    let sigma = if e >= -1022 {
        52 - e
    } else {
        1074int
    };
    let num = if sigma >= 0 {
        a * pow2(sigma as nat)
    } else {
        a
    };
    let den = if sigma >= 0 {
        b
    } else {
        b * pow2((-sigma) as nat)
    };
    lemma_pow2_pos(52);
    lemma_pow2_pos(53);
    if sigma >= 0 {
        lemma_pow2_pos(sigma as nat);
        assert(num >= 1) by (nonlinear_arith)
            requires
                a >= 1,
                pow2(sigma as nat) >= 1,
                num == a * pow2(sigma as nat),
        ;
    } else {
        lemma_pow2_pos((-sigma) as nat);
        assert(den >= 1) by (nonlinear_arith)
            requires
                b >= 1,
                pow2((-sigma) as nat) >= 1,
                den == b * pow2((-sigma) as nat),
        ;
    }
    if e >= 0 {
        assert(a >= b) by {
            if a < b {
                assert(norm_shift(a, b) >= 1);
                assert(false);
            }
        }
        lemma_up_shift_bracket(b, a);
        assert(b * pow2(e as nat) <= a && a < b * pow2((e + 1) as nat));
        if sigma >= 0 {
            lemma_pow2_adds((e + 1) as nat, sigma as nat);
            lemma_pow2_adds(e as nat, sigma as nat);
            lemma_pow2_pos(sigma as nat);
            assert((e + 1) + sigma == 53 && e + sigma == 52);
            assert(num < b * pow2(53)) by (nonlinear_arith)
                requires
                    num == a * pow2(sigma as nat),
                    a < b * pow2((e + 1) as nat),
                    pow2((e + 1) as nat) * pow2(sigma as nat) == pow2(53),
                    pow2(sigma as nat) > 0,
            ;
            assert(num >= b * pow2(52)) by (nonlinear_arith)
                requires
                    num == a * pow2(sigma as nat),
                    a >= b * pow2(e as nat),
                    pow2(e as nat) * pow2(sigma as nat) == pow2(52),
                    pow2(sigma as nat) > 0,
            ;
            lemma_div_ge(num, den, pow2(52));
            lemma_div_ge(num, den, pow2(53));
            assert(pow2(52) * den == den * pow2(52)) by (nonlinear_arith);
            assert(pow2(53) * den == den * pow2(53)) by (nonlinear_arith);
            assert(b * pow2(52) == pow2(52) * b) by (nonlinear_arith);
            assert(b * pow2(53) == pow2(53) * b) by (nonlinear_arith);
        } else {
            lemma_pow2_adds((e - 52) as nat, 53);
            lemma_pow2_adds((e - 52) as nat, 52);
            lemma_pow2_pos((e - 52) as nat);
            assert(num < den * pow2(53)) by (nonlinear_arith)
                requires
                    num == a,
                    den == b * pow2((e - 52) as nat),
                    a < b * pow2((e + 1) as nat),
                    pow2((e - 52) as nat) * pow2(53) == pow2((e + 1) as nat),
            ;
            assert(num >= den * pow2(52)) by (nonlinear_arith)
                requires
                    num == a,
                    den == b * pow2((e - 52) as nat),
                    a >= b * pow2(e as nat),
                    pow2((e - 52) as nat) * pow2(52) == pow2(e as nat),
            ;
            lemma_div_ge(num, den, pow2(52));
            lemma_div_ge(num, den, pow2(53));
            assert(den * pow2(52) == pow2(52) * den) by (nonlinear_arith);
            assert(den * pow2(53) == pow2(53) * den) by (nonlinear_arith);
        }
    } else {
        let f = (-e) as nat;
        assert(a < b) by {
            if a >= b {
                assert(rat_log2(a, b) == up_shift(b, a) as int);
                assert(false);
            }
        }
        lemma_norm_shift_pos_bound(a, b);
        assert(norm_shift(a, b) == f);
        assert(b <= a * pow2(f) && a * pow2(f) < 2 * b);
        if e >= -1022 {
            assert(sigma == 52 + f);
            lemma_pow2_adds(f, 52);
            lemma_pow2_pos(52);
            assert(num >= b * pow2(52)) by (nonlinear_arith)
                requires
                    num == a * pow2((52 + f) as nat),
                    pow2((52 + f) as nat) == pow2(f) * pow2(52),
                    a * pow2(f) >= b,
                    pow2(52) > 0,
            ;
            vstd::arithmetic::power2::lemma_pow2_unfold(53);
            assert(num < b * pow2(53)) by (nonlinear_arith)
                requires
                    num == a * pow2((52 + f) as nat),
                    pow2((52 + f) as nat) == pow2(f) * pow2(52),
                    a * pow2(f) < 2 * b,
                    pow2(53) == 2 * pow2(52),
                    pow2(52) > 0,
            ;
            lemma_div_ge(num, den, pow2(52));
            lemma_div_ge(num, den, pow2(53));
            assert(b * pow2(52) == pow2(52) * den) by (nonlinear_arith)
                requires
                    den == b,
            ;
            assert(b * pow2(53) == pow2(53) * den) by (nonlinear_arith)
                requires
                    den == b,
            ;
        } else {
            // e in [-1075, -1023]: f in [1023, 1075]
            assert(1023 <= f <= 1075);
            lemma_pow2_adds(f, (1075 - f) as nat);
            lemma_pow2_pos((1075 - f) as nat);
            assert(2 * num == a * pow2(1075)) by {
                lemma_pow2_adds(1074, 1);
                lemma2_to64();
                assert(a * pow2(1075) == (a * pow2(1074)) * 2) by (nonlinear_arith)
                    requires
                        pow2(1075) == pow2(1074) * 2,
                ;
            }
            assert(a * pow2(1075) < 2 * b * pow2((1075 - f) as nat)) by (nonlinear_arith)
                requires
                    pow2(1075) == pow2(f) * pow2((1075 - f) as nat),
                    a * pow2(f) < 2 * b,
                    pow2((1075 - f) as nat) > 0,
            ;
            assert(2 * b * pow2((1075 - f) as nat) == 2 * (b * pow2((1075 - f) as nat)))
                by (nonlinear_arith);
            assert(num < b * pow2((1075 - f) as nat)) by (nonlinear_arith)
                requires
                    2 * num < 2 * (b * pow2((1075 - f) as nat)),
            ;
            if 1075 - f < 52 {
                lemma_pow2_strictly_increases((1075 - f) as nat, 52);
            }
            assert(num < b * pow2(52)) by (nonlinear_arith)
                requires
                    num < b * pow2((1075 - f) as nat),
                    pow2((1075 - f) as nat) <= pow2(52),
                    b >= 0,
            ;
            lemma_div_ge(num, den, pow2(52));
            assert(b * pow2(52) == pow2(52) * den) by (nonlinear_arith)
                requires
                    den == b,
            ;
        }
    }
}

/// Converts the ratio of two big integers to the correctly rounded
/// double bit pattern.
#[verifier::rlimit(100)]
#[verifier::spinoff_prover]
pub fn rat_to_f64_bits_big(a: &crate::bignum::BigNum, b: &crate::bignum::BigNum) -> (r: u64)
    requires
        a.wf(),
        b.wf(),
        a@ >= 1,
        b@ >= 1,
    ensures
        r == spec_rat_to_f64_bits(a@, b@),
        r < 0x8000000000000000,
{
    proof {
        lemma2_to64();
        lemma2_to64_rest();
    }
    let c0 = b.cmp_with(a);
    let mut e: i64 = 0;
    if c0 != 2 {
        // a >= b: the exponent is non-negative
        let mut g: u64 = 0;
        let mut cur = b.duplicate();
        loop
            invariant
                a.wf() && b.wf() && cur.wf(),
                a@ >= 1 && b@ >= 1,
                b@ <= a@,
                g <= 1024,
                cur@ == b@ * pow2(g as nat),
                cur@ >= 1,
                cur@ <= a@,
            ensures
                g <= 1023,
                up_shift(b@, a@) == g as nat,
            decreases a@ - cur@,
        {
            if g == 1024 {
                proof {
                    lemma_up_shift_at_least(b@, a@, 1024);
                }
                return F64_INFINITY_BITS;
            }
            let next = cur.mul_small_add(2, 0);
            proof {
                vstd::arithmetic::power2::lemma_pow2_unfold((g + 1) as nat);
                assert((b@ * pow2(g as nat)) * 2 == b@ * pow2((g + 1) as nat)) by (nonlinear_arith)
                    requires
                        pow2((g + 1) as nat) == 2 * pow2(g as nat),
                ;
            }
            if next.cmp_with(a) == 2 {
                proof {
                    lemma_up_shift_unique(b@, a@, g as nat);
                }
                break ;
            }
            proof {
                assert(cur@ < next@) by (nonlinear_arith)
                    requires
                        next@ == cur@ * 2,
                        cur@ >= 1,
                ;
            }
            cur = next;
            g += 1;
        }
        e = g as i64;
        proof {
            assert(e as int == rat_log2(a@, b@));
        }
    } else {
        // a < b: the exponent is negative
        let mut f: u64 = 0;
        let mut cur = a.duplicate();
        loop
            invariant_except_break
                cur@ == a@ * pow2(f as nat),
                cur@ >= 1,
                cur@ < b@,
            invariant
                a.wf() && b.wf() && cur.wf(),
                a@ >= 1 && b@ >= 1,
                a@ < b@,
                f <= 1076,
            ensures
                1 <= f <= 1076,
                norm_shift(a@, b@) == f as nat,
            decreases b@ - cur@,
        {
            if f == 1076 {
                proof {
                    lemma_norm_shift_at_least(a@, b@, 1076);
                    assert(rat_log2(a@, b@) < -1075);
                }
                return 0;
            }
            let next = cur.mul_small_add(2, 0);
            proof {
                vstd::arithmetic::power2::lemma_pow2_unfold((f + 1) as nat);
                assert((a@ * pow2(f as nat)) * 2 == a@ * pow2((f + 1) as nat)) by (nonlinear_arith)
                    requires
                        pow2((f + 1) as nat) == 2 * pow2(f as nat),
                ;
            }
            if next.cmp_with(b) != 0 {
                proof {
                    lemma_norm_shift_unique(a@, b@, (f + 1) as nat);
                }
                f += 1;
                break ;
            }
            proof {
                assert(cur@ < next@) by (nonlinear_arith)
                    requires
                        next@ == cur@ * 2,
                        cur@ >= 1,
                ;
            }
            cur = next;
            f += 1;
        }
        e = -(f as i64);
        proof {
            assert(e as int == rat_log2(a@, b@));
        }
        if f == 1076 {
            proof {
                assert(rat_log2(a@, b@) == -1076);
            }
            return 0;
        }
    }
    proof {
        assert(-1075 <= e as int <= 1023);
        lemma_q_bounds(a@, b@, e as int);
    }
    let sigma: i64 = if e >= -1022 {
        52 - e
    } else {
        1074
    };
    let (num, den) = if sigma >= 0 {
        (a.scale2(sigma as usize), b.duplicate())
    } else {
        (a.duplicate(), b.scale2((-sigma) as usize))
    };
    let ghost qs = num@ / den@;
    let mut p: u64 = 0;
    let mut pw: u64 = 0x10000000000000;
    let ghost mut kk: int = 52;
    proof {
        assert(qs < pow2(53));
    }
    loop
        invariant
            num.wf() && den.wf(),
            den@ >= 1,
            qs == num@ / den@,
            qs < pow2(53),
            -1 <= kk <= 52,
            pw as nat == (if kk >= 0 {
                pow2(kk as nat)
            } else {
                0nat
            }),
            p <= qs,
            pw <= 0x10000000000000,
            qs < p + (if kk >= 0 {
                pow2((kk + 1) as nat)
            } else {
                1nat
            }),
        ensures
            p == qs,
        decreases pw,
    {
        proof {
            lemma2_to64();
            lemma2_to64_rest();
            if kk >= 0 {
                lemma_pow2_pos(kk as nat);
                vstd::arithmetic::power2::lemma_pow2_unfold((kk + 1) as nat);
            }
        }
        if pw == 0 {
            proof {
                assert(kk < 0);
                assert(p == qs);
            }
            break ;
        }
        let x = p + pw;
        let rhs = den.mul_small_add(x, 0);
        let c = num.cmp_with(&rhs);
        proof {
            lemma_div_ge(num@, den@, x as nat);
            assert(x * den@ == den@ * x) by (nonlinear_arith);
        }
        if c != 0 {
            p = x;
        }
        proof {
            if kk >= 1 {
                vstd::arithmetic::power2::lemma_pow2_unfold(kk as nat);
            }
            kk = kk - 1;
        }
        pw = pw / 2;
    }
    let two_num = num.mul_small_add(2, 0);
    let x2: u64 = 2 * p + 1;
    let rhs2 = den.mul_small_add(x2, 0);
    let c2 = two_num.cmp_with(&rhs2);
    let up = c2 == 2 || (c2 == 1 && p % 2 == 1);
    proof {
        lemma_round_test(num@, den@, qs);
        assert(x2 * den@ == den@ * x2) by (nonlinear_arith);
    }
    let i_val: u64 = if up {
        p + 1
    } else {
        p
    };
    if e >= -1022 {
        if i_val == 0x20000000000000 {
            let e2 = e + 1;
            if e2 >= 1024 {
                return F64_INFINITY_BITS;
            }
            return ((e2 + 1023) as u64) * MANTISSA_BASE;
        }
        proof {
            assert(i_val >= 0x10000000000000);
        }
        return ((e + 1023) as u64) * MANTISSA_BASE + (i_val - MANTISSA_BASE);
    }
    i_val
}

/// Sets the sign bit of a magnitude whose own sign bit is clear.
pub fn with_sign_bit(bits: u64, negative: bool) -> (r: u64)
    requires
        bits < 0x8000000000000000,
    ensures
        r == spec_with_sign_bit(bits, negative),
{
    if negative {
        bits + 0x8000000000000000
    } else {
        bits
    }
}

/// Specification twin of [`with_sign_bit`].
pub open spec fn spec_with_sign_bit(bits: u64, negative: bool) -> u64 {
    if negative {
        (bits + 0x8000000000000000) as u64
    } else {
        bits
    }
}

/// The assembled bit pattern of a finite value stays below the sign bit.
pub proof fn lemma_int_bits_in_range(n: nat)
    requires
        n < pow2(128),
    ensures
        spec_int_to_f64_bits(n) < 0x8000000000000000,
{
    lemma2_to64();
    lemma2_to64_rest();
    lemma_pow2_128();
    if n > 0 {
        lemma_bitlen_bounds(n);
        lemma_bitlen_le(n, 128);
        let len = bitlen(n);
        assert(len <= 128);
        if len <= 53 {
            lemma_pow2_adds((len - 1) as nat, (53 - len) as nat);
            lemma_pow2_adds(len as nat, (53 - len) as nat);
            lemma_pow2_pos((53 - len) as nat);
            assert(n * pow2((53 - len) as nat) < pow2(len) * pow2((53 - len) as nat))
                by (nonlinear_arith)
                requires
                    n < pow2(len),
                    pow2((53 - len) as nat) > 0,
            ;
            assert(n * pow2((53 - len) as nat) >= pow2((len - 1) as nat) * pow2(
                (53 - len) as nat,
            )) by (nonlinear_arith)
                requires
                    n >= pow2((len - 1) as nat),
                    pow2((53 - len) as nat) > 0,
            ;
        } else {
            lemma_div_bounds(n, pow2((len - 53) as nat), len);
        }
    }
}

} // verus!
