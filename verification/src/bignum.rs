//! Arbitrary-precision non-negative integers.
//!
//! The exact decimal conversion compares a decimal's value against dyadic
//! boundaries by cross-multiplication, which needs integers far beyond 128
//! bits.  This module provides the little that takes: construction from
//! decimal digits, multiplication by a small factor, and comparison.  A
//! value is a little-endian vector of 64-bit limbs with no leading zero
//! limb.

use vstd::arithmetic::power2::lemma2_to64;
use vstd::arithmetic::power2::lemma_pow2_adds;
use vstd::arithmetic::power2::lemma_pow2_pos;
use vstd::arithmetic::power2::pow2;
use vstd::prelude::*;

use crate::utils::all_digits;
use crate::utils::digits_val;

verus! {

/// Bit position of limb `k`.
pub open spec fn w64(k: int) -> nat {
    if k >= 0 {
        (64 * k) as nat
    } else {
        0
    }
}

/// The number a little-endian limb sequence denotes.
pub open spec fn limbs_val(s: Seq<u64>) -> nat
    decreases s.len(),
{
    if s.len() == 0 {
        0
    } else {
        (limbs_val(s.drop_last()) + s.last() * pow2(w64(s.len() - 1))) as nat
    }
}

/// A prefix of limbs stays below its positional weight.
pub proof fn lemma_limbs_val_bound(s: Seq<u64>)
    ensures
        limbs_val(s) < pow2(w64(s.len() as int)),
    decreases s.len(),
{
    lemma_pow2_pos(w64(s.len() as int));
    if s.len() > 0 {
        lemma_limbs_val_bound(s.drop_last());
        lemma_pow2_adds(w64(s.len() - 1), 64);
        lemma2_to64();
        vstd::arithmetic::power2::lemma_pow2_adds(32, 32);
        assert(pow2(64) == 0x10000000000000000) by {
            vstd::arithmetic::power2::lemma2_to64_rest();
        }
        assert(limbs_val(s.drop_last()) + s.last() * pow2(w64(s.len() - 1)) < pow2(
            w64(s.len() as int),
        )) by (nonlinear_arith)
            requires
                limbs_val(s.drop_last()) < pow2(w64(s.len() - 1)),
                s.last() < 0x10000000000000000,
                pow2(w64(s.len() as int)) == pow2(w64(s.len() - 1)) * 0x10000000000000000,
                pow2(w64(s.len() - 1)) > 0,
        ;
    }
}

/// A sequence with a non-zero top limb reaches its top weight.
pub proof fn lemma_limbs_val_lower(s: Seq<u64>)
    requires
        s.len() > 0,
        s.last() != 0,
    ensures
        limbs_val(s) >= pow2(w64(s.len() - 1)),
{
    lemma_pow2_pos(w64(s.len() - 1));
    assert(s.last() * pow2(w64(s.len() - 1)) >= pow2(w64(s.len() - 1))) by (nonlinear_arith)
        requires
            s.last() >= 1,
            pow2(w64(s.len() - 1)) > 0,
    ;
}

/// Appending one limb adds it at its positional weight.
pub proof fn lemma_limbs_val_push(s: Seq<u64>, x: u64)
    ensures
        limbs_val(s.push(x)) == limbs_val(s) + x * pow2(w64(s.len() as int)),
{
    assert(s.push(x).drop_last() =~= s);
    assert(s.push(x).last() == x);
}

/// The value splits at any limb boundary.
pub proof fn lemma_limbs_val_split(s: Seq<u64>, i: int)
    requires
        0 <= i <= s.len(),
    ensures
        limbs_val(s) == limbs_val(s.take(i)) + pow2(w64(i as int)) * limbs_val(s.skip(i)),
    decreases s.len() - i,
{
    if i == s.len() {
        assert(s.take(i) =~= s);
        assert(s.skip(i) =~= Seq::<u64>::empty());
        lemma_pow2_pos(w64(i as int));
        assert(limbs_val(s) == limbs_val(s) + pow2(w64(i as int)) * 0) by (nonlinear_arith);
    } else {
        lemma_limbs_val_split(s.drop_last(), i);
        assert(s.drop_last().take(i) =~= s.take(i));
        assert(s.drop_last().skip(i) =~= s.skip(i).drop_last());
        assert(s.skip(i).last() == s.last());
        assert(s.skip(i).len() == s.len() - i);
        lemma_pow2_adds(w64(i as int), w64(s.len() - i - 1));
        assert(limbs_val(s.skip(i)) == limbs_val(s.skip(i).drop_last()) + s.last() * pow2(
            w64(s.len() - i - 1),
        ));
        assert(pow2(w64(i as int)) * (limbs_val(s.skip(i).drop_last()) + s.last() * pow2(
            w64(s.len() - i - 1),
        )) == pow2(w64(i as int)) * limbs_val(s.skip(i).drop_last()) + s.last() * (pow2(w64(i as int)) * pow2(
            w64(s.len() - i - 1),
        ))) by (nonlinear_arith);
    }
}

/// One limb denotes itself.
pub proof fn lemma_limbs_val_single(x: u64)
    ensures
        limbs_val(seq![x]) == x,
{
    let s = seq![x];
    assert(s.len() == 1);
    assert(s[0] == x);
    assert(s.last() == x);
    assert(s.drop_last() =~= Seq::<u64>::empty());
    assert(limbs_val(s.drop_last()) == 0);
    assert(w64(0) == 0);
    lemma2_to64();
    assert(limbs_val(s) == (limbs_val(s.drop_last()) + s.last() * pow2(w64(s.len() - 1))) as nat);
    assert((0 + x * pow2(0)) as nat == x) by (nonlinear_arith)
        requires
            pow2(0) == 1,
    ;
}

/// An arbitrary-precision non-negative integer.
pub struct BigNum {
    limbs: Vec<u64>,
}

impl View for BigNum {
    type V = nat;

    closed spec fn view(&self) -> nat {
        limbs_val(self.limbs@)
    }
}

impl BigNum {
    /// Normal form: no leading zero limb.
    pub closed spec fn wf(&self) -> bool {
        self.limbs@.len() == 0 || self.limbs@.last() != 0
    }

    /// The number zero.
    pub fn zero() -> (r: BigNum)
        ensures
            r@ == 0,
            r.wf(),
    {
        BigNum { limbs: Vec::new() }
    }

    /// A number from one limb.
    pub fn from_u64(x: u64) -> (r: BigNum)
        ensures
            r@ == x,
            r.wf(),
    {
        let mut limbs: Vec<u64> = Vec::new();
        if x > 0 {
            limbs.push(x);
        }
        let r = BigNum { limbs };
        proof {
            if x > 0 {
                assert(r.limbs@ =~= seq![x]);
                lemma_limbs_val_single(x);
            }
        }
        r
    }

    /// An owned copy.
    pub fn duplicate(&self) -> (r: BigNum)
        ensures
            r@ == self@,
            self.wf() ==> r.wf(),
    {
        let r = BigNum { limbs: clone_limbs(&self.limbs) };
        proof {
            assert(r.limbs@ =~= self.limbs@);
        }
        r
    }

    /// Whether this is zero.
    pub fn is_zero(&self) -> (r: bool)
        requires
            self.wf(),
        ensures
            r <==> self@ == 0,
    {
        proof {
            if self.limbs@.len() > 0 {
                lemma_limbs_val_lower(self.limbs@);
                lemma_pow2_pos(w64(self.limbs@.len() - 1));
            }
        }
        self.limbs.len() == 0
    }

    /// `self * m + c`: the one arithmetic step everything is built from.
    pub fn mul_small_add(&self, m: u64, c: u64) -> (r: BigNum)
        requires
            self.wf(),
            m >= 1,
        ensures
            r@ == self@ * m + c,
            r.wf(),
    {
        let n = self.limbs.len();
        let mut out: Vec<u64> = Vec::new();
        let mut carry: u64 = c;
        let mut i: usize = 0;
        proof {
            lemma2_to64();
            assert(pow2(64) == 0x10000000000000000) by {
                vstd::arithmetic::power2::lemma2_to64_rest();
            }
            assert(out@.take(0) =~= Seq::<u64>::empty());
            assert(limbs_val(out@) + carry * pow2(0) == limbs_val(self.limbs@.take(0)) * m + c)
                by (nonlinear_arith)
                requires
                    pow2(0) == 1,
                    limbs_val(out@) == 0,
                    limbs_val(self.limbs@.take(0)) == 0,
                    carry == c,
            ;
        }
        while i < n
            invariant
                i <= n == self.limbs@.len(),
                m >= 1,
                out@.len() == i,
                limbs_val(out@) + carry * pow2(w64(i as int)) == limbs_val(self.limbs@.take(i as int)) * m
                    + c,
            decreases n - i,
        {
            proof {
                assert((self.limbs@[i as int] as nat) * (m as nat) + (carry as nat)
                    < 0x100000000000000000000000000000000) by (nonlinear_arith)
                    requires
                        self.limbs@[i as int] <= 0xffffffffffffffffu64,
                        m <= 0xffffffffffffffffu64,
                        carry <= 0xffffffffffffffffu64,
                ;
            }
            let t: u128 = (self.limbs[i] as u128) * (m as u128) + (carry as u128);
            let lo: u64 = (t % 0x10000000000000000) as u64;
            let hi: u64 = (t / 0x10000000000000000) as u64;
            proof {
                let prev = self.limbs@.take(i as int);
                let next = self.limbs@.take(i + 1);
                assert(next.drop_last() =~= prev);
                assert(next.last() == self.limbs@[i as int]);
                lemma_limbs_val_push(out@, lo);
                lemma_pow2_adds(w64(i as int), 64);
                lemma_pow2_pos(w64(i as int));
                assert(pow2(64) == 0x10000000000000000) by {
                    vstd::arithmetic::power2::lemma2_to64_rest();
                }
                assert(t == lo + hi * 0x10000000000000000) by (nonlinear_arith)
                    requires
                        lo == t % 0x10000000000000000,
                        hi == t / 0x10000000000000000,
                ;
                assert(limbs_val(out@) + lo * pow2(w64(i as int)) + hi * pow2(w64(i + 1)) == limbs_val(
                    next,
                ) * m + c) by (nonlinear_arith)
                    requires
                        limbs_val(out@) + carry * pow2(w64(i as int)) == limbs_val(prev) * m + c,
                        limbs_val(next) == limbs_val(prev) + self.limbs@[i as int] * pow2(w64(i as int)),
                        t == self.limbs@[i as int] * m + carry,
                        t == lo + hi * 0x10000000000000000,
                        pow2(w64(i + 1)) == pow2(w64(i as int)) * 0x10000000000000000,
                        pow2(w64(i as int)) > 0,
                ;
            }
            out.push(lo);
            carry = hi;
            i += 1;
        }
        proof {
            assert(self.limbs@.take(n as int) =~= self.limbs@);
        }
        if carry > 0 {
            proof {
                lemma_limbs_val_push(out@, carry);
            }
            out.push(carry);
            let r = BigNum { limbs: out };
            return r;
        }
        proof {
            assert(carry * pow2(w64(n as int)) == 0) by (nonlinear_arith)
                requires
                    carry == 0,
            ;
            if out@.len() > 0 && out@.last() == 0 {
                // the top produced limb cannot be zero: the top input limb
                // is non-zero and the factor is at least one
                if self.limbs@.len() > 0 {
                    let k = out@.len() - 1;
                    lemma_limbs_val_split(out@, k);
                    assert(out@.skip(k) =~= seq![out@.last()]);
                    assert(limbs_val(seq![out@.last()]) == 0) by {
                        assert(seq![out@.last()].drop_last() =~= Seq::<u64>::empty());
                        assert(out@.last() * pow2(0) == 0) by (nonlinear_arith)
                            requires
                                out@.last() == 0,
                        ;
                    }
                    assert(pow2(w64(k as int)) * 0 == 0) by (nonlinear_arith);
                    lemma_limbs_val_bound(out@.take(k));
                    lemma_limbs_val_lower(self.limbs@);
                    assert(limbs_val(self.limbs@) * m >= pow2(w64(self.limbs@.len() - 1)) * 1)
                        by (nonlinear_arith)
                        requires
                            limbs_val(self.limbs@) >= pow2(w64(self.limbs@.len() - 1)),
                            m >= 1,
                    ;
                    assert(false);
                }
            }
        }
        BigNum { limbs: out }
    }

    /// `self * 2^k`.
    pub fn scale2(&self, k: usize) -> (r: BigNum)
        requires
            self.wf(),
        ensures
            r@ == self@ * pow2(k as nat),
            r.wf(),
    {
        let mut cur = BigNum { limbs: clone_limbs(&self.limbs) };
        let mut i: usize = 0;
        proof {
            lemma2_to64();
            assert(self@ * pow2(0) == self@) by (nonlinear_arith)
                requires
                    pow2(0) == 1,
            ;
        }
        while i < k
            invariant
                i <= k,
                cur@ == self@ * pow2(i as nat),
                cur.wf(),
            decreases k - i,
        {
            proof {
                lemma_pow2_adds(i as nat, 1);
                lemma2_to64();
                assert((self@ * pow2(i as nat)) * 2 == self@ * pow2((i + 1) as nat))
                    by (nonlinear_arith)
                    requires
                        pow2((i + 1) as nat) == pow2(i as nat) * 2,
                ;
            }
            cur = cur.mul_small_add(2, 0);
            i += 1;
        }
        cur
    }


    /// The number a decimal digit run denotes.
    pub fn from_digits(digits: &[u8], from: usize, to: usize) -> (r: BigNum)
        requires
            from <= to <= digits@.len(),
            forall|k: int| from <= k < to ==> 48 <= #[trigger] digits@[k] <= 57,
        ensures
            r@ == digits_val(digits@.subrange(from as int, to as int)),
            r.wf(),
    {
        let mut cur = BigNum::zero();
        let mut i: usize = from;
        proof {
            assert(digits@.subrange(from as int, from as int) =~= Seq::<u8>::empty());
        }
        while i < to
            invariant
                from <= i <= to <= digits@.len(),
                forall|k: int| from <= k < to ==> 48 <= #[trigger] digits@[k] <= 57,
                cur@ == digits_val(digits@.subrange(from as int, i as int)),
                cur.wf(),
            decreases to - i,
        {
            let d = (digits[i] - 48) as u64;
            proof {
                let prev = digits@.subrange(from as int, i as int);
                let next = digits@.subrange(from as int, i + 1);
                assert(next.drop_last() =~= prev);
                assert(next.last() == digits@[i as int]);
                assert(all_digits(prev)) by {
                    assert(forall|k: int|
                        0 <= k < prev.len() ==> prev[k] == #[trigger] digits@[k + from]);
                }
                crate::utils::lemma_digits_val_nonneg(prev);
            }
            cur = cur.mul_small_add(10, d);
            i += 1;
        }
        cur
    }

    /// Three-way comparison: 0 for less, 1 for equal, 2 for greater.
    pub fn cmp_with(&self, other: &BigNum) -> (c: u8)
        requires
            self.wf(),
            other.wf(),
        ensures
            c <= 2,
            (c == 0 <==> self@ < other@),
            (c == 1 <==> self@ == other@),
            (c == 2 <==> self@ > other@),
    {
        let an = self.limbs.len();
        let bn = other.limbs.len();
        if an != bn {
            proof {
                lemma_limbs_val_bound(self.limbs@);
                lemma_limbs_val_bound(other.limbs@);
                if an < bn {
                    lemma_limbs_val_lower(other.limbs@);
                    if w64(an as int) < w64(bn - 1) {
                        vstd::arithmetic::power2::lemma_pow2_strictly_increases(
                            w64(an as int),
                            w64(bn - 1),
                        );
                    }
                } else {
                    lemma_limbs_val_lower(self.limbs@);
                    if w64(bn as int) < w64(an - 1) {
                        vstd::arithmetic::power2::lemma_pow2_strictly_increases(
                            w64(bn as int),
                            w64(an - 1),
                        );
                    }
                }
            }
            if an < bn {
                return 0;
            }
            return 2;
        }
        let mut i: usize = an;
        while i > 0
            invariant
                i <= an == self.limbs@.len(),
                an == other.limbs@.len(),
                forall|j: int| i <= j < an ==> self.limbs@[j] == #[trigger] other.limbs@[j],
            decreases i,
        {
            i -= 1;
            let x = self.limbs[i];
            let y = other.limbs[i];
            if x != y {
                proof {
                    lemma_limbs_val_split(self.limbs@, i + 1);
                    lemma_limbs_val_split(other.limbs@, i + 1);
                    assert(self.limbs@.skip(i + 1) =~= other.limbs@.skip(i + 1));
                    lemma_limbs_val_split(self.limbs@.take(i + 1), i as int);
                    lemma_limbs_val_split(other.limbs@.take(i + 1), i as int);
                    assert(self.limbs@.take(i + 1).take(i as int) =~= self.limbs@.take(i as int));
                    assert(other.limbs@.take(i + 1).take(i as int) =~= other.limbs@.take(i as int));
                    assert(self.limbs@.take(i + 1).skip(i as int) =~= seq![x]);
                    assert(other.limbs@.take(i + 1).skip(i as int) =~= seq![y]);
                    lemma_limbs_val_single(x);
                    lemma_limbs_val_single(y);
                    lemma_limbs_val_bound(self.limbs@.take(i as int));
                    lemma_limbs_val_bound(other.limbs@.take(i as int));
                    lemma_pow2_pos(w64(i as int));
                    if x < y {
                        assert(limbs_val(self.limbs@.take(i + 1)) < limbs_val(
                            other.limbs@.take(i + 1),
                        )) by (nonlinear_arith)
                            requires
                                limbs_val(self.limbs@.take(i + 1)) == limbs_val(
                                    self.limbs@.take(i as int),
                                ) + pow2(w64(i as int)) * (x as nat),
                                limbs_val(other.limbs@.take(i + 1)) == limbs_val(
                                    other.limbs@.take(i as int),
                                ) + pow2(w64(i as int)) * (y as nat),
                                limbs_val(self.limbs@.take(i as int)) < pow2(w64(i as int)),
                                x < y,
                                pow2(w64(i as int)) > 0,
                        ;
                        assert(self@ < other@) by (nonlinear_arith)
                            requires
                                self@ == limbs_val(self.limbs@.take(i + 1)) + pow2(w64(i + 1))
                                    * limbs_val(self.limbs@.skip(i + 1)),
                                other@ == limbs_val(other.limbs@.take(i + 1)) + pow2(w64(i + 1))
                                    * limbs_val(other.limbs@.skip(i + 1)),
                                limbs_val(self.limbs@.skip(i + 1)) == limbs_val(
                                    other.limbs@.skip(i + 1),
                                ),
                                limbs_val(self.limbs@.take(i + 1)) < limbs_val(
                                    other.limbs@.take(i + 1),
                                ),
                        ;
                    } else {
                        assert(limbs_val(other.limbs@.take(i + 1)) < limbs_val(
                            self.limbs@.take(i + 1),
                        )) by (nonlinear_arith)
                            requires
                                limbs_val(other.limbs@.take(i + 1)) == limbs_val(
                                    other.limbs@.take(i as int),
                                ) + pow2(w64(i as int)) * (y as nat),
                                limbs_val(self.limbs@.take(i + 1)) == limbs_val(
                                    self.limbs@.take(i as int),
                                ) + pow2(w64(i as int)) * (x as nat),
                                limbs_val(other.limbs@.take(i as int)) < pow2(w64(i as int)),
                                y < x,
                                pow2(w64(i as int)) > 0,
                        ;
                        assert(self@ > other@) by (nonlinear_arith)
                            requires
                                self@ == limbs_val(self.limbs@.take(i + 1)) + pow2(w64(i + 1))
                                    * limbs_val(self.limbs@.skip(i + 1)),
                                other@ == limbs_val(other.limbs@.take(i + 1)) + pow2(w64(i + 1))
                                    * limbs_val(other.limbs@.skip(i + 1)),
                                limbs_val(self.limbs@.skip(i + 1)) == limbs_val(
                                    other.limbs@.skip(i + 1),
                                ),
                                limbs_val(other.limbs@.take(i + 1)) < limbs_val(
                                    self.limbs@.take(i + 1),
                                ),
                        ;
                    }
                }
                if x < y {
                    return 0;
                }
                return 2;
            }
        }
        proof {
            assert(self.limbs@ =~= other.limbs@);
        }
        1
    }
}

/// Copies a limb vector.
fn clone_limbs(v: &Vec<u64>) -> (r: Vec<u64>)
    ensures
        r@ == v@,
{
    let mut r: Vec<u64> = Vec::new();
    let n = v.len();
    let mut i: usize = 0;
    while i < n
        invariant
            i <= n == v@.len(),
            r@ == v@.take(i as int),
        decreases n - i,
    {
        r.push(v[i]);
        proof {
            assert(v@.take(i + 1) =~= v@.take(i as int).push(v@[i as int]));
        }
        i += 1;
    }
    proof {
        assert(v@.take(n as int) =~= v@);
    }
    r
}

} // verus!
