//! Value primitives: validated wrappers for the requested constants
//! (strictly positive integers) and for the odd values that the synthesis
//! works with, together with the bit-length and odd-kernel arithmetic
//! they are specified by.

use vstd::prelude::*;
use vstd::arithmetic::power2::{lemma2_to64, lemma_pow2_unfold, pow2};

verus! {

/// Number of binary digits of `n`: the 1-based position of the highest set
/// bit, and `0` for values that are not positive.
pub open spec fn bitlen(n: int) -> nat
    decreases n,
{
    if n <= 0 {
        0
    } else {
        (1 + bitlen(n / 2)) as nat
    }
}

/// The odd part of `n`: what remains after all factors of two are shifted out.
pub open spec fn odd_kernel(n: int) -> int
    decreases n,
{
    if n <= 0 || n % 2 == 1 {
        n
    } else {
        odd_kernel(n / 2)
    }
}

/// A value with a bit-length of at most `k` is smaller than `pow2(k)`,
/// and conversely.
pub proof fn lemma_bitlen_bound(n: int, k: nat)
    requires
        0 <= n,
    ensures
        bitlen(n) <= k <==> n < pow2(k),
    decreases k,
{
    lemma2_to64();
    if k == 0 {
        assert(bitlen(n) == 0 ==> n <= 0);
    } else {
        lemma_bitlen_bound(n / 2, (k - 1) as nat);
        lemma_pow2_unfold(k);
        if n > 0 {
            assert(bitlen(n) == 1 + bitlen(n / 2));
        }
    }
}

/// Bit-lengths of 64-bit values never exceed 64.
pub proof fn lemma_bitlen_64(n: int)
    requires
        0 <= n <= u64::MAX,
    ensures
        bitlen(n) <= 64,
{
    lemma2_to64();
    lemma_bitlen_bound(n, 64);
}

/// The odd kernel of a positive integer is odd, no larger than the integer
/// itself, and divides it with a power-of-two quotient: removing the factor
/// of two is a free shift.
pub proof fn lemma_odd_kernel(n: int)
    requires
        1 <= n,
    ensures
        odd_kernel(n) % 2 == 1,
        1 <= odd_kernel(n) <= n,
        exists|k: nat| n == odd_kernel(n) * pow2(k),
    decreases n,
{
    lemma2_to64();
    if n % 2 == 1 {
        assert(n == odd_kernel(n) * pow2(0));
    } else {
        lemma_odd_kernel(n / 2);
        let k0 = choose|k: nat| n / 2 == odd_kernel(n / 2) * pow2(k);
        lemma_pow2_unfold(k0 + 1);
        assert(n == 2 * (n / 2));
        assert(2 * (odd_kernel(n) * pow2(k0)) == odd_kernel(n) * (2 * pow2(k0)))
            by (nonlinear_arith);
        assert(n == odd_kernel(n) * pow2(k0 + 1));
    }
}

/// Computes `bitlen` of a 64-bit value.
pub(crate) fn bit_length(x: u64) -> (r: u32)
    ensures
        r == bitlen(x as int),
        r <= 64,
{
    proof {
        lemma_bitlen_64(x as int);
    }
    let mut n: u64 = x;
    let mut c: u32 = 0;
    while n > 0
        invariant
            bitlen(x as int) == c + bitlen(n as int),
            bitlen(x as int) <= 64,
            c <= 64,
        decreases n,
    {
        n = n / 2;
        c = c + 1;
    }
    c
}

/// Computes `odd_kernel` of a positive 64-bit value.
pub(crate) fn odd_part(x: u64) -> (r: u64)
    requires
        1 <= x,
    ensures
        r as int == odd_kernel(x as int),
        r % 2 == 1,
{
    proof {
        lemma_odd_kernel(x as int);
    }
    let mut n: u64 = x;
    while n % 2 == 0
        invariant
            1 <= n,
            odd_kernel(x as int) == odd_kernel(n as int),
        decreases n,
    {
        n = n / 2;
    }
    n
}

/// A strictly positive 64-bit integer: one requested multiplier constant.
#[derive(Debug, PartialEq, Eq, Structural, Clone, Copy)]
pub struct Nat(u64);

impl View for Nat {
    type V = int;

    closed spec fn view(&self) -> int {
        self.0 as int
    }
}

impl Nat {
    #[verifier::type_invariant]
    spec fn positive(self) -> bool {
        self.0 >= 1
    }

    /// Fails exactly on zero; every positive value is accepted unchanged.
    pub fn new(n: u64) -> (r: Option<Self>)
        ensures
            r is Some <==> n >= 1,
            r matches Some(v) ==> v@ == n,
    {
        if n >= 1 {
            Some(Nat(n))
        } else {
            None
        }
    }

    pub fn get(self) -> (r: u64)
        ensures
            r == self@,
            1 <= self@ <= u64::MAX,
    {
        proof {
            use_type_invariant(self);
        }
        self.0
    }
}

/// An odd 64-bit integer: the unit of target and realized state.
#[derive(Debug, PartialEq, Eq, Structural, PartialOrd, Ord, Hash, Clone, Copy)]
pub struct Odd(u64);

impl View for Odd {
    type V = int;

    closed spec fn view(&self) -> int {
        self.0 as int
    }
}

impl Odd {
    #[verifier::type_invariant]
    spec fn odd(self) -> bool {
        self.0 % 2 == 1
    }

    /// Fails exactly on zero and on even values.
    pub fn new(n: u64) -> (r: Option<Self>)
        ensures
            r is Some <==> n % 2 == 1,
            r matches Some(v) ==> v@ == n,
    {
        if n % 2 == 1 {
            Some(Odd(n))
        } else {
            None
        }
    }

    /// The 1-based position of the highest set bit: the universal search
    /// bound of the synthesis.
    pub fn used_bits(self) -> (r: u32)
        ensures
            r == bitlen(self@),
            1 <= r <= 64,
    {
        proof {
            use_type_invariant(self);
        }
        bit_length(self.0)
    }

    pub fn get(self) -> (r: u64)
        ensures
            r == self@,
            self@ % 2 == 1,
            1 <= self@ <= u64::MAX,
    {
        proof {
            use_type_invariant(self);
        }
        self.0
    }
}

} // verus!
