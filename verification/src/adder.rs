//! The one-primitive combination law: a single add or subtract of two
//! operands, each pre-scaled by an independent power of two.  Exactly one
//! shift is zero, so one operand keeps its odd value while the other becomes
//! even, and the absolute result is odd again.

use crate::primitive::Odd;
use vstd::arithmetic::mul::{lemma_mul_is_distributive_sub_other_way, lemma_mul_upper_bound};
use vstd::arithmetic::power2::{
    lemma2_to64, lemma_pow2_adds, lemma_pow2_pos, lemma_pow2_strictly_increases,
    lemma_pow2_unfold, pow2,
};
use vstd::math::abs;
use vstd::prelude::*;

verus! {

/// The value of one adder step: `|u * 2^l1 + sign * v * 2^l2|`, with `sign`
/// positive exactly when `s` is set.
pub open spec fn a_op_val(u: int, v: int, l1: nat, l2: nat, s: bool) -> int {
    abs(u * pow2(l1) + (if s {
        v * pow2(l2)
    } else {
        -(v * pow2(l2))
    })) as int
}

/// An adder configuration: two shift amounts and the add/subtract choice.
/// It is valid only if at least one shift is zero, which keeps the output
/// parity odd for odd operands whenever the shifts differ.
#[derive(Debug, PartialEq, Eq, Structural, Clone, Copy)]
pub struct AConfig {
    pub l1: u32,
    pub l2: u32,
    pub s: bool,
}

impl AConfig {
    /// Fails exactly when both shifts are non-zero.
    pub fn new(l1: u32, l2: u32, s: bool) -> (r: Option<Self>)
        ensures
            r is Some <==> (l1 == 0 || l2 == 0),
            r matches Some(c) ==> c == (AConfig { l1, l2, s }),
    {
        if l1 == 0 || l2 == 0 {
            Some(AConfig { l1, l2, s })
        } else {
            None
        }
    }
}

/// Swapping the operands together with their shifts leaves the result
/// unchanged: the sum is commutative and the difference only flips its sign
/// under the absolute value.
pub proof fn lemma_a_op_symmetric(u: int, v: int, l1: nat, l2: nat, s: bool)
    ensures
        a_op_val(u, v, l1, l2, s) == a_op_val(v, u, l2, l1, s),
{
}

/// For odd operands and a non-degenerate valid configuration (exactly one
/// shift is zero), the adder's output is odd, hence non-zero.  With both
/// shifts zero the sum of two odd operands would be even; such candidates
/// are discarded during fundamental-set generation rather than rejected by
/// the configuration validator.
pub proof fn lemma_a_op_odd(u: int, v: int, l1: nat, l2: nat, s: bool)
    requires
        u % 2 == 1,
        v % 2 == 1,
        l1 == 0 || l2 == 0,
        !(l1 == 0 && l2 == 0),
    ensures
        a_op_val(u, v, l1, l2, s) % 2 == 1,
        a_op_val(u, v, l1, l2, s) >= 1,
{
    lemma2_to64();
    if l1 == 0 {
        lemma_pow2_unfold(l2);
        let p = pow2((l2 - 1) as nat) as int;
        let h = v * p;
        assert(v * (2 * p) == 2 * (v * p)) by (nonlinear_arith);
        assert((u + 2 * h) % 2 == 1);
        assert((u + -(2 * h)) % 2 == 1);
    } else {
        lemma_pow2_unfold(l1);
        let p = pow2((l1 - 1) as nat) as int;
        let h = u * p;
        assert(u * (2 * p) == 2 * (u * p)) by (nonlinear_arith);
        assert((2 * h + v) % 2 == 1);
        assert((2 * h + -v) % 2 == 1);
    }
}

/// With both shifts zero — the degenerate configuration the validator
/// accepts — the adder adds or subtracts two odd operands directly, so its
/// output is always even and can never satisfy the odd-output requirement:
/// applying such a configuration is a contract violation, and
/// fundamental-set generation discards every candidate it would produce.
pub proof fn lemma_a_op_degenerate_even(u: int, v: int, s: bool)
    requires
        u % 2 == 1,
        v % 2 == 1,
    ensures
        a_op_val(u, v, 0, 0, s) % 2 == 0,
{
    lemma2_to64();
}

/// Computes `pow2(e)` exactly for exponents up to 64.
pub(crate) fn pow2_u128(e: u32) -> (r: u128)
    requires
        e <= 64,
    ensures
        r == pow2(e as nat),
{
    proof {
        lemma2_to64();
    }
    let mut r: u128 = 1;
    let mut i: u32 = 0;
    while i < e
        invariant
            i <= e <= 64,
            r == pow2(i as nat),
        decreases e - i,
    {
        proof {
            lemma_pow2_unfold((i + 1) as nat);
            assert(pow2(i as nat) < pow2(64)) by {
                if i < 64 {
                    lemma_pow2_strictly_increases(i as nat, 64);
                }
            };
            lemma2_to64();
        }
        r = r * 2;
        i = i + 1;
    }
    r
}

/// Computes one adder step in 128-bit arithmetic, reporting `None` when the
/// exact result does not fit into 64 bits.
pub(crate) fn a_op_wide(u: u64, v: u64, l1: u32, l2: u32, s: bool) -> (r: Option<u64>)
    requires
        l1 == 0 || l2 == 0,
        l1 <= 64,
        l2 <= 64,
    ensures
        match r {
            Some(x) => x == a_op_val(u as int, v as int, l1 as nat, l2 as nat, s),
            None => a_op_val(u as int, v as int, l1 as nat, l2 as nat, s) > u64::MAX,
        },
{
    proof {
        lemma2_to64();
        lemma_pow2_adds(64, 64);
        if l1 < 64 {
            lemma_pow2_strictly_increases(l1 as nat, 64);
        }
        if l2 < 64 {
            lemma_pow2_strictly_increases(l2 as nat, 64);
        }
        lemma_mul_upper_bound(u as int, u64::MAX as int, pow2(l1 as nat) as int, pow2(64) as int);
        lemma_mul_upper_bound(v as int, u64::MAX as int, pow2(l2 as nat) as int, pow2(64) as int);
        assert(u64::MAX * pow2(64) == pow2(64) * pow2(64) - pow2(64)) by {
            lemma_mul_is_distributive_sub_other_way(pow2(64) as int, pow2(64) as int, 1);
        };
        lemma_pow2_pos(l1 as nat);
        lemma_pow2_pos(l2 as nat);
        lemma_mul_upper_bound(u as int, u64::MAX as int, 1, 1);
        lemma_mul_upper_bound(v as int, u64::MAX as int, 1, 1);
    }
    let p1 = pow2_u128(l1);
    let p2 = pow2_u128(l2);
    let x = (u as u128) * p1;
    let y = (v as u128) * p2;
    let a: u128 = if s {
        x + y
    } else if x >= y {
        x - y
    } else {
        y - x
    };
    if a <= u64::MAX as u128 {
        Some(a as u64)
    } else {
        None
    }
}

/// Applies a valid, non-degenerate configuration to two odd operands.  The
/// caller guarantees that the exact result fits into 64 bits; oddness of the
/// result is a consequence, not an assumption.
pub fn a_op(u: Odd, v: Odd, p: &AConfig) -> (r: Odd)
    requires
        p.l1 == 0 || p.l2 == 0,
        !(p.l1 == 0 && p.l2 == 0),
        p.l1 <= 64,
        p.l2 <= 64,
        a_op_val(u@, v@, p.l1 as nat, p.l2 as nat, p.s) <= u64::MAX,
    ensures
        r@ == a_op_val(u@, v@, p.l1 as nat, p.l2 as nat, p.s),
        r@ % 2 == 1,
{
    let uv = u.get();
    let vv = v.get();
    proof {
        lemma_a_op_odd(u@, v@, p.l1 as nat, p.l2 as nat, p.s);
    }
    let x = a_op_wide(uv, vv, p.l1, p.l2, p.s).unwrap();
    Odd::new(x).unwrap()
}

} // verus!
