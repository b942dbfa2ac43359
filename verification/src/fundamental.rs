//! Fundamental-set generation: the exhaustive one-step expansion of the
//! realized set's frontier.  A value is fundamental for the current state
//! when one adder application produces it from two already-realized
//! operands, at least one of which belongs to the wavefront.

use crate::adder::{a_op_val, a_op_wide, lemma_a_op_degenerate_even, lemma_a_op_symmetric};
use crate::primitive::{bit_length, bitlen, lemma_bitlen_bound, Odd};
use crate::set::{all_odd, OddSet};
use vstd::arithmetic::power2::lemma2_to64;
use vstd::prelude::*;

verus! {

/// A shift pair admitted by the search: at least one shift is zero and both
/// stay within the global bound.
pub open spec fn valid_shifts(l1: nat, l2: nat, b: nat) -> bool {
    (l1 == 0 || l2 == 0) && l1 <= b && l2 <= b
}

/// A value the search may keep: odd and within the global bit-width bound.
pub open spec fn good_candidate(x: int, b: nat) -> bool {
    x % 2 == 1 && bitlen(x) <= b
}

/// Membership in the fundamental set of `(rw, w, b)`: `x` is good and one
/// adder application over operands of `rw`, at least one from `w`, with a
/// valid shift pair, yields `x`.
pub open spec fn in_fund(x: int, rw: Set<int>, w: Set<int>, b: nat) -> bool {
    &&& good_candidate(x, b)
    &&& exists|u: int, v: int, l1: nat, l2: nat, s: bool|
        rw.contains(u) && rw.contains(v) && (w.contains(u) || w.contains(v)) && valid_shifts(
            l1,
            l2,
            b,
        ) && x == #[trigger] a_op_val(u, v, l1, l2, s)
}

/// The set of all values reachable from `rw` in exactly one adder step that
/// touches the wavefront `w`, pruned to the bound `b`.
pub open spec fn fund(rw: Set<int>, w: Set<int>, b: nat) -> Set<int> {
    Set::new(|x: int| in_fund(x, rw, w, b))
}

/// Derivability of every expansion step: a fundamental value of a realized
/// set of odd values is odd, within the bound, and the result of one adder
/// application whose two operands are both already realized — at least one
/// of them from the wavefront — under a valid configuration that is never
/// the degenerate double-zero one.  Everything the optimal phase moves into
/// the realized set is a fundamental value of the round that found it, so
/// each such member is one adder step over members realized strictly
/// earlier.  Heuristic force-realization deliberately has no counterpart of
/// this property: it accepts a target as if a derivation chain for it had
/// been chosen, without realizing intermediates.
pub proof fn lemma_fund_derivable(x: int, rw: Set<int>, w: Set<int>, b: nat)
    requires
        fund(rw, w, b).contains(x),
        all_odd(rw),
    ensures
        x % 2 == 1,
        bitlen(x) <= b,
        exists|u: int, v: int, l1: nat, l2: nat, s: bool|
            rw.contains(u) && rw.contains(v) && (w.contains(u) || w.contains(v)) && valid_shifts(
                l1,
                l2,
                b,
            ) && !(l1 == 0 && l2 == 0) && x == #[trigger] a_op_val(u, v, l1, l2, s),
{
    let (u, v, l1, l2, s) = choose|u: int, v: int, l1: nat, l2: nat, s: bool|
        rw.contains(u) && rw.contains(v) && (w.contains(u) || w.contains(v)) && valid_shifts(
            l1,
            l2,
            b,
        ) && x == #[trigger] a_op_val(u, v, l1, l2, s);
    if l1 == 0 && l2 == 0 {
        lemma_a_op_degenerate_even(u, v, s);
    }
}

/// Evaluates one shift/sign combination on one operand pair and keeps the
/// result exactly when it is a good candidate.
fn consider(res: &mut OddSet, uu: Odd, vv: Odd, l1: u32, l2: u32, s: bool, b: u32)
    requires
        old(res).wf(),
        l1 == 0 || l2 == 0,
        l1 <= 64,
        l2 <= 64,
        b <= 64,
    ensures
        final(res).wf(),
        ({
            let x = a_op_val(uu@, vv@, l1 as nat, l2 as nat, s);
            final(res)@ == if good_candidate(x, b as nat) {
                old(res)@.insert(x)
            } else {
                old(res)@
            }
        }),
{
    let ghost x = a_op_val(uu@, vv@, l1 as nat, l2 as nat, s);
    match a_op_wide(uu.get(), vv.get(), l1, l2, s) {
        Some(c) => {
            if c % 2 == 1 {
                let bl = bit_length(c);
                if bl <= b {
                    res.insert(Odd::new(c).unwrap());
                    return ;
                }
            }
        },
        None => {
            proof {
                lemma2_to64();
                lemma_bitlen_bound(x, 64);
                assert(bitlen(x) > 64);
            }
        },
    }
}

/// Computes the fundamental set of the realized set `r` with wavefront `w`
/// under the bit-width bound `b`, exactly as `fund` describes it.
#[verifier::loop_isolation(false)]
pub fn vertex_fundamental_set(r: &OddSet, w: &OddSet, b: u32) -> (res: OddSet)
    requires
        r.wf(),
        w.wf(),
        b <= 64,
    ensures
        res.wf(),
        res@ == fund(r@.union(w@), w@, b as nat),
{
    let ghost rw = r@.union(w@);
    let ghost bb = b as nat;
    let mut ru = OddSet::new();
    ru.extend(r);
    ru.extend(w);
    proof {
        assert(ru@ =~= rw);
    }
    let mut res = OddSet::new();
    let nw = w.len();
    let nr = ru.len();
    let mut i: usize = 0;
    while i < nw
        invariant
            i <= nw,
            res.wf(),
            forall|x: int| #[trigger] res@.contains(x) ==> in_fund(x, rw, w@, bb),
            forall|uu: int, vv: int, l1: nat, l2: nat, s: bool|
                w.elems().take(i as int).to_set().contains(uu) && rw.contains(vv) && valid_shifts(
                    l1,
                    l2,
                    bb,
                ) && good_candidate(#[trigger] a_op_val(uu, vv, l1, l2, s), bb)
                    ==> res@.contains(a_op_val(uu, vv, l1, l2, s)),
        decreases nw - i,
    {
        let wu = w.get(i);
        let mut j: usize = 0;
        while j < nr
            invariant
                j <= nr,
                res.wf(),
                forall|x: int| #[trigger] res@.contains(x) ==> in_fund(x, rw, w@, bb),
                forall|uu: int, vv: int, l1: nat, l2: nat, s: bool|
                    w.elems().take(i as int).to_set().contains(uu) && rw.contains(vv)
                        && valid_shifts(l1, l2, bb) && good_candidate(
                        #[trigger] a_op_val(uu, vv, l1, l2, s),
                        bb,
                    ) ==> res@.contains(a_op_val(uu, vv, l1, l2, s)),
                forall|vv: int, l1: nat, l2: nat, s: bool|
                    ru.elems().take(j as int).to_set().contains(vv) && valid_shifts(l1, l2, bb)
                        && good_candidate(#[trigger] a_op_val(wu@, vv, l1, l2, s), bb)
                        ==> res@.contains(a_op_val(wu@, vv, l1, l2, s)),
            decreases nr - j,
        {
            let rv = ru.get(j);
            let mut l: u32 = 0;
            while l <= b
                invariant
                    l <= b + 1,
                    res.wf(),
                    forall|x: int| #[trigger] res@.contains(x) ==> in_fund(x, rw, w@, bb),
                    forall|uu: int, vv: int, l1: nat, l2: nat, s: bool|
                        w.elems().take(i as int).to_set().contains(uu) && rw.contains(vv)
                            && valid_shifts(l1, l2, bb) && good_candidate(
                            #[trigger] a_op_val(uu, vv, l1, l2, s),
                            bb,
                        ) ==> res@.contains(a_op_val(uu, vv, l1, l2, s)),
                    forall|vv: int, l1: nat, l2: nat, s: bool|
                        ru.elems().take(j as int).to_set().contains(vv) && valid_shifts(l1, l2, bb)
                            && good_candidate(#[trigger] a_op_val(wu@, vv, l1, l2, s), bb)
                            ==> res@.contains(a_op_val(wu@, vv, l1, l2, s)),
                    forall|l1: nat, l2: nat, s: bool|
                        l1 < l && l2 < l && valid_shifts(l1, l2, bb) && good_candidate(
                            #[trigger] a_op_val(wu@, rv@, l1, l2, s),
                            bb,
                        ) ==> res@.contains(a_op_val(wu@, rv@, l1, l2, s)),
                decreases b + 1 - l,
            {
                proof {
                    assert(rw.contains(wu@));
                    assert(rw.contains(rv@));
                    assert(w@.contains(wu@));
                }
                consider(&mut res, wu, rv, l, 0, true, b);
                consider(&mut res, wu, rv, l, 0, false, b);
                consider(&mut res, wu, rv, 0, l, true, b);
                consider(&mut res, wu, rv, 0, l, false, b);
                l = l + 1;
            }
            proof {
                assert(ru.elems().take(j + 1 as int) =~= ru.elems().take(j as int).push(
                    ru.elems()[j as int],
                ));
                ru.elems().take(j as int).lemma_push_to_set_commute(ru.elems()[j as int]);
            }
            j = j + 1;
        }
        proof {
            assert(ru.elems().take(nr as int) =~= ru.elems());
            assert(w.elems().take(i + 1 as int) =~= w.elems().take(i as int).push(
                w.elems()[i as int],
            ));
            w.elems().take(i as int).lemma_push_to_set_commute(w.elems()[i as int]);
        }
        i = i + 1;
    }
    proof {
        assert(w.elems().take(nw as int) =~= w.elems());
        assert forall|x: int| fund(rw, w@, bb).contains(x) implies res@.contains(x) by {
            let (u, v, l1, l2, s) = choose|u: int, v: int, l1: nat, l2: nat, s: bool|
                rw.contains(u) && rw.contains(v) && (w@.contains(u) || w@.contains(v))
                    && valid_shifts(l1, l2, bb) && x == #[trigger] a_op_val(u, v, l1, l2, s);
            if w@.contains(u) {
                assert(res@.contains(a_op_val(u, v, l1, l2, s)));
            } else {
                lemma_a_op_symmetric(u, v, l1, l2, s);
                assert(res@.contains(a_op_val(v, u, l2, l1, s)));
            }
        };
        assert(res@ =~= fund(rw, w@, bb));
    }
    res
}

} // verus!
