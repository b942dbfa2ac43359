//! A multiplierless adder-graph synthesizer for Multiple Constant
//! Multiplication: given a set of positive integer constants, it computes a
//! set of odd fundamental values from which every constant's odd kernel can
//! be derived by single add/subtract steps on power-of-two-shifted operands.

pub mod adder;
pub mod fundamental;
pub mod huristic;
pub mod primitive;
pub mod set;

pub use crate::adder::{a_op, AConfig};
pub use crate::fundamental::vertex_fundamental_set;
pub use crate::huristic::huristic;
pub use crate::primitive::{Nat, Odd};
pub use crate::set::{FromU64, NatSet, OddSet};

use crate::primitive::{bitlen, lemma_odd_kernel, odd_kernel, odd_part};
use crate::set::all_odd;
use vstd::prelude::*;

verus! {

/// The odd kernels of all members of `t`.
pub open spec fn kernels(t: Set<int>) -> Set<int> {
    t.map(|x: int| odd_kernel(x))
}

/// Synthesis is deterministic up to set content: the realized set is a
/// function of the contents of the request set alone, so two runs over
/// inputs with identical content yield results with identical content,
/// whatever order either input stores its members in.
pub proof fn lemma_synthesis_deterministic(
    ta: Set<int>,
    tb: Set<int>,
    ra: Set<int>,
    rb: Set<int>,
)
    requires
        ta == tb,
        ra == kernels(ta).insert(1),
        rb == kernels(tb).insert(1),
    ensures
        ra == rb,
{
}

/// Reduces every requested constant to its odd kernel, de-duplicating into
/// the target set.
pub fn preprocess(t: &NatSet) -> (r: OddSet)
    requires
        t.wf(),
    ensures
        r.wf(),
        r@ == kernels(t@),
{
    let mut out = OddSet::new();
    let n = t.len();
    let mut i: usize = 0;
    while i < n
        invariant
            i <= n,
            n == t.elems().len(),
            t.wf(),
            out.wf(),
            out@ == kernels(t.elems().take(i as int).to_set()),
        decreases n - i,
    {
        let x = t.get(i);
        let xv = x.get();
        let k = odd_part(xv);
        out.insert(Odd::new(k).unwrap());
        proof {
            let e = t.elems();
            let prev = e.take(i as int).to_set();
            assert(e.take(i + 1 as int) =~= e.take(i as int).push(e[i as int]));
            e.take(i as int).lemma_push_to_set_commute(e[i as int]);
            assert forall|y: int|
                kernels(prev.insert(e[i as int])).contains(y) implies out@.contains(y) by {
                let z = choose|z: int| prev.insert(e[i as int]).contains(z) && y == odd_kernel(z);
                if prev.contains(z) {
                    assert(kernels(prev).contains(y));
                }
            };
            assert forall|y: int|
                out@.contains(y) implies kernels(prev.insert(e[i as int])).contains(y) by {
                if kernels(prev).contains(y) {
                    let z = choose|z: int| prev.contains(z) && y == odd_kernel(z);
                    assert(prev.insert(e[i as int]).contains(z));
                } else {
                    assert(prev.insert(e[i as int]).contains(e[i as int]));
                }
            };
            assert(out@ =~= kernels(e.take(i + 1 as int).to_set()));
        }
        i = i + 1;
    }
    proof {
        assert(t.elems().take(n as int) =~= t.elems());
    }
    out
}

/// The maximum bit-length across the non-empty target set: the global
/// bound `b` confining the whole search.
pub fn max_bitwidth(t: &OddSet) -> (b: u32)
    requires
        t.wf(),
        t@.len() > 0,
    ensures
        1 <= b <= 64,
        forall|x: int| t@.contains(x) ==> bitlen(x) <= b,
        exists|x: int| t@.contains(x) && bitlen(x) == b,
{
    let n = t.len();
    let first = t.get(0);
    let mut best = first.used_bits();
    proof {
        assert(t@.contains(t.elems()[0]));
    }
    let mut i: usize = 1;
    while i < n
        invariant
            1 <= i <= n,
            n == t.elems().len(),
            t.wf(),
            1 <= best <= 64,
            forall|j: int| 0 <= j < i ==> bitlen(#[trigger] t.elems()[j]) <= best,
            exists|j: int| 0 <= j < i && bitlen(#[trigger] t.elems()[j]) == best,
        decreases n - i,
    {
        let ub = t.get(i).used_bits();
        if ub > best {
            best = ub;
        }
        i = i + 1;
    }
    proof {
        assert forall|x: int| t@.contains(x) implies bitlen(x) <= best by {
            let j = choose|j: int| 0 <= j < t.elems().len() && t.elems()[j] == x;
        };
        let j = choose|j: int| 0 <= j < n && bitlen(#[trigger] t.elems()[j]) == best;
        assert(t@.contains(t.elems()[j]));
    }
    best
}

/// Moves a newly realized value out of the target set into the wavefront.
pub fn synthesize(s: Odd, w: &mut OddSet, t: &mut OddSet)
    requires
        old(w).wf(),
        old(t).wf(),
    ensures
        final(w).wf(),
        final(t).wf(),
        final(w)@ == old(w)@.insert(s@),
        final(t)@ == old(t)@.remove(s@),
{
    w.insert(s);
    t.remove(&s);
}

/// Synthesizes the realized set for the requested constants.  The returned
/// set holds exactly the unit value `1` together with the odd kernel of
/// every request: a target enters the realized set either when the optimal
/// phase finds it one adder step from the frontier or when the heuristic
/// phase force-realizes it, and nothing else is ever added.  The result
/// depends only on the contents of the input set, never on storage order,
/// so repeated runs agree; and both loops carry explicit termination
/// measures, the realized set only growing while the target set only
/// shrinks.
#[verifier::loop_isolation(false)]
pub fn synthesize_multiplier_block(t: &NatSet) -> (r: OddSet)
    requires
        t.wf(),
    ensures
        r.wf(),
        r@ == kernels(t@).insert(1),
        r@.contains(1),
        all_odd(r@),
{
    let ghost goal = kernels(t@).insert(1);
    proof {
        assert forall|x: int| goal.contains(x) implies x % 2 == 1 && 1 <= x <= u64::MAX by {
            if x != 1 {
                let z = choose|z: int| t@.contains(z) && x == odd_kernel(z);
                let j = choose|j: int| 0 <= j < t.elems().len() && t.elems()[j] == z;
                lemma_odd_kernel(z);
            }
        };
    }
    let mut tt = preprocess(t);
    let one: [u64; 1] = [1];
    let mut r = OddSet::from_slice(one.as_slice());
    proof {
        assert(r@ =~= Set::<int>::empty().insert(1));
    }
    if tt.is_empty() {
        proof {
            assert(r@ =~= goal);
        }
        return r;
    }
    let b = max_bitwidth(&tt);
    let mut w = OddSet::from_slice(one.as_slice());
    let mut s = OddSet::from_slice(one.as_slice());
    let mut t_empty = false;
    let mut w_empty = false;
    proof {
        assert(w@ =~= Set::<int>::empty().insert(1));
        assert(r@.union(w@).union(tt@) =~= goal);
    }
    while !t_empty || !w_empty
        invariant
            r.wf(),
            w.wf(),
            s.wf(),
            tt.wf(),
            t_empty <==> tt@.len() == 0,
            w_empty <==> w@.len() == 0,
            tt@.finite(),
            w@.finite(),
            r@.contains(1),
            tt@.subset_of(kernels(t@)),
            r@.union(w@).union(tt@) == goal,
        decreases tt@.len(), w@.len(),
    {
        let ghost tt_head = tt@;
        let ghost r_head = r@;
        // Optimal phase: expand the frontier for as long as some target is
        // one adder step away from the realized set.  Across its rounds the
        // realized set only grows and the target set only shrinks.
        while !w_empty
            invariant
                r.wf(),
                w.wf(),
                s.wf(),
                tt.wf(),
                w_empty <==> w@.len() == 0,
                tt@.finite(),
                w@.finite(),
                tt@.len() <= tt_head.len(),
                tt@.subset_of(tt_head),
                r_head.subset_of(r@),
                r@.contains(1),
                r@.union(w@).union(tt@) == goal,
            decreases tt@.len(), w@.len(),
        {
            r.extend(&w);
            let f = vertex_fundamental_set(&r, &w, b);
            s.extend(&f);
            let nw = w.len();
            let mut i: usize = 0;
            while i < nw
                invariant
                    i <= nw,
                    nw == w.elems().len(),
                    s.wf(),
                decreases nw - i,
            {
                let x = w.get(i);
                s.remove(&x);
                i = i + 1;
            }
            w.clear();
            let m = s.intersection(&tt);
            let nm = m.len();
            let ghost tt0 = tt@;
            proof {
                assert(m.elems().take(0).to_set() =~= Set::<int>::empty());
                assert(w@ =~= m.elems().take(0).to_set());
                assert(tt@ =~= tt0.difference(m.elems().take(0).to_set()));
            }
            let mut k: usize = 0;
            while k < nm
                invariant
                    k <= nm,
                    nm == m.elems().len(),
                    m.wf(),
                    w.wf(),
                    tt.wf(),
                    tt@.finite(),
                    w@.finite(),
                    m@.subset_of(tt0),
                    w@ == m.elems().take(k as int).to_set(),
                    tt@ == tt0.difference(m.elems().take(k as int).to_set()),
                    tt@.len() == tt0.len() - k,
                decreases nm - k,
            {
                let x = m.get(k);
                proof {
                    let me = m.elems();
                    assert(!me.take(k as int).to_set().contains(me[k as int]));
                    assert(m@.contains(x@));
                    assert(tt@.contains(x@));
                }
                synthesize(x, &mut w, &mut tt);
                proof {
                    let me = m.elems();
                    assert(me.take(k + 1 as int) =~= me.take(k as int).push(me[k as int]));
                    me.take(k as int).lemma_push_to_set_commute(me[k as int]);
                    assert(w@ =~= me.take(k + 1 as int).to_set());
                    assert(tt@ =~= tt0.difference(me.take(k + 1 as int).to_set()));
                }
                k = k + 1;
            }
            proof {
                assert(m.elems().take(nm as int) =~= m.elems());
                assert(w@ == m@);
                assert(r@.union(w@).union(tt@) =~= goal);
            }
            w_empty = w.is_empty();
        }
        // Heuristic phase: no target is one step away, so force-realize the
        // most promising one and resume the optimal phase with it.
        t_empty = tt.is_empty();
        if !t_empty {
            let c = huristic(&r, &s, &tt, b);
            synthesize(c, &mut w, &mut tt);
            proof {
                assert(r@.union(w@).union(tt@) =~= goal);
            }
            t_empty = tt.is_empty();
            w_empty = w.is_empty();
        }
    }
    proof {
        assert(r@ =~= goal);
    }
    r
}

} // verus!
