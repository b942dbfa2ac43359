//! The fallback selector for a stalled optimal phase: it scores every
//! remaining target by how many of the other pending targets would become
//! one adder step away if that target were force-realized, and picks the
//! highest score, breaking ties by smaller bit-length and then by smaller
//! numeric value.

use crate::fundamental::{fund, vertex_fundamental_set};
use crate::primitive::{bitlen, Odd};
use crate::set::OddSet;
use vstd::prelude::*;

verus! {

/// The selector's score of candidate `c` against realized set `r` and
/// target set `t`: how many targets other than `c` the fundamental set of
/// `r` with `c` force-realized as sole wavefront would reach.
pub open spec fn hscore(c: int, r: Set<int>, t: Set<int>, b: nat) -> nat {
    fund(r.insert(c), set![c], b).intersect(t.remove(c)).len()
}

/// Strict preference of `c1` over `c2`: a higher score, or an equal score
/// and a smaller bit-length, or equal on both and a smaller value.
pub open spec fn prefers(c1: int, c2: int, r: Set<int>, t: Set<int>, b: nat) -> bool {
    ||| hscore(c1, r, t, b) > hscore(c2, r, t, b)
    ||| (hscore(c1, r, t, b) == hscore(c2, r, t, b) && bitlen(c1) < bitlen(c2))
    ||| (hscore(c1, r, t, b) == hscore(c2, r, t, b) && bitlen(c1) == bitlen(c2) && c1 < c2)
}

/// Preference is a strict total order on distinct values: it is transitive.
pub proof fn lemma_prefers_transitive(
    c1: int,
    c2: int,
    c3: int,
    r: Set<int>,
    t: Set<int>,
    b: nat,
)
    requires
        prefers(c1, c2, r, t, b),
        prefers(c2, c3, r, t, b),
    ensures
        prefers(c1, c3, r, t, b),
{
}

/// Computes `hscore` for one candidate by running the fundamental-set
/// generator on the tentative state; the inspected sets are not changed.
fn score_of(c: Odd, r: &OddSet, t: &OddSet, b: u32) -> (n: usize)
    requires
        r.wf(),
        t.wf(),
        b <= 64,
    ensures
        n == hscore(c@, r@, t@, b as nat),
{
    let mut rc = OddSet::new();
    rc.extend(r);
    rc.insert(c);
    let mut wc = OddSet::new();
    wc.insert(c);
    let f = vertex_fundamental_set(&rc, &wc, b);
    let mut tc = OddSet::new();
    tc.extend(t);
    tc.remove(&c);
    let inter = f.intersection(&tc);
    proof {
        assert(rc@.union(wc@) =~= r@.insert(c@));
        assert(wc@ =~= set![c@]);
        assert(tc@ =~= t@.remove(c@));
        assert(inter@ =~= fund(r@.insert(c@), set![c@], b as nat).intersect(t@.remove(c@)));
    }
    inter.len()
}

/// Chooses the unique most-preferred member of the non-empty target set
/// `t`.  The candidate set `s` is part of the driver's state but does not
/// influence the choice; the realized set `r` and the bound `b` do.
#[verifier::loop_isolation(false)]
pub fn huristic(r: &OddSet, s: &OddSet, t: &OddSet, b: u32) -> (c: Odd)
    requires
        r.wf(),
        t.wf(),
        t@.len() > 0,
        b <= 64,
    ensures
        t@.contains(c@),
        forall|o: int| t@.contains(o) && o != c@ ==> prefers(c@, o, r@, t@, b as nat),
{
    let n = t.len();
    let mut best = t.get(0);
    let mut best_score = score_of(best, r, t, b);
    let mut best_bits = best.used_bits();
    let mut k: usize = 1;
    while k < n
        invariant
            1 <= k <= n,
            t@.contains(best@),
            best_score == hscore(best@, r@, t@, b as nat),
            best_bits == bitlen(best@),
            forall|j: int|
                0 <= j < k ==> t.elems()[j] == best@ || prefers(
                    best@,
                    #[trigger] t.elems()[j],
                    r@,
                    t@,
                    b as nat,
                ),
        decreases n - k,
    {
        let cand = t.get(k);
        let cand_score = score_of(cand, r, t, b);
        let cand_bits = cand.used_bits();
        let cv = cand.get();
        let bv = best.get();
        if cand_score > best_score || (cand_score == best_score && (cand_bits < best_bits || (
        cand_bits == best_bits && cv < bv))) {
            proof {
                assert(prefers(cand@, best@, r@, t@, b as nat));
                assert forall|j: int|
                    0 <= j < k + 1 implies t.elems()[j] == cand@ || prefers(
                    cand@,
                    #[trigger] t.elems()[j],
                    r@,
                    t@,
                    b as nat,
                ) by {
                    if j < k && t.elems()[j] != cand@ {
                        if t.elems()[j] == best@ {
                        } else {
                            lemma_prefers_transitive(
                                cand@,
                                best@,
                                t.elems()[j],
                                r@,
                                t@,
                                b as nat,
                            );
                        }
                    }
                };
            }
            best = cand;
            best_score = cand_score;
            best_bits = cand_bits;
        } else {
            proof {
                assert(cand@ == best@ || prefers(best@, cand@, r@, t@, b as nat));
            }
        }
        k = k + 1;
    }
    proof {
        assert forall|o: int| t@.contains(o) && o != best@ implies prefers(
            best@,
            o,
            r@,
            t@,
            b as nat,
        ) by {
            let j = choose|j: int| 0 <= j < t.elems().len() && t.elems()[j] == o;
        };
    }
    best
}

} // verus!
