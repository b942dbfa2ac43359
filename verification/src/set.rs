//! Set algebra over the value primitives: unordered, duplicate-free
//! collections of odd values and of positive values, viewed as mathematical
//! sets of integers.  Construction from raw integers drops invalid members
//! and collapses duplicates.

use crate::primitive::{Nat, Odd};
use vstd::prelude::*;
use vstd::seq_lib::seq_to_set_is_finite;

verus! {

/// The odd members of a sequence of raw integers, as a set.
pub open spec fn odd_members(s: Seq<u64>) -> Set<int> {
    Set::new(|y: int| exists|i: int| 0 <= i < s.len() && s[i] == y && y % 2 == 1)
}

/// The strictly positive members of a sequence of raw integers, as a set.
pub open spec fn positive_members(s: Seq<u64>) -> Set<int> {
    Set::new(|y: int| exists|i: int| 0 <= i < s.len() && s[i] == y && y >= 1)
}

/// Every member of `s` is an odd 64-bit value.
pub open spec fn all_odd(s: Set<int>) -> bool {
    forall|x: int| #[trigger] s.contains(x) ==> x % 2 == 1 && 1 <= x <= u64::MAX
}

/// Every member of `s` is a positive 64-bit value.
pub open spec fn all_positive(s: Set<int>) -> bool {
    forall|x: int| #[trigger] s.contains(x) ==> 1 <= x <= u64::MAX
}

/// Construction of a set from raw 64-bit integers: the result holds
/// exactly the valid members of the input, de-duplicated, and drops the
/// rest.
pub trait FromU64<T>: Sized + View<V = Set<int>> {
    /// Which members of the raw input the constructed set keeps.
    spec fn members_of(x: T) -> Set<int>;

    fn from_u64(x: T) -> (r: Self)
        ensures
            r@ == Self::members_of(x),
    ;
}

/// A finite set of odd values, backed by a duplicate-free vector.
#[derive(Debug)]
pub struct OddSet {
    items: Vec<Odd>,
}

impl View for OddSet {
    type V = Set<int>;

    open spec fn view(&self) -> Set<int> {
        self.elems().to_set()
    }
}

impl OddSet {
    /// The members in their storage order; the set view collapses it.
    pub closed spec fn elems(&self) -> Seq<int> {
        self.items@.map_values(|o: Odd| o@)
    }

    /// Well-formed: no member is stored twice, and every member is an odd
    /// 64-bit value.  All constructors establish this and all methods
    /// preserve it.
    pub open spec fn wf(&self) -> bool {
        &&& self.elems().no_duplicates()
        &&& forall|i: int|
            0 <= i < self.elems().len() ==> (#[trigger] self.elems()[i]) % 2 == 1 && 1
                <= self.elems()[i] <= u64::MAX
    }

    pub fn new() -> (r: Self)
        ensures
            r.wf(),
            r@ == Set::<int>::empty(),
            r.elems().len() == 0,
    {
        let r = OddSet { items: Vec::new() };
        proof {
            assert(r@ =~= Set::<int>::empty());
        }
        r
    }

    fn find(&self, x: u64) -> (r: Option<usize>)
        ensures
            match r {
                Some(i) => i < self.elems().len() && self.elems()[i as int] == x,
                None => !self@.contains(x as int),
            },
    {
        let mut i: usize = 0;
        while i < self.items.len()
            invariant
                i <= self.items@.len(),
                self.elems().len() == self.items@.len(),
                forall|j: int| 0 <= j < i ==> self.elems()[j] != x,
            decreases self.items@.len() - i,
        {
            if self.items[i].get() == x {
                return Some(i);
            }
            i = i + 1;
        }
        proof {
            assert(!self.elems().contains(x as int));
        }
        None
    }

    pub fn contains(&self, x: &Odd) -> (r: bool)
        ensures
            r <==> self@.contains(x@),
    {
        let xv = x.get();
        match self.find(xv) {
            Some(i) => {
                proof {
                    assert(self.elems().contains(x@));
                }
                true
            },
            None => false,
        }
    }

    pub fn len(&self) -> (n: usize)
        requires
            self.wf(),
        ensures
            n == self.elems().len(),
            n == self@.len(),
            self@.finite(),
            all_odd(self@),
    {
        proof {
            self.elems().unique_seq_to_set();
            seq_to_set_is_finite(self.elems());
            assert forall|y: int| self@.contains(y) implies y % 2 == 1 && 1 <= y <= u64::MAX by {
                let j = choose|j: int| 0 <= j < self.elems().len() && self.elems()[j] == y;
            };
        }
        self.items.len()
    }

    pub fn is_empty(&self) -> (r: bool)
        requires
            self.wf(),
        ensures
            r <==> self@.len() == 0,
            r ==> self@ == Set::<int>::empty(),
            self@.finite(),
    {
        let n = self.len();
        proof {
            if n == 0 {
                self@.lemma_len0_is_empty();
            }
        }
        n == 0
    }

    pub fn get(&self, i: usize) -> (r: Odd)
        requires
            i < self.elems().len(),
        ensures
            r@ == self.elems()[i as int],
            self@.contains(r@),
    {
        proof {
            assert(self.elems().contains(self.elems()[i as int]));
        }
        self.items[i]
    }

    pub fn insert(&mut self, x: Odd)
        requires
            old(self).wf(),
        ensures
            final(self).wf(),
            final(self)@ == old(self)@.insert(x@),
    {
        let xv = x.get();
        match self.find(xv) {
            Some(_) => {
                proof {
                    assert(self@ =~= old(self)@.insert(x@));
                }
            },
            None => {
                self.items.push(x);
                proof {
                    assert(self.elems() =~= old(self).elems().push(x@));
                    assert(self@ =~= old(self)@.insert(x@)) by {
                        old(self).elems().lemma_push_to_set_commute(x@);
                    };
                }
            },
        }
    }

    pub fn remove(&mut self, x: &Odd)
        requires
            old(self).wf(),
        ensures
            final(self).wf(),
            final(self)@ == old(self)@.remove(x@),
    {
        let xv = x.get();
        match self.find(xv) {
            Some(i) => {
                self.items.remove(i);
                proof {
                    let oe = old(self).elems();
                    oe.remove_ensures(i as int);
                    assert(self.elems() =~= oe.remove(i as int));
                    let ne = self.elems();
                    assert forall|y: int| ne.contains(y) implies oe.contains(y) && y != x@ by {
                        let j = choose|j: int| 0 <= j < ne.len() && ne[j] == y;
                        if j < i {
                            assert(oe[j] == y);
                        } else {
                            assert(oe[j + 1] == y);
                        }
                    };
                    assert forall|y: int| oe.contains(y) && y != x@ implies ne.contains(y) by {
                        let j = choose|j: int| 0 <= j < oe.len() && oe[j] == y;
                        if j < i {
                            assert(ne[j] == y);
                        } else {
                            assert(j != i);
                            assert(ne[j - 1] == y);
                        }
                    };
                    assert(self@ =~= old(self)@.remove(x@));
                }
            },
            None => {
                proof {
                    assert(self@ =~= old(self)@.remove(x@));
                }
            },
        }
    }

    pub fn extend(&mut self, other: &OddSet)
        requires
            old(self).wf(),
            other.wf(),
        ensures
            final(self).wf(),
            final(self)@ == old(self)@.union(other@),
    {
        let ghost base = self@;
        let n = other.len();
        let mut i: usize = 0;
        while i < n
            invariant
                i <= n,
                n == other.elems().len(),
                self.wf(),
                self@ == base.union(other.elems().take(i as int).to_set()),
            decreases n - i,
        {
            let x = other.get(i);
            self.insert(x);
            proof {
                let t = other.elems().take(i as int);
                assert(other.elems().take(i + 1 as int) =~= t.push(other.elems()[i as int]));
                t.lemma_push_to_set_commute(other.elems()[i as int]);
                assert(self@ =~= base.union(other.elems().take(i + 1 as int).to_set()));
            }
            i = i + 1;
        }
        proof {
            assert(other.elems().take(n as int) =~= other.elems());
            assert(self@ =~= base.union(other@));
        }
    }

    pub fn clear(&mut self)
        ensures
            final(self).wf(),
            final(self)@ == Set::<int>::empty(),
            final(self).elems().len() == 0,
    {
        self.items = Vec::new();
        proof {
            assert(self@ =~= Set::<int>::empty());
        }
    }

    pub fn intersection(&self, other: &OddSet) -> (r: OddSet)
        requires
            self.wf(),
        ensures
            r.wf(),
            r@ == self@.intersect(other@),
    {
        let mut out = OddSet::new();
        let n = self.len();
        let mut i: usize = 0;
        while i < n
            invariant
                i <= n,
                n == self.elems().len(),
                out.wf(),
                out@ == self.elems().take(i as int).to_set().intersect(other@),
            decreases n - i,
        {
            let x = self.get(i);
            if other.contains(&x) {
                out.insert(x);
            }
            proof {
                let t = self.elems().take(i as int);
                assert(self.elems().take(i + 1 as int) =~= t.push(self.elems()[i as int]));
                t.lemma_push_to_set_commute(self.elems()[i as int]);
                assert(out@ =~= self.elems().take(i + 1 as int).to_set().intersect(other@));
            }
            i = i + 1;
        }
        proof {
            assert(self.elems().take(n as int) =~= self.elems());
            assert(out@ =~= self@.intersect(other@));
        }
        out
    }

    fn is_subset_of(&self, other: &OddSet) -> (r: bool)
        ensures
            r <==> self@.subset_of(other@),
    {
        let n = self.items.len();
        let mut i: usize = 0;
        while i < n
            invariant
                i <= n,
                n == self.elems().len(),
                forall|j: int| 0 <= j < i ==> other@.contains(#[trigger] self.elems()[j]),
            decreases n - i,
        {
            let x = self.get(i);
            if !other.contains(&x) {
                return false;
            }
            i = i + 1;
        }
        proof {
            assert forall|y: int| self@.contains(y) implies other@.contains(y) by {
                let j = choose|j: int| 0 <= j < self.elems().len() && self.elems()[j] == y;
            };
        }
        true
    }

    /// Constructs the set of the odd members of `xs`, dropping the rest.
    pub fn from_slice(xs: &[u64]) -> (r: Self)
        ensures
            r.wf(),
            r@ == odd_members(xs@),
    {
        let mut out = OddSet::new();
        let n = xs.len();
        let mut i: usize = 0;
        while i < n
            invariant
                i <= n,
                n == xs@.len(),
                out.wf(),
                out@ == odd_members(xs@.take(i as int)),
            decreases n - i,
        {
            let x = xs[i];
            if x % 2 == 1 {
                out.insert(Odd::new(x).unwrap());
            }
            proof {
                let t = xs@.take(i as int);
                let t1 = xs@.take(i + 1 as int);
                assert forall|y: int| odd_members(t1).contains(y) implies out@.contains(y) by {
                    let j = choose|j: int| 0 <= j < t1.len() && t1[j] == y && y % 2 == 1;
                    if j < i {
                        assert(t[j] == y);
                        assert(odd_members(t).contains(y));
                    }
                };
                assert forall|y: int| out@.contains(y) implies odd_members(t1).contains(y) by {
                    if odd_members(t).contains(y) {
                        let j = choose|j: int| 0 <= j < t.len() && t[j] == y && y % 2 == 1;
                        assert(t1[j] == y);
                    } else {
                        assert(t1[i as int] == y);
                    }
                };
                assert(out@ =~= odd_members(t1));
            }
            i = i + 1;
        }
        proof {
            assert(xs@.take(n as int) =~= xs@);
        }
        out
    }
}

impl FromU64<&[u64]> for OddSet {
    open spec fn members_of(x: &[u64]) -> Set<int> {
        odd_members(x@)
    }

    fn from_u64(x: &[u64]) -> Self {
        OddSet::from_slice(x)
    }
}

impl<const N: usize> FromU64<[u64; N]> for OddSet {
    open spec fn members_of(x: [u64; N]) -> Set<int> {
        odd_members(x@)
    }

    fn from_u64(x: [u64; N]) -> Self {
        OddSet::from_slice(x.as_slice())
    }
}

impl PartialEq for OddSet {
    fn eq(&self, other: &Self) -> (r: bool) {
        let r = self.is_subset_of(other) && other.is_subset_of(self);
        proof {
            if r {
                assert(self@ =~= other@);
            }
        }
        r
    }
}

impl vstd::std_specs::cmp::PartialEqSpecImpl for OddSet {
    open spec fn obeys_eq_spec() -> bool {
        true
    }

    open spec fn eq_spec(&self, other: &Self) -> bool {
        self@ == other@
    }
}

/// A finite set of positive values, backed by a duplicate-free vector.
#[derive(Debug)]
pub struct NatSet {
    items: Vec<Nat>,
}

impl View for NatSet {
    type V = Set<int>;

    open spec fn view(&self) -> Set<int> {
        self.elems().to_set()
    }
}

impl NatSet {
    /// The members in their storage order; the set view collapses it.
    pub closed spec fn elems(&self) -> Seq<int> {
        self.items@.map_values(|v: Nat| v@)
    }

    /// Well-formed: no member is stored twice, and every member is a
    /// positive 64-bit value.
    pub open spec fn wf(&self) -> bool {
        &&& self.elems().no_duplicates()
        &&& forall|i: int|
            0 <= i < self.elems().len() ==> 1 <= (#[trigger] self.elems()[i]) <= u64::MAX
    }

    pub fn new() -> (r: Self)
        ensures
            r.wf(),
            r@ == Set::<int>::empty(),
            r.elems().len() == 0,
    {
        let r = NatSet { items: Vec::new() };
        proof {
            assert(r@ =~= Set::<int>::empty());
        }
        r
    }

    fn find(&self, x: u64) -> (r: Option<usize>)
        ensures
            match r {
                Some(i) => i < self.elems().len() && self.elems()[i as int] == x,
                None => !self@.contains(x as int),
            },
    {
        let mut i: usize = 0;
        while i < self.items.len()
            invariant
                i <= self.items@.len(),
                self.elems().len() == self.items@.len(),
                forall|j: int| 0 <= j < i ==> self.elems()[j] != x,
            decreases self.items@.len() - i,
        {
            if self.items[i].get() == x {
                return Some(i);
            }
            i = i + 1;
        }
        proof {
            assert(!self.elems().contains(x as int));
        }
        None
    }

    pub fn len(&self) -> (n: usize)
        requires
            self.wf(),
        ensures
            n == self.elems().len(),
            n == self@.len(),
            self@.finite(),
            all_positive(self@),
    {
        proof {
            self.elems().unique_seq_to_set();
            seq_to_set_is_finite(self.elems());
            assert forall|y: int| self@.contains(y) implies 1 <= y <= u64::MAX by {
                let j = choose|j: int| 0 <= j < self.elems().len() && self.elems()[j] == y;
            };
        }
        self.items.len()
    }

    pub fn get(&self, i: usize) -> (r: Nat)
        requires
            i < self.elems().len(),
        ensures
            r@ == self.elems()[i as int],
            self@.contains(r@),
    {
        proof {
            assert(self.elems().contains(self.elems()[i as int]));
        }
        self.items[i]
    }

    pub fn insert(&mut self, x: Nat)
        requires
            old(self).wf(),
        ensures
            final(self).wf(),
            final(self)@ == old(self)@.insert(x@),
    {
        let xv = x.get();
        match self.find(xv) {
            Some(_) => {
                proof {
                    assert(self@ =~= old(self)@.insert(x@));
                }
            },
            None => {
                self.items.push(x);
                proof {
                    assert(self.elems() =~= old(self).elems().push(x@));
                    assert(self@ =~= old(self)@.insert(x@)) by {
                        old(self).elems().lemma_push_to_set_commute(x@);
                    };
                }
            },
        }
    }

    fn is_subset_of(&self, other: &NatSet) -> (r: bool)
        ensures
            r <==> self@.subset_of(other@),
    {
        let n = self.items.len();
        let mut i: usize = 0;
        while i < n
            invariant
                i <= n,
                n == self.elems().len(),
                forall|j: int| 0 <= j < i ==> other@.contains(#[trigger] self.elems()[j]),
            decreases n - i,
        {
            let x = self.get(i);
            match other.find(x.get()) {
                Some(_) => {
                    proof {
                        assert(other.elems().contains(x@));
                    }
                },
                None => {
                    return false;
                },
            }
            i = i + 1;
        }
        proof {
            assert forall|y: int| self@.contains(y) implies other@.contains(y) by {
                let j = choose|j: int| 0 <= j < self.elems().len() && self.elems()[j] == y;
            };
        }
        true
    }

    /// Constructs the set of the positive members of `xs`, dropping the rest.
    pub fn from_slice(xs: &[u64]) -> (r: Self)
        ensures
            r.wf(),
            r@ == positive_members(xs@),
    {
        let mut out = NatSet::new();
        let n = xs.len();
        let mut i: usize = 0;
        while i < n
            invariant
                i <= n,
                n == xs@.len(),
                out.wf(),
                out@ == positive_members(xs@.take(i as int)),
            decreases n - i,
        {
            let x = xs[i];
            if x >= 1 {
                out.insert(Nat::new(x).unwrap());
            }
            proof {
                let t = xs@.take(i as int);
                let t1 = xs@.take(i + 1 as int);
                assert forall|y: int| positive_members(t1).contains(y) implies out@.contains(y) by {
                    let j = choose|j: int| 0 <= j < t1.len() && t1[j] == y && y >= 1;
                    if j < i {
                        assert(t[j] == y);
                        assert(positive_members(t).contains(y));
                    }
                };
                assert forall|y: int| out@.contains(y) implies positive_members(t1).contains(y) by {
                    if positive_members(t).contains(y) {
                        let j = choose|j: int| 0 <= j < t.len() && t[j] == y && y >= 1;
                        assert(t1[j] == y);
                    } else {
                        assert(t1[i as int] == y);
                    }
                };
                assert(out@ =~= positive_members(t1));
            }
            i = i + 1;
        }
        proof {
            assert(xs@.take(n as int) =~= xs@);
        }
        out
    }
}

impl FromU64<&[u64]> for NatSet {
    open spec fn members_of(x: &[u64]) -> Set<int> {
        positive_members(x@)
    }

    fn from_u64(x: &[u64]) -> Self {
        NatSet::from_slice(x)
    }
}

impl<const N: usize> FromU64<[u64; N]> for NatSet {
    open spec fn members_of(x: [u64; N]) -> Set<int> {
        positive_members(x@)
    }

    fn from_u64(x: [u64; N]) -> Self {
        NatSet::from_slice(x.as_slice())
    }
}

impl PartialEq for NatSet {
    fn eq(&self, other: &Self) -> (r: bool) {
        let r = self.is_subset_of(other) && other.is_subset_of(self);
        proof {
            if r {
                assert(self@ =~= other@);
            }
        }
        r
    }
}

impl vstd::std_specs::cmp::PartialEqSpecImpl for NatSet {
    open spec fn obeys_eq_spec() -> bool {
        true
    }

    open spec fn eq_spec(&self, other: &Self) -> bool {
        self@ == other@
    }
}

} // verus!
