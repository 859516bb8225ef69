//! The abstract-domain framework: a join-semilattice interface whose `join`
//! both merges states and reports whether anything changed, and the canonical
//! instance, a set domain whose join is union.

use vstd::prelude::*;
use crate::ty::{QualifiedInstId, QualifiedInstIdV};

verus! {

/// The result of a join: whether the target state grew.
#[derive(Clone, Copy, Debug, PartialEq, Eq, Structural)]
pub enum JoinResult {
    Unchanged,
    Changed,
}

/// A join-semilattice. `leq` is the abstract order; `join` moves `self` up to
/// an upper bound of itself and `other` and reports `Unchanged` exactly when
/// it did not move.
pub trait AbstractDomain: Sized + View {
    /// Well-formedness of a domain value.
    spec fn inv(&self) -> bool;

    /// The partial order of the lattice.
    spec fn leq(&self, other: &Self) -> bool;

    /// `leq` is reflexive.
    proof fn lemma_leq_refl(&self)
        ensures
            self.leq(self),
    ;

    /// `leq` is transitive.
    proof fn lemma_leq_trans(a: &Self, b: &Self, c: &Self)
        requires
            a.leq(b),
            b.leq(c),
        ensures
            a.leq(c),
    ;

    /// Joins `other` into `self` and reports whether `self` changed.
    /// `Unchanged` means the state was not touched at all.
    fn join(&mut self, other: &Self) -> (r: JoinResult)
        requires
            old(self).inv(),
            other.inv(),
        ensures
            final(self).inv(),
            old(self).leq(final(self)),
            other.leq(final(self)),
            r == JoinResult::Unchanged <==> final(self).leq(old(self)),
            r == JoinResult::Unchanged ==> *final(self) == *old(self),
    ;

    /// A copy with the same value.
    fn dup(&self) -> (r: Self)
        requires
            self.inv(),
        ensures
            r.inv(),
            r.leq(self),
            self.leq(&r),
            r@ == self@,
    ;
}

/// A set of instantiated struct references, with union as join. The element
/// vector holds no two elements with the same value.
#[derive(Debug)]
pub struct SetDomain {
    pub elems: Vec<QualifiedInstId>,
}

impl SetDomain {
    /// The elements' values, in insertion order.
    pub open spec fn sview(&self) -> Seq<QualifiedInstIdV> {
        self.elems@.map_values(|q: QualifiedInstId| q@)
    }

    /// No two stored elements have the same value.
    pub open spec fn inv(&self) -> bool {
        forall|i: int, j: int|
            0 <= i < j < self.sview().len() ==> self.sview()[i] != self.sview()[j]
    }

    /// The empty set.
    pub fn new() -> (r: SetDomain)
        ensures
            r.inv(),
            r@ == Set::<QualifiedInstIdV>::empty(),
            r.sview() == Seq::<QualifiedInstIdV>::empty(),
    {
        let r = SetDomain { elems: Vec::new() };
        proof {
            assert(r.sview() =~= Seq::<QualifiedInstIdV>::empty());
            assert(r@ =~= Set::<QualifiedInstIdV>::empty());
        }
        r
    }

    /// Number of elements.
    pub fn len(&self) -> (r: usize)
        ensures
            r == self.sview().len(),
    {
        self.elems.len()
    }

    /// The element at a position, for iteration.
    pub fn at(&self, i: usize) -> (r: &QualifiedInstId)
        requires
            i < self.sview().len(),
        ensures
            r@ == self.sview()[i as int],
            self@.contains(r@),
    {
        let r = &self.elems[i];
        proof {
            assert(self.sview()[i as int] == r@);
            assert(self.sview().contains(self.sview()[i as int]));
        }
        r
    }

    /// Whether the set holds an element with the value of `x`.
    pub fn contains(&self, x: &QualifiedInstId) -> (r: bool)
        ensures
            r == self@.contains(x@),
    {
        let mut i: usize = 0;
        while i < self.elems.len()
            invariant
                i <= self.sview().len(),
                forall|k: int| 0 <= k < i ==> self.sview()[k] != x@,
            decreases self.sview().len() - i,
        {
            if self.elems[i].qid_eq(x) {
                proof {
                    assert(self.sview()[i as int] == x@);
                    assert(self.sview().contains(x@));
                }
                return true;
            }
            i += 1;
        }
        false
    }

    /// Inserts `x`; reports whether the set grew.
    pub fn insert(&mut self, x: QualifiedInstId) -> (grew: bool)
        requires
            old(self).inv(),
        ensures
            final(self).inv(),
            final(self)@ == old(self)@.insert(x@),
            grew == !old(self)@.contains(x@),
            grew ==> final(self).sview() == old(self).sview().push(x@),
            !grew ==> *final(self) == *old(self),
    {
        if self.contains(&x) {
            proof {
                assert(self@ =~= old(self)@.insert(x@));
            }
            false
        } else {
            self.elems.push(x);
            proof {
                let sv_old = old(self).sview();
                let sv = self.sview();
                assert(sv =~= sv_old.push(x@));
                assert forall|y: QualifiedInstIdV| self@.contains(y) implies old(self)@.insert(
                    x@,
                ).contains(y) by {
                    let k = choose|k: int| 0 <= k < sv.len() && sv[k] == y;
                    if k < sv_old.len() {
                        assert(sv_old[k] == y);
                        assert(sv_old.contains(y));
                    } else {
                        assert(y == x@);
                    }
                }
                assert forall|y: QualifiedInstIdV| old(self)@.insert(x@).contains(y) implies self@.contains(
                    y,
                ) by {
                    if y == x@ {
                        assert(sv[sv_old.len() as int] == y);
                        assert(sv.contains(y));
                    } else {
                        let k = choose|k: int| 0 <= k < sv_old.len() && sv_old[k] == y;
                        assert(sv[k] == y);
                        assert(sv.contains(y));
                    }
                }
                assert(self@ =~= old(self)@.insert(x@));
            }
            true
        }
    }
}

impl View for SetDomain {
    type V = Set<QualifiedInstIdV>;

    open spec fn view(&self) -> Set<QualifiedInstIdV> {
        Set::new(|x: QualifiedInstIdV| self.sview().contains(x))
    }
}

impl AbstractDomain for SetDomain {
    open spec fn inv(&self) -> bool {
        SetDomain::inv(self)
    }

    open spec fn leq(&self, other: &Self) -> bool {
        self@.subset_of(other@)
    }

    proof fn lemma_leq_refl(&self) {
    }

    proof fn lemma_leq_trans(a: &Self, b: &Self, c: &Self) {
    }

    /// Set union; `Unchanged` exactly when every element of `other` was
    /// already present, in which case the set is not touched at all.
    fn join(&mut self, other: &Self) -> (r: JoinResult)
        ensures
            final(self)@ == old(self)@.union(other@),
    {
        let mut i: usize = 0;
        let mut grew = false;
        while i < other.len()
            invariant
                old(self).inv(),
                self.inv(),
                other.inv(),
                i <= other.sview().len(),
                old(self)@.subset_of(self@),
                self@.subset_of(old(self)@.union(other@)),
                forall|k: int| 0 <= k < i ==> self@.contains(other.sview()[k]),
                grew == !self@.subset_of(old(self)@),
                !grew ==> *self == *old(self),
            decreases other.sview().len() - i,
        {
            let x = other.at(i).clone();
            let g = self.insert(x);
            grew = grew || g;
            i += 1;
        }
        proof {
            assert(self@ =~= old(self)@.union(other@));
        }
        if grew {
            JoinResult::Changed
        } else {
            proof {
                assert(self@ =~= old(self)@);
            }
            JoinResult::Unchanged
        }
    }

    fn dup(&self) -> (r: Self)
        ensures
            r@ == self@,
            r.sview() == self.sview(),
    {
        let mut elems: Vec<QualifiedInstId> = Vec::new();
        let mut i: usize = 0;
        while i < self.elems.len()
            invariant
                i <= self.elems@.len(),
                elems@.len() == i,
                forall|k: int| 0 <= k < i ==> elems@[k]@ == self.elems@[k]@,
            decreases self.elems@.len() - i,
        {
            elems.push(self.elems[i].clone());
            i += 1;
        }
        let r = SetDomain { elems };
        proof {
            assert(r.sview() =~= self.sview());
            assert(r@ =~= self@);
        }
        r
    }
}

} // verus!
