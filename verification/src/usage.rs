//! The memory-usage analysis: per function, the sets of memory resources
//! accessed, modified, assumed upon and asserted upon, each split into the
//! part touched directly and the part inherited from callees, with their
//! union kept alongside.

use vstd::prelude::*;
use crate::ast::{Condition, ConditionKind, Exp, Spec};
use crate::bytecode::{BorrowNode, Bytecode, BytecodeOperation, ControlFlowGraph, PropKind};
use crate::compositional::{
    spec_summary, FunctionData, FunctionTargetsHolder, FunctionVariant, SummaryCache,
    CompositionalAnalysis,
};
use crate::dataflow::{analyze_function, converged_run, spec_block_exec, TransferFunctions};
use crate::domains::{AbstractDomain, JoinResult, SetDomain};
use crate::memory::{spec_extract_ghost_mem_access, spec_used_memory, MemPair};
use crate::model::GlobalEnv;
use crate::ty::{
    spec_instantiate_qid, view_types, QualifiedId, QualifiedInstId, QualifiedInstIdV, Type,
};
use crate::ids::{FunId, MemoryLabel, ModuleId, StructId};

verus! {

/// A summary of the memory used per function and category, both directly
/// and transitively.
#[derive(Debug)]
pub struct MemoryUsage {
    /// The memory directly used in the function.
    pub direct: SetDomain,
    /// The memory used by at least one of its callees.
    pub transitive: SetDomain,
    /// The union of the two, kept explicit for constant-time queries.
    pub all: SetDomain,
}

/// The value of a `MemoryUsage`.
#[verifier::ext_equal]
pub struct MemoryUsageV {
    pub direct: Set<QualifiedInstIdV>,
    pub transitive: Set<QualifiedInstIdV>,
    pub all: Set<QualifiedInstIdV>,
}

impl View for MemoryUsage {
    type V = MemoryUsageV;

    open spec fn view(&self) -> MemoryUsageV {
        MemoryUsageV { direct: self.direct@, transitive: self.transitive@, all: self.all@ }
    }
}

/// Componentwise union.
pub open spec fn mu_join(a: MemoryUsageV, b: MemoryUsageV) -> MemoryUsageV {
    MemoryUsageV {
        direct: a.direct.union(b.direct),
        transitive: a.transitive.union(b.transitive),
        all: a.all.union(b.all),
    }
}

/// Componentwise inclusion.
pub open spec fn mu_leq(a: MemoryUsageV, b: MemoryUsageV) -> bool {
    a.direct.subset_of(b.direct) && a.transitive.subset_of(b.transitive) && a.all.subset_of(b.all)
}

/// One memory added to the direct (and hence the full) set.
pub open spec fn mu_add_direct(a: MemoryUsageV, m: QualifiedInstIdV) -> MemoryUsageV {
    MemoryUsageV { direct: a.direct.insert(m), transitive: a.transitive, all: a.all.insert(m) }
}

/// One memory added to the transitive (and hence the full) set.
pub open spec fn mu_add_transitive(a: MemoryUsageV, m: QualifiedInstIdV) -> MemoryUsageV {
    MemoryUsageV { direct: a.direct, transitive: a.transitive.insert(m), all: a.all.insert(m) }
}

/// Every element of `s`, instantiated with `args`.
pub open spec fn inst_set(s: Set<QualifiedInstIdV>, args: Seq<crate::ty::TypeV>) -> Set<
    QualifiedInstIdV,
> {
    Set::new(|y: QualifiedInstIdV| exists|q: QualifiedInstIdV|
        s.contains(q) && y == spec_instantiate_qid(q, args))
}

impl MemoryUsage {
    /// Well-formedness: the three sets are well formed and the full set is
    /// the union of the other two.
    pub open spec fn inv(&self) -> bool {
        &&& self.direct.inv()
        &&& self.transitive.inv()
        &&& self.all.inv()
        &&& self@.all == self@.direct.union(self@.transitive)
    }

    /// The empty usage.
    pub fn new() -> (r: MemoryUsage)
        ensures
            r.inv(),
            r@.direct == Set::<QualifiedInstIdV>::empty(),
            r@.transitive == Set::<QualifiedInstIdV>::empty(),
            r@.all == Set::<QualifiedInstIdV>::empty(),
    {
        let r = MemoryUsage { direct: SetDomain::new(), transitive: SetDomain::new(), all: SetDomain::new() };
        proof {
            assert(r@.all =~= r@.direct.union(r@.transitive));
        }
        r
    }

    /// Inserts a memory the function itself touches.
    pub fn add_direct(&mut self, mem: QualifiedInstId)
        requires
            old(self).inv(),
        ensures
            final(self).inv(),
            final(self)@ == mu_add_direct(old(self)@, mem@),
    {
        let copy = mem.clone();
        self.direct.insert(copy);
        self.all.insert(mem);
        proof {
            assert(self@.all =~= self@.direct.union(self@.transitive));
            assert(self@ =~= mu_add_direct(old(self)@, mem@));
        }
    }

    /// Inserts a memory inherited from a callee.
    pub fn add_transitive(&mut self, mem: QualifiedInstId)
        requires
            old(self).inv(),
        ensures
            final(self).inv(),
            final(self)@ == mu_add_transitive(old(self)@, mem@),
    {
        let copy = mem.clone();
        self.transitive.insert(copy);
        self.all.insert(mem);
        proof {
            assert(self@.all =~= self@.direct.union(self@.transitive));
            assert(self@ =~= mu_add_transitive(old(self)@, mem@));
        }
    }

    /// The direct memories, instantiated with the given type arguments.
    pub fn get_direct_inst(&self, inst: &Vec<Type>) -> (r: SetDomain)
        requires
            self.inv(),
        ensures
            r.inv(),
            r@ == inst_set(self@.direct, view_types(inst@)),
    {
        inst_all(&self.direct, inst)
    }

    /// The transitive memories, instantiated with the given type arguments.
    pub fn get_transitive_inst(&self, inst: &Vec<Type>) -> (r: SetDomain)
        requires
            self.inv(),
        ensures
            r.inv(),
            r@ == inst_set(self@.transitive, view_types(inst@)),
    {
        inst_all(&self.transitive, inst)
    }

    /// All memories, instantiated with the given type arguments.
    pub fn get_all_inst(&self, inst: &Vec<Type>) -> (r: SetDomain)
        requires
            self.inv(),
        ensures
            r.inv(),
            r@ == inst_set(self@.all, view_types(inst@)),
    {
        inst_all(&self.all, inst)
    }

    /// The direct memories with their instantiations dropped.
    pub fn get_direct_uninst(&self) -> (r: Vec<QualifiedId<StructId>>)
        requires
            self.inv(),
        ensures
            forall|x: QualifiedId<StructId>|
                r@.contains(x) <==> (exists|q: QualifiedInstIdV|
                    #[trigger] self@.direct.contains(q) && x == (QualifiedId {
                        module_id: q.module_id,
                        id: q.id,
                    })),
            forall|a: int, b: int| 0 <= a < b < r@.len() ==> r@[a] != r@[b],
    {
        uninst_all(&self.direct)
    }

    /// The transitive memories with their instantiations dropped.
    pub fn get_transitive_uninst(&self) -> (r: Vec<QualifiedId<StructId>>)
        requires
            self.inv(),
        ensures
            forall|x: QualifiedId<StructId>|
                r@.contains(x) <==> (exists|q: QualifiedInstIdV|
                    #[trigger] self@.transitive.contains(q) && x == (QualifiedId {
                        module_id: q.module_id,
                        id: q.id,
                    })),
            forall|a: int, b: int| 0 <= a < b < r@.len() ==> r@[a] != r@[b],
    {
        uninst_all(&self.transitive)
    }

    /// All memories with their instantiations dropped.
    pub fn get_all_uninst(&self) -> (r: Vec<QualifiedId<StructId>>)
        requires
            self.inv(),
        ensures
            forall|x: QualifiedId<StructId>|
                r@.contains(x) <==> (exists|q: QualifiedInstIdV|
                    #[trigger] self@.all.contains(q) && x == (QualifiedId {
                        module_id: q.module_id,
                        id: q.id,
                    })),
            forall|a: int, b: int| 0 <= a < b < r@.len() ==> r@[a] != r@[b],
    {
        uninst_all(&self.all)
    }
}

impl Default for MemoryUsage {
    /// The empty usage.
    fn default() -> (r: MemoryUsage)
        ensures
            r.inv(),
            r@.direct == Set::<QualifiedInstIdV>::empty(),
            r@.transitive == Set::<QualifiedInstIdV>::empty(),
            r@.all == Set::<QualifiedInstIdV>::empty(),
    {
        MemoryUsage::new()
    }
}

/// Instantiates every element of a set domain.
fn inst_all(s: &SetDomain, inst: &Vec<Type>) -> (r: SetDomain)
    requires
        s.inv(),
    ensures
        r.inv(),
        r@ == inst_set(s@, view_types(inst@)),
{
    let ghost args = view_types(inst@);
    let mut r = SetDomain::new();
    let n = s.len();
    let mut i: usize = 0;
    while i < n
        invariant
            i <= n,
            s.inv(),
            r.inv(),
            n == s.sview().len(),
            args == view_types(inst@),
            forall|y: QualifiedInstIdV|
                r@.contains(y) <==> (exists|k: int|
                    0 <= k < i && y == spec_instantiate_qid(#[trigger] s.sview()[k], args)),
        decreases n - i,
    {
        let q = s.at(i).instantiate_ref(inst);
        let ghost r0 = r@;
        r.insert(q);
        proof {
            assert forall|y: QualifiedInstIdV| r@.contains(y) implies (exists|k: int|
                0 <= k < i + 1 && y == spec_instantiate_qid(#[trigger] s.sview()[k], args)) by {
                if y == q@ {
                    assert(q@ == spec_instantiate_qid(s.sview()[i as int], args));
                } else {
                    assert(r0.contains(y));
                    let k = choose|k: int|
                        0 <= k < i && y == spec_instantiate_qid(#[trigger] s.sview()[k], args);
                    assert(y == spec_instantiate_qid(s.sview()[k], args));
                }
            }
            assert forall|y: QualifiedInstIdV|
                (exists|k: int|
                    0 <= k < i + 1 && y == spec_instantiate_qid(
                        #[trigger] s.sview()[k],
                        args,
                    )) implies r@.contains(y) by {
                let k = choose|k: int|
                    0 <= k < i + 1 && y == spec_instantiate_qid(#[trigger] s.sview()[k], args);
                if k < i {
                    assert(r0.contains(y));
                } else {
                    assert(y == q@);
                }
            }
        }
        i += 1;
    }
    proof {
        assert forall|y: QualifiedInstIdV| r@.contains(y) implies inst_set(s@, args).contains(
            y,
        ) by {
            let k = choose|k: int|
                0 <= k < n && y == spec_instantiate_qid(#[trigger] s.sview()[k], args);
            assert(s.sview().contains(s.sview()[k]));
            assert(s@.contains(s.sview()[k]));
        }
        assert forall|y: QualifiedInstIdV| inst_set(s@, args).contains(y) implies r@.contains(
            y,
        ) by {
            let q = choose|q: QualifiedInstIdV|
                s@.contains(q) && y == spec_instantiate_qid(q, args);
            let k = choose|k: int| 0 <= k < s.sview().len() && s.sview()[k] == q;
            assert(y == spec_instantiate_qid(s.sview()[k], args));
        }
        assert(r@ =~= inst_set(s@, args));
    }
    r
}

/// Drops the instantiation of every element of a set domain.
fn uninst_all(s: &SetDomain) -> (r: Vec<QualifiedId<StructId>>)
    requires
        s.inv(),
    ensures
        forall|x: QualifiedId<StructId>|
            r@.contains(x) <==> (exists|q: QualifiedInstIdV|
                #[trigger] s@.contains(q) && x == (QualifiedId { module_id: q.module_id, id: q.id })),
        forall|a: int, b: int| 0 <= a < b < r@.len() ==> r@[a] != r@[b],
{
    let mut r: Vec<QualifiedId<StructId>> = Vec::new();
    let n = s.len();
    let mut i: usize = 0;
    while i < n
        invariant
            i <= n,
            s.inv(),
            n == s.sview().len(),
            forall|x: QualifiedId<StructId>|
                r@.contains(x) <==> (exists|k: int|
                    0 <= k < i && x == (QualifiedId {
                        module_id: (#[trigger] s.sview()[k]).module_id,
                        id: s.sview()[k].id,
                    })),
            forall|a: int, b: int| 0 <= a < b < r@.len() ==> r@[a] != r@[b],
        decreases n - i,
    {
        let e = s.at(i);
        let x = QualifiedId { module_id: e.module_id, id: e.id };
        let ghost r0 = r@;
        let mut present = false;
        let mut k: usize = 0;
        while k < r.len()
            invariant
                k <= r@.len(),
                r@ == r0,
                present == (exists|j: int| 0 <= j < k && r0[j] == x),
            decreases r@.len() - k,
        {
            if r[k] == x {
                present = true;
                proof {
                    assert(r0[k as int] == x);
                }
            }
            k += 1;
        }
        proof {
            if present {
                let j = choose|j: int| 0 <= j < r0.len() && r0[j] == x;
                assert(r0.contains(x));
            } else {
                if r0.contains(x) {
                    let j = choose|j: int| 0 <= j < r0.len() && r0[j] == x;
                }
            }
        }
        if !present {
            r.push(x);
        }
        proof {
            assert forall|x2: QualifiedId<StructId>| r@.contains(x2) implies (exists|k2: int|
                0 <= k2 < i + 1 && x2 == (QualifiedId {
                    module_id: (#[trigger] s.sview()[k2]).module_id,
                    id: s.sview()[k2].id,
                })) by {
                if x2 == x {
                    assert(s.sview()[i as int].module_id == x.module_id);
                } else {
                    let j = choose|j: int| 0 <= j < r0.len() && r0[j] == x2;
                    assert(r0.contains(x2));
                    let k2 = choose|k2: int|
                        0 <= k2 < i && x2 == (QualifiedId {
                            module_id: (#[trigger] s.sview()[k2]).module_id,
                            id: s.sview()[k2].id,
                        });
                    assert(x2 == (QualifiedId {
                        module_id: s.sview()[k2].module_id,
                        id: s.sview()[k2].id,
                    }));
                }
            }
            assert forall|x2: QualifiedId<StructId>|
                (exists|k2: int|
                    0 <= k2 < i + 1 && x2 == (QualifiedId {
                        module_id: (#[trigger] s.sview()[k2]).module_id,
                        id: s.sview()[k2].id,
                    })) implies r@.contains(x2) by {
                let k2 = choose|k2: int|
                    0 <= k2 < i + 1 && x2 == (QualifiedId {
                        module_id: (#[trigger] s.sview()[k2]).module_id,
                        id: s.sview()[k2].id,
                    });
                if k2 < i {
                    assert(r0.contains(x2));
                    let j = choose|j: int| 0 <= j < r0.len() && r0[j] == x2;
                    assert(r@[j] == x2);
                } else {
                    assert(x2 == x);
                    if present {
                        let j = choose|j: int| 0 <= j < r0.len() && r0[j] == x;
                        assert(r@[j] == x2);
                    } else {
                        assert(r@[r@.len() - 1] == x2);
                    }
                }
            }
        }
        i += 1;
    }
    proof {
        assert forall|x: QualifiedId<StructId>| r@.contains(x) implies (exists|
            q: QualifiedInstIdV,
        |
            #[trigger] s@.contains(q) && x == (QualifiedId { module_id: q.module_id, id: q.id }))
            by {
            let k = choose|k: int|
                0 <= k < n && x == (QualifiedId {
                    module_id: (#[trigger] s.sview()[k]).module_id,
                    id: s.sview()[k].id,
                });
            assert(s.sview().contains(s.sview()[k]));
            assert(s@.contains(s.sview()[k]));
        }
        assert forall|x: QualifiedId<StructId>|
            (exists|q: QualifiedInstIdV|
                #[trigger] s@.contains(q) && x == (QualifiedId {
                    module_id: q.module_id,
                    id: q.id,
                })) implies r@.contains(x) by {
            let q = choose|q: QualifiedInstIdV|
                s@.contains(q) && x == (QualifiedId { module_id: q.module_id, id: q.id });
            let k = choose|k: int| 0 <= k < s.sview().len() && s.sview()[k] == q;
            assert(x == (QualifiedId {
                module_id: s.sview()[k].module_id,
                id: s.sview()[k].id,
            }));
        }
    }
    r
}

impl AbstractDomain for MemoryUsage {
    open spec fn inv(&self) -> bool {
        MemoryUsage::inv(self)
    }

    open spec fn leq(&self, other: &Self) -> bool {
        mu_leq(self@, other@)
    }

    proof fn lemma_leq_refl(&self) {
    }

    proof fn lemma_leq_trans(a: &Self, b: &Self, c: &Self) {
    }

    /// Componentwise union; `Unchanged` exactly when no component grew, in
    /// which case the record is not touched at all.
    fn join(&mut self, other: &Self) -> (r: JoinResult)
        ensures
            final(self)@ == mu_join(old(self)@, other@),
    {
        let r1 = self.direct.join(&other.direct);
        let r2 = self.transitive.join(&other.transitive);
        let r3 = self.all.join(&other.all);
        proof {
            assert(self@.all =~= self@.direct.union(self@.transitive));
        }
        match (r1, r2, r3) {
            (JoinResult::Unchanged, JoinResult::Unchanged, JoinResult::Unchanged) => JoinResult::Unchanged,
            _ => {
                proof {
                    if mu_leq(self@, old(self)@) {
                        assert(self@.direct =~= old(self)@.direct);
                        assert(self@.transitive =~= old(self)@.transitive);
                        assert(self@.all =~= old(self)@.all);
                    }
                }
                JoinResult::Changed
            },
        }
    }

    fn dup(&self) -> (r: Self)
        ensures
            r@ == self@,
    {
        MemoryUsage {
            direct: self.direct.dup(),
            transitive: self.transitive.dup(),
            all: self.all.dup(),
        }
    }
}


/// Per function, four usage records: the accessed memory is by construction
/// the union of the other three categories, since every insertion into
/// modified, assumed or asserted also inserts into accessed.
#[derive(Debug)]
pub struct UsageState {
    /// The memory accessed by this function.
    pub accessed: MemoryUsage,
    /// The memory modified by this function.
    pub modified: MemoryUsage,
    /// The memory mentioned by the assume expressions of this function.
    pub assumed: MemoryUsage,
    /// The memory mentioned by the assert expressions of this function.
    pub asserted: MemoryUsage,
}

/// The value of a `UsageState`.
#[verifier::ext_equal]
pub struct UsageStateV {
    pub accessed: MemoryUsageV,
    pub modified: MemoryUsageV,
    pub assumed: MemoryUsageV,
    pub asserted: MemoryUsageV,
}

impl View for UsageState {
    type V = UsageStateV;

    open spec fn view(&self) -> UsageStateV {
        UsageStateV {
            accessed: self.accessed@,
            modified: self.modified@,
            assumed: self.assumed@,
            asserted: self.asserted@,
        }
    }
}

/// Componentwise union.
pub open spec fn us_join(a: UsageStateV, b: UsageStateV) -> UsageStateV {
    UsageStateV {
        accessed: mu_join(a.accessed, b.accessed),
        modified: mu_join(a.modified, b.modified),
        assumed: mu_join(a.assumed, b.assumed),
        asserted: mu_join(a.asserted, b.asserted),
    }
}

/// Componentwise inclusion.
pub open spec fn us_leq(a: UsageStateV, b: UsageStateV) -> bool {
    mu_leq(a.accessed, b.accessed) && mu_leq(a.modified, b.modified) && mu_leq(
        a.assumed,
        b.assumed,
    ) && mu_leq(a.asserted, b.asserted)
}

/// The four usage categories.
#[derive(Clone, Copy, Debug, PartialEq, Eq, Structural)]
pub enum UsageCategory {
    Accessed,
    Modified,
    Assumed,
    Asserted,
}

/// The record of one category.
pub open spec fn us_cat(s: UsageStateV, cat: UsageCategory) -> MemoryUsageV {
    match cat {
        UsageCategory::Accessed => s.accessed,
        UsageCategory::Modified => s.modified,
        UsageCategory::Assumed => s.assumed,
        UsageCategory::Asserted => s.asserted,
    }
}

/// The state with one category's record replaced. Replacing the accessed
/// category replaces only it.
pub open spec fn us_with_cat(s: UsageStateV, cat: UsageCategory, m: MemoryUsageV) -> UsageStateV {
    match cat {
        UsageCategory::Accessed => UsageStateV { accessed: m, ..s },
        UsageCategory::Modified => UsageStateV { modified: m, ..s },
        UsageCategory::Assumed => UsageStateV { assumed: m, ..s },
        UsageCategory::Asserted => UsageStateV { asserted: m, ..s },
    }
}

/// One memory added to a category's direct set and to the accessed direct
/// set.
pub open spec fn us_add_direct(s: UsageStateV, cat: UsageCategory, m: QualifiedInstIdV) -> UsageStateV {
    let s1 = us_with_cat(s, cat, mu_add_direct(us_cat(s, cat), m));
    UsageStateV { accessed: mu_add_direct(s1.accessed, m), ..s1 }
}

/// One memory added to a category's transitive set and to the accessed
/// transitive set.
pub open spec fn us_add_transitive(s: UsageStateV, cat: UsageCategory, m: QualifiedInstIdV) -> UsageStateV {
    let s1 = us_with_cat(s, cat, mu_add_transitive(us_cat(s, cat), m));
    UsageStateV { accessed: mu_add_transitive(s1.accessed, m), ..s1 }
}

/// A set of memories added to a category's direct set and to the accessed
/// direct set.
pub open spec fn us_union_direct(s: UsageStateV, cat: UsageCategory, xs: Set<QualifiedInstIdV>) -> UsageStateV {
    let m0 = us_cat(s, cat);
    let m1 = MemoryUsageV {
        direct: m0.direct.union(xs),
        transitive: m0.transitive,
        all: m0.all.union(xs),
    };
    let s1 = us_with_cat(s, cat, m1);
    UsageStateV {
        accessed: MemoryUsageV {
            direct: s1.accessed.direct.union(xs),
            transitive: s1.accessed.transitive,
            all: s1.accessed.all.union(xs),
        },
        ..s1
    }
}

/// A set of memories added to a category's transitive set and to the
/// accessed transitive set.
pub open spec fn us_union_transitive(s: UsageStateV, cat: UsageCategory, xs: Set<QualifiedInstIdV>) -> UsageStateV {
    let m0 = us_cat(s, cat);
    let m1 = MemoryUsageV {
        direct: m0.direct,
        transitive: m0.transitive.union(xs),
        all: m0.all.union(xs),
    };
    let s1 = us_with_cat(s, cat, m1);
    UsageStateV {
        accessed: MemoryUsageV {
            direct: s1.accessed.direct,
            transitive: s1.accessed.transitive.union(xs),
            all: s1.accessed.all.union(xs),
        },
        ..s1
    }
}

/// A whole callee summary folded into the caller as direct effects: every
/// category of the callee contributes its full set, instantiated, to the
/// caller's same category and to the caller's accessed set.
pub open spec fn us_subsume_direct(s: UsageStateV, c: UsageStateV, args: Seq<crate::ty::TypeV>) -> UsageStateV {
    let s1 = us_union_direct(s, UsageCategory::Accessed, inst_set(c.accessed.all, args));
    let s2 = us_union_direct(s1, UsageCategory::Modified, inst_set(c.modified.all, args));
    let s3 = us_union_direct(s2, UsageCategory::Assumed, inst_set(c.assumed.all, args));
    us_union_direct(s3, UsageCategory::Asserted, inst_set(c.asserted.all, args))
}

/// A whole callee summary folded into the caller as transitive effects.
pub open spec fn us_subsume_transitive(s: UsageStateV, c: UsageStateV, args: Seq<crate::ty::TypeV>) -> UsageStateV {
    let s1 = us_union_transitive(s, UsageCategory::Accessed, inst_set(c.accessed.all, args));
    let s2 = us_union_transitive(s1, UsageCategory::Modified, inst_set(c.modified.all, args));
    let s3 = us_union_transitive(s2, UsageCategory::Assumed, inst_set(c.assumed.all, args));
    us_union_transitive(s3, UsageCategory::Asserted, inst_set(c.asserted.all, args))
}

impl UsageState {
    /// Well-formedness of all four records; the accessed memory covers the
    /// modified, assumed and asserted memory, since every insertion into
    /// those categories also inserts into accessed.
    pub open spec fn inv(&self) -> bool {
        &&& self.accessed.inv()
        &&& self.modified.inv()
        &&& self.assumed.inv()
        &&& self.asserted.inv()
        &&& self@.modified.all.subset_of(self@.accessed.all)
        &&& self@.assumed.all.subset_of(self@.accessed.all)
        &&& self@.asserted.all.subset_of(self@.accessed.all)
    }

    /// The empty state.
    pub fn new() -> (r: UsageState)
        ensures
            r.inv(),
            r@.accessed.direct == Set::<QualifiedInstIdV>::empty(),
            r@.accessed.transitive == Set::<QualifiedInstIdV>::empty(),
            r@.accessed.all == Set::<QualifiedInstIdV>::empty(),
            r@.modified.direct == Set::<QualifiedInstIdV>::empty(),
            r@.modified.transitive == Set::<QualifiedInstIdV>::empty(),
            r@.modified.all == Set::<QualifiedInstIdV>::empty(),
            r@.assumed.direct == Set::<QualifiedInstIdV>::empty(),
            r@.assumed.transitive == Set::<QualifiedInstIdV>::empty(),
            r@.assumed.all == Set::<QualifiedInstIdV>::empty(),
            r@.asserted.direct == Set::<QualifiedInstIdV>::empty(),
            r@.asserted.transitive == Set::<QualifiedInstIdV>::empty(),
            r@.asserted.all == Set::<QualifiedInstIdV>::empty(),
    {
        UsageState {
            accessed: MemoryUsage::new(),
            modified: MemoryUsage::new(),
            assumed: MemoryUsage::new(),
            asserted: MemoryUsage::new(),
        }
    }

    /// Inserts a memory the function itself touches, into a category and
    /// into the accessed record.
    pub fn add_direct(&mut self, cat: UsageCategory, mem: QualifiedInstId)
        requires
            old(self).inv(),
        ensures
            final(self).inv(),
            final(self)@ == us_add_direct(old(self)@, cat, mem@),
    {
        match cat {
            UsageCategory::Accessed => {
                self.accessed.add_direct(mem);
            },
            UsageCategory::Modified => {
                let copy = mem.clone();
                self.modified.add_direct(copy);
                self.accessed.add_direct(mem);
            },
            UsageCategory::Assumed => {
                let copy = mem.clone();
                self.assumed.add_direct(copy);
                self.accessed.add_direct(mem);
            },
            UsageCategory::Asserted => {
                let copy = mem.clone();
                self.asserted.add_direct(copy);
                self.accessed.add_direct(mem);
            },
        }
        proof {
            assert(final(self)@ =~= us_add_direct(old(self)@, cat, mem@));
        }
    }

    /// Inserts a memory inherited from a callee, into a category and into
    /// the accessed record.
    pub fn add_transitive(&mut self, cat: UsageCategory, mem: QualifiedInstId)
        requires
            old(self).inv(),
        ensures
            final(self).inv(),
            final(self)@ == us_add_transitive(old(self)@, cat, mem@),
    {
        match cat {
            UsageCategory::Accessed => {
                self.accessed.add_transitive(mem);
            },
            UsageCategory::Modified => {
                let copy = mem.clone();
                self.modified.add_transitive(copy);
                self.accessed.add_transitive(mem);
            },
            UsageCategory::Assumed => {
                let copy = mem.clone();
                self.assumed.add_transitive(copy);
                self.accessed.add_transitive(mem);
            },
            UsageCategory::Asserted => {
                let copy = mem.clone();
                self.asserted.add_transitive(copy);
                self.accessed.add_transitive(mem);
            },
        }
        proof {
            assert(final(self)@ =~= us_add_transitive(old(self)@, cat, mem@));
        }
    }

    /// Folds one callee category, instantiated, into a caller category as
    /// direct effects.
    fn add_direct_all_of(&mut self, cat: UsageCategory, callee_all: &SetDomain, inst: &Vec<Type>)
        requires
            old(self).inv(),
            callee_all.inv(),
        ensures
            final(self).inv(),
            final(self)@ == us_union_direct(
                old(self)@,
                cat,
                inst_set(callee_all@, view_types(inst@)),
            ),
    {
        let ghost args = view_types(inst@);
        let inst_mems = inst_all(callee_all, inst);
        let n = inst_mems.len();
        let mut i: usize = 0;
        while i < n
            invariant
                i <= n,
                inst_mems.inv(),
                n == inst_mems.sview().len(),
                self.inv(),
                self@ == us_union_direct(old(self)@, cat, prefix_set(inst_mems.sview(), i as int)),
            decreases n - i,
        {
            let q = inst_mems.at(i).clone();
            self.add_direct(cat, q);
            proof {
                assert(prefix_set(inst_mems.sview(), i + 1) =~= prefix_set(
                    inst_mems.sview(),
                    i as int,
                ).insert(inst_mems.sview()[i as int]));
                assert(self@ =~= us_union_direct(
                    old(self)@,
                    cat,
                    prefix_set(inst_mems.sview(), i + 1),
                ));
            }
            i += 1;
        }
        proof {
            assert forall|y: QualifiedInstIdV| prefix_set(inst_mems.sview(), n as int).contains(
                y,
            ) implies inst_mems@.contains(y) by {
                let k = choose|k: int| 0 <= k < n && inst_mems.sview()[k] == y;
                assert(inst_mems.sview().contains(inst_mems.sview()[k]));
            }
            assert forall|y: QualifiedInstIdV| inst_mems@.contains(y) implies prefix_set(
                inst_mems.sview(),
                n as int,
            ).contains(y) by {
                let k = choose|k: int| 0 <= k < inst_mems.sview().len() && inst_mems.sview()[k] == y;
            }
            assert(prefix_set(inst_mems.sview(), n as int) =~= inst_mems@);
            assert(self@ =~= us_union_direct(old(self)@, cat, inst_set(callee_all@, args)));
        }
    }

    /// Folds one callee category, instantiated, into a caller category as
    /// transitive effects.
    fn add_transitive_all_of(&mut self, cat: UsageCategory, callee_all: &SetDomain, inst: &Vec<Type>)
        requires
            old(self).inv(),
            callee_all.inv(),
        ensures
            final(self).inv(),
            final(self)@ == us_union_transitive(
                old(self)@,
                cat,
                inst_set(callee_all@, view_types(inst@)),
            ),
    {
        let ghost args = view_types(inst@);
        let inst_mems = inst_all(callee_all, inst);
        let n = inst_mems.len();
        let mut i: usize = 0;
        while i < n
            invariant
                i <= n,
                inst_mems.inv(),
                n == inst_mems.sview().len(),
                self.inv(),
                self@ == us_union_transitive(
                    old(self)@,
                    cat,
                    prefix_set(inst_mems.sview(), i as int),
                ),
            decreases n - i,
        {
            let q = inst_mems.at(i).clone();
            self.add_transitive(cat, q);
            proof {
                assert(prefix_set(inst_mems.sview(), i + 1) =~= prefix_set(
                    inst_mems.sview(),
                    i as int,
                ).insert(inst_mems.sview()[i as int]));
                assert(self@ =~= us_union_transitive(
                    old(self)@,
                    cat,
                    prefix_set(inst_mems.sview(), i + 1),
                ));
            }
            i += 1;
        }
        proof {
            assert forall|y: QualifiedInstIdV| prefix_set(inst_mems.sview(), n as int).contains(
                y,
            ) implies inst_mems@.contains(y) by {
                let k = choose|k: int| 0 <= k < n && inst_mems.sview()[k] == y;
                assert(inst_mems.sview().contains(inst_mems.sview()[k]));
            }
            assert forall|y: QualifiedInstIdV| inst_mems@.contains(y) implies prefix_set(
                inst_mems.sview(),
                n as int,
            ).contains(y) by {
                let k = choose|k: int| 0 <= k < inst_mems.sview().len() && inst_mems.sview()[k] == y;
            }
            assert(prefix_set(inst_mems.sview(), n as int) =~= inst_mems@);
            assert(self@ =~= us_union_transitive(old(self)@, cat, inst_set(callee_all@, args)));
        }
    }

    /// Folds a callee's whole summary into this state as direct effects, as
    /// for a callee whose invariant checking is delegated to it.
    pub fn subsume_callee_as_direct(&mut self, callee: &UsageState, inst: &Vec<Type>)
        requires
            old(self).inv(),
            callee.inv(),
        ensures
            final(self).inv(),
            final(self)@ == us_subsume_direct(old(self)@, callee@, view_types(inst@)),
    {
        self.add_direct_all_of(UsageCategory::Accessed, &callee.accessed.all, inst);
        self.add_direct_all_of(UsageCategory::Modified, &callee.modified.all, inst);
        self.add_direct_all_of(UsageCategory::Assumed, &callee.assumed.all, inst);
        self.add_direct_all_of(UsageCategory::Asserted, &callee.asserted.all, inst);
    }

    /// Folds a callee's whole summary into this state as transitive
    /// effects, as for an ordinary callee.
    pub fn subsume_callee_as_transitive(&mut self, callee: &UsageState, inst: &Vec<Type>)
        requires
            old(self).inv(),
            callee.inv(),
        ensures
            final(self).inv(),
            final(self)@ == us_subsume_transitive(old(self)@, callee@, view_types(inst@)),
    {
        self.add_transitive_all_of(UsageCategory::Accessed, &callee.accessed.all, inst);
        self.add_transitive_all_of(UsageCategory::Modified, &callee.modified.all, inst);
        self.add_transitive_all_of(UsageCategory::Assumed, &callee.assumed.all, inst);
        self.add_transitive_all_of(UsageCategory::Asserted, &callee.asserted.all, inst);
    }
}

/// The set of the first `n` elements of a sequence.
pub open spec fn prefix_set(sv: Seq<QualifiedInstIdV>, n: int) -> Set<QualifiedInstIdV> {
    Set::new(|y: QualifiedInstIdV| exists|k: int| 0 <= k < n && k < sv.len() && sv[k] == y)
}

impl Default for UsageState {
    /// The empty state.
    fn default() -> (r: UsageState)
        ensures
            r.inv(),
            r@.accessed.all == Set::<QualifiedInstIdV>::empty(),
            r@.accessed.direct == Set::<QualifiedInstIdV>::empty(),
            r@.accessed.transitive == Set::<QualifiedInstIdV>::empty(),
            r@.modified.all == Set::<QualifiedInstIdV>::empty(),
            r@.modified.direct == Set::<QualifiedInstIdV>::empty(),
            r@.assumed.all == Set::<QualifiedInstIdV>::empty(),
            r@.assumed.direct == Set::<QualifiedInstIdV>::empty(),
            r@.asserted.all == Set::<QualifiedInstIdV>::empty(),
            r@.asserted.direct == Set::<QualifiedInstIdV>::empty(),
    {
        UsageState::new()
    }
}

impl AbstractDomain for UsageState {
    open spec fn inv(&self) -> bool {
        UsageState::inv(self)
    }

    open spec fn leq(&self, other: &Self) -> bool {
        us_leq(self@, other@)
    }

    proof fn lemma_leq_refl(&self) {
    }

    proof fn lemma_leq_trans(a: &Self, b: &Self, c: &Self) {
    }

    /// Componentwise union; `Unchanged` exactly when no component grew. All
    /// components are joined regardless, so partial updates stay sound.
    fn join(&mut self, other: &Self) -> (r: JoinResult)
        ensures
            final(self)@ == us_join(old(self)@, other@),
    {
        let r1 = self.accessed.join(&other.accessed);
        let r2 = self.modified.join(&other.modified);
        let r3 = self.assumed.join(&other.assumed);
        let r4 = self.asserted.join(&other.asserted);
        proof {
            assert(self@ =~= us_join(old(self)@, other@));
        }
        match (r1, r2, r3, r4) {
            (
                JoinResult::Unchanged,
                JoinResult::Unchanged,
                JoinResult::Unchanged,
                JoinResult::Unchanged,
            ) => JoinResult::Unchanged,
            _ => JoinResult::Changed,
        }
    }

    fn dup(&self) -> (r: Self)
        ensures
            r@ == self@,
    {
        let r = UsageState {
            accessed: self.accessed.dup(),
            modified: self.modified.dup(),
            assumed: self.assumed.dup(),
            asserted: self.asserted.dup(),
        };
        proof {
            assert(r@ =~= self@);
        }
        r
    }
}

// =========================================================================
// Lattice laws

/// Join is commutative.
pub proof fn lemma_join_commutative(a: UsageStateV, b: UsageStateV)
    ensures
        us_join(a, b) == us_join(b, a),
{
    assert(us_join(a, b) =~~= us_join(b, a));
}

/// Join is associative.
pub proof fn lemma_join_associative(a: UsageStateV, b: UsageStateV, c: UsageStateV)
    ensures
        us_join(us_join(a, b), c) == us_join(a, us_join(b, c)),
{
    assert(us_join(us_join(a, b), c) =~~= us_join(a, us_join(b, c)));
}

/// Join is idempotent; at the state level, joining a state with itself
/// leaves it unchanged, so the exec join reports `Unchanged`.
pub proof fn lemma_join_idempotent(a: UsageStateV)
    ensures
        us_join(a, a) == a,
{
    assert(us_join(a, a) =~~= a);
}

/// Join preserves the full-set invariant: if both operands keep `all` equal
/// to the union of `direct` and `transitive`, so does their join.
pub proof fn lemma_join_keeps_all_union(a: MemoryUsageV, b: MemoryUsageV)
    requires
        a.all == a.direct.union(a.transitive),
        b.all == b.direct.union(b.transitive),
    ensures
        mu_join(a, b).all == mu_join(a, b).direct.union(mu_join(a, b).transitive),
{
    assert(mu_join(a, b).all =~= mu_join(a, b).direct.union(mu_join(a, b).transitive));
}


// =========================================================================
// The transfer function

/// The memories of a pair set, labels dropped.
pub open spec fn drop_labels(ps: Set<MemPair>) -> Set<QualifiedInstIdV> {
    Set::new(|q: QualifiedInstIdV| exists|l: Option<MemoryLabel>| ps.contains((q, l)))
}

/// Whether invariant checking is delegated to the function.
pub open spec fn spec_delegated(env: GlobalEnv, mid: ModuleId, fid: FunId) -> bool {
    env.modules@[mid.0 as int].functions@[fid.0 as int].delegated_invariants
}

/// What one instruction must satisfy to reach the usage transfer: a
/// `modifies` condition never appears as a body instruction; a
/// specification instruction carries an expression of the model; a call
/// names a declared function.
pub open spec fn usage_instr_ok(env: GlobalEnv, instr: Bytecode) -> bool {
    match instr {
        Bytecode::Prop(_, kind, exp) => !(kind is Modifies) && env.exp_arena.has(exp),
        Bytecode::Call(_, _, oper, _) => match oper {
            BytecodeOperation::Function(mid, fid, _) => env.has_fun(mid, fid),
            BytecodeOperation::OpaqueCallBegin(mid, fid, _) => env.has_fun(mid, fid),
            BytecodeOperation::OpaqueCallEnd(mid, fid, _) => env.has_fun(mid, fid),
            _ => true,
        },
        _ => true,
    }
}

/// The exact effect of one instruction on the usage state.
pub open spec fn usage_transfer(
    env: GlobalEnv,
    ts: Seq<FunctionData>,
    s: UsageStateV,
    instr: Bytecode,
) -> UsageStateV {
    match instr {
        Bytecode::Call(_, _, oper, _) => match oper {
            BytecodeOperation::Function(mid, fid, inst)
                | BytecodeOperation::OpaqueCallBegin(mid, fid, inst)
                | BytecodeOperation::OpaqueCallEnd(mid, fid, inst) => {
                let callee = QualifiedId { module_id: mid, id: fid };
                match spec_summary(ts, callee, FunctionVariant::Baseline) {
                    Option::Some(sum) => if spec_delegated(env, mid, fid) {
                        us_subsume_direct(s, sum@, view_types(inst@))
                    } else {
                        us_subsume_transitive(s, sum@, view_types(inst@))
                    },
                    Option::None => s,
                }
            },
            BytecodeOperation::MoveTo(mid, sid, inst)
                | BytecodeOperation::MoveFrom(mid, sid, inst)
                | BytecodeOperation::BorrowGlobal(mid, sid, inst) => us_add_direct(
                s,
                UsageCategory::Modified,
                QualifiedInstIdV { module_id: mid, inst: view_types(inst@), id: sid },
            ),
            BytecodeOperation::WriteBack(node) => match node {
                BorrowNode::GlobalRoot(mem) => us_add_direct(s, UsageCategory::Modified, mem@),
                _ => s,
            },
            BytecodeOperation::Exists(mid, sid, inst)
                | BytecodeOperation::GetGlobal(mid, sid, inst) => us_add_direct(
                s,
                UsageCategory::Accessed,
                QualifiedInstIdV { module_id: mid, inst: view_types(inst@), id: sid },
            ),
            BytecodeOperation::Other => s,
        },
        Bytecode::Prop(_, kind, exp) => match kind {
            PropKind::Assume => us_union_direct(
                s,
                UsageCategory::Assumed,
                drop_labels(spec_used_memory(env, exp)),
            ),
            PropKind::Assert => us_union_direct(
                s,
                UsageCategory::Asserted,
                drop_labels(spec_used_memory(env, exp)),
            ),
            PropKind::Modifies => s,
        },
        _ => s,
    }
}

/// The memory-usage analysis: the transfer function over one function's
/// instructions, reading callee summaries through the cache.
pub struct MemoryUsageAnalysis<'a> {
    pub cache: SummaryCache<'a>,
}

impl UsageState {
    /// Adds the memories used by the expression to a category's direct set.
    fn add_used_memory_direct(&mut self, cat: UsageCategory, env: &GlobalEnv, exp: Exp)
        requires
            old(self).inv(),
            env.wf(),
            env.exp_arena.has(exp),
        ensures
            final(self).inv(),
            final(self)@ == us_union_direct(
                old(self)@,
                cat,
                drop_labels(spec_used_memory(*env, exp)),
            ),
    {
        let um = env.used_memory(exp);
        let ghost umv = um@;
        let n = um.len();
        let mut i: usize = 0;
        while i < n
            invariant
                i <= n,
                n == umv.len(),
                um@ == umv,
                self.inv(),
                self@ == us_union_direct(old(self)@, cat, firsts_prefix(umv, i as int)),
            decreases n - i,
        {
            let q = um[i].0.clone();
            self.add_direct(cat, q);
            proof {
                assert(firsts_prefix(umv, i + 1) =~= firsts_prefix(umv, i as int).insert(
                    umv[i as int].0@,
                ));
                assert(self@ =~= us_union_direct(old(self)@, cat, firsts_prefix(umv, i + 1)));
            }
            i += 1;
        }
        proof {
            let all = crate::memory::pairs_set(umv);
            assert forall|q: QualifiedInstIdV| firsts_prefix(umv, n as int).contains(q)
                implies drop_labels(all).contains(q) by {
                let k = choose|k: int| 0 <= k < n && (#[trigger] umv[k]).0@ == q;
                assert(crate::memory::pairs_view(umv)[k] == (q, umv[k].1));
                assert(crate::memory::pairs_view(umv).contains((q, umv[k].1)));
                assert(all.contains((q, umv[k].1)));
            }
            assert forall|q: QualifiedInstIdV| drop_labels(all).contains(q) implies firsts_prefix(
                umv,
                n as int,
            ).contains(q) by {
                let l = choose|l: Option<MemoryLabel>| all.contains((q, l));
                let k = choose|k: int|
                    0 <= k < crate::memory::pairs_view(umv).len() && crate::memory::pairs_view(
                        umv,
                    )[k] == (q, l);
                assert(umv[k].0@ == q);
            }
            assert(firsts_prefix(umv, n as int) =~= drop_labels(all));
            assert(self@ =~= us_union_direct(
                old(self)@,
                cat,
                drop_labels(spec_used_memory(*env, exp)),
            ));
        }
    }
}

/// The set of the first components of a pair vector's prefix.
pub open spec fn firsts_prefix(
    v: Seq<(QualifiedInstId, Option<MemoryLabel>)>,
    n: int,
) -> Set<QualifiedInstIdV> {
    Set::new(
        |q: QualifiedInstIdV| exists|k: int| 0 <= k < n && k < v.len() && (#[trigger] v[k]).0@ == q,
    )
}

impl<'a> TransferFunctions for MemoryUsageAnalysis<'a> {
    type State = UsageState;

    open spec fn applicable(&self, instr: &Bytecode) -> bool {
        &&& self.cache.env.wf()
        &&& self.cache.targets.inv()
        &&& usage_instr_ok(*self.cache.env, *instr)
    }

    open spec fn spec_backward(&self) -> bool {
        false
    }

    open spec fn spec_execute(&self, s: UsageStateV, instr: Bytecode) -> UsageStateV {
        usage_transfer(*self.cache.env, self.cache.targets.targets@, s, instr)
    }

    fn backward(&self) -> (r: bool) {
        false
    }

    /// One instruction's effect on the usage state: a callee's summary is
    /// folded in, as direct effects when invariant checking is delegated to
    /// the callee and as transitive effects otherwise; a move-to, move-from
    /// or borrow-global counts as a direct write; a write-back to a
    /// global-memory root counts as a direct write; an existence test or
    /// global read counts as a direct access; an assumption or assertion
    /// contributes the memory its expression uses to the assumed or
    /// asserted set.
    fn execute(&self, state: &mut UsageState, instr: &Bytecode, offset: crate::ids::CodeOffset)
        ensures
            final(state)@ == usage_transfer(
                *self.cache.env,
                self.cache.targets.targets@,
                old(state)@,
                *instr,
            ),
    {
        match instr {
            Bytecode::Call(_, _, oper, _) => match oper {
                BytecodeOperation::Function(mid, fid, inst)
                    | BytecodeOperation::OpaqueCallBegin(mid, fid, inst)
                    | BytecodeOperation::OpaqueCallEnd(mid, fid, inst) => {
                    let callee = QualifiedId { module_id: *mid, id: *fid };
                    match self.cache.get(callee, FunctionVariant::Baseline) {
                        Option::Some(summary) => {
                            let callee_env = self.cache.global_env();
                            if callee_env.is_invariant_checking_delegated(*mid, *fid) {
                                state.subsume_callee_as_direct(summary, inst);
                            } else {
                                state.subsume_callee_as_transitive(summary, inst);
                            }
                        },
                        Option::None => {},
                    }
                },
                BytecodeOperation::MoveTo(mid, sid, inst)
                    | BytecodeOperation::MoveFrom(mid, sid, inst)
                    | BytecodeOperation::BorrowGlobal(mid, sid, inst) => {
                    let mem = mid.qualified_inst(*sid, clone_type_vec(inst));
                    state.add_direct(UsageCategory::Modified, mem);
                },
                BytecodeOperation::WriteBack(node) => match node {
                    BorrowNode::GlobalRoot(mem) => {
                        state.add_direct(UsageCategory::Modified, mem.clone());
                    },
                    _ => {},
                },
                BytecodeOperation::Exists(mid, sid, inst)
                    | BytecodeOperation::GetGlobal(mid, sid, inst) => {
                    let mem = mid.qualified_inst(*sid, clone_type_vec(inst));
                    state.add_direct(UsageCategory::Accessed, mem);
                },
                BytecodeOperation::Other => {},
            },
            Bytecode::Prop(_, kind, exp) => match kind {
                PropKind::Assume => {
                    state.add_used_memory_direct(
                        UsageCategory::Assumed,
                        self.cache.global_env(),
                        *exp,
                    );
                },
                PropKind::Assert => {
                    state.add_used_memory_direct(
                        UsageCategory::Asserted,
                        self.cache.global_env(),
                        *exp,
                    );
                },
                PropKind::Modifies => {
                    proof {
                        assert(false);
                    }
                },
            },
            _ => {},
        }
    }
}

impl<'a> CompositionalAnalysis<UsageState> for MemoryUsageAnalysis<'a> {
    /// The final state is the summary as it stands.
    fn to_summary(&self, state: UsageState) -> (r: UsageState)
        ensures
            r@ == state@,
    {
        state
    }
}

/// Clones a type vector.
fn clone_type_vec(ts: &Vec<Type>) -> (r: Vec<Type>)
    ensures
        view_types(r@) == view_types(ts@),
{
    let mut r: Vec<Type> = Vec::new();
    let mut i: usize = 0;
    while i < ts.len()
        invariant
            i <= ts@.len(),
            r@.len() == i,
            forall|k: int| 0 <= k < i ==> r@[k]@ == ts@[k]@,
        decreases ts@.len() - i,
    {
        r.push(ts[i].clone());
        i += 1;
    }
    proof {
        crate::ty::lemma_view_types_eq(r@, ts@);
    }
    r
}


// =========================================================================
// Declared-specification usage

/// What the analysis assumes of one declared condition: its expressions are
/// in the model, and an update condition carries its target expression.
pub open spec fn wf_condition(env: GlobalEnv, cond: Condition) -> bool {
    &&& env.exp_arena.has(cond.exp)
    &&& forall|k: int|
        0 <= k < cond.additional_exps@.len() ==> env.exp_arena.has(
            #[trigger] cond.additional_exps@[k],
        )
    &&& (cond.kind matches ConditionKind::Update ==> cond.additional_exps@.len() >= 1)
}

/// Every condition of the specification is well formed.
pub open spec fn wf_fun_spec(env: GlobalEnv, sp: Spec) -> bool {
    forall|i: int| 0 <= i < sp.conditions@.len() ==> wf_condition(env, #[trigger] sp.conditions@[i])
}

/// Whether a condition kind contributes to the asserted memory: what the
/// function promises (postconditions, abort conditions, emitted events), as
/// opposed to what it may assume.
pub open spec fn kind_is_asserted(kind: ConditionKind) -> bool {
    kind matches ConditionKind::Ensures || kind matches ConditionKind::AbortsIf || kind matches
        ConditionKind::Emits
}

/// The memories used by a list of expressions, labels dropped.
pub open spec fn used_mems_exps(env: GlobalEnv, es: Seq<Exp>) -> Set<QualifiedInstIdV>
    decreases es,
{
    if es.len() == 0 {
        Set::empty()
    } else {
        used_mems_exps(env, es.drop_last()).union(
            drop_labels(spec_used_memory(env, es.last())),
        )
    }
}

/// The effect of one declared condition on the usage state: its memories go
/// to the asserted or assumed direct set by kind, and an update condition
/// additionally marks its ghost target as directly modified.
pub open spec fn spec_cond_usage(env: GlobalEnv, s: UsageStateV, cond: Condition) -> UsageStateV {
    let mems = used_mems_exps(env, seq![cond.exp] + cond.additional_exps@);
    let cat = if kind_is_asserted(cond.kind) {
        UsageCategory::Asserted
    } else {
        UsageCategory::Assumed
    };
    let s1 = us_union_direct(s, cat, mems);
    if (cond.kind matches ConditionKind::Update) {
        match spec_extract_ghost_mem_access(env, cond.additional_exps@[0]) {
            Option::Some(t) => us_add_direct(s1, UsageCategory::Modified, t.0),
            Option::None => s1,
        }
    } else {
        s1
    }
}

/// The effect of a condition list, in order.
pub open spec fn spec_conds_usage(env: GlobalEnv, conds: Seq<Condition>, s: UsageStateV) -> UsageStateV
    decreases conds,
{
    if conds.len() == 0 {
        s
    } else {
        spec_cond_usage(env, spec_conds_usage(env, conds.drop_last(), s), conds.last())
    }
}


/// Adding a set to a category's direct part only grows the state.
pub proof fn lemma_union_direct_grows(s: UsageStateV, cat: UsageCategory, xs: Set<QualifiedInstIdV>)
    ensures
        us_leq(s, us_union_direct(s, cat, xs)),
{
    match cat {
        UsageCategory::Accessed => {},
        UsageCategory::Modified => {},
        UsageCategory::Assumed => {},
        UsageCategory::Asserted => {},
    }
}

/// Adding one memory to a category's direct part only grows the state.
pub proof fn lemma_add_direct_grows(s: UsageStateV, cat: UsageCategory, m: QualifiedInstIdV)
    ensures
        us_leq(s, us_add_direct(s, cat, m)),
{
    match cat {
        UsageCategory::Accessed => {},
        UsageCategory::Modified => {},
        UsageCategory::Assumed => {},
        UsageCategory::Asserted => {},
    }
}

/// `us_leq` is transitive.
pub proof fn lemma_us_leq_trans(a: UsageStateV, b: UsageStateV, c: UsageStateV)
    requires
        us_leq(a, b),
        us_leq(b, c),
    ensures
        us_leq(a, c),
{
}

/// Folding a declared condition only grows the state: the summary owes the
/// condition's contribution on top of whatever it started from.
pub proof fn lemma_cond_usage_grows(env: GlobalEnv, s: UsageStateV, cond: Condition)
    ensures
        us_leq(s, spec_cond_usage(env, s, cond)),
{
    let mems = used_mems_exps(env, seq![cond.exp] + cond.additional_exps@);
    let cat = if kind_is_asserted(cond.kind) {
        UsageCategory::Asserted
    } else {
        UsageCategory::Assumed
    };
    let s1 = us_union_direct(s, cat, mems);
    lemma_union_direct_grows(s, cat, mems);
    if (cond.kind matches ConditionKind::Update) {
        match spec_extract_ghost_mem_access(env, cond.additional_exps@[0]) {
            Option::Some(t) => {
                lemma_add_direct_grows(s1, UsageCategory::Modified, t.0);
                lemma_us_leq_trans(s, s1, us_add_direct(s1, UsageCategory::Modified, t.0));
            },
            Option::None => {},
        }
    }
}

/// Folding the declared conditions only grows the state: whatever bytecode
/// fixed point the fold starts from is contained in the published summary.
pub proof fn lemma_conds_usage_grows(env: GlobalEnv, conds: Seq<Condition>, s: UsageStateV)
    ensures
        us_leq(s, spec_conds_usage(env, conds, s)),
    decreases conds,
{
    if conds.len() == 0 {
    } else {
        lemma_conds_usage_grows(env, conds.drop_last(), s);
        lemma_cond_usage_grows(env, spec_conds_usage(env, conds.drop_last(), s), conds.last());
        lemma_us_leq_trans(
            s,
            spec_conds_usage(env, conds.drop_last(), s),
            spec_conds_usage(env, conds, s),
        );
    }
}

/// Adding two direct sets in turn is adding their union.
proof fn lemma_union_direct_chain(
    s: UsageStateV,
    cat: UsageCategory,
    a: Set<QualifiedInstIdV>,
    b: Set<QualifiedInstIdV>,
)
    ensures
        us_union_direct(us_union_direct(s, cat, a), cat, b) == us_union_direct(s, cat, a.union(b)),
{
    assert(us_union_direct(us_union_direct(s, cat, a), cat, b) =~~= us_union_direct(
        s,
        cat,
        a.union(b),
    ));
}

/// Computes usage information for a declared specification. The spec is
/// injected into the code by later phases, but its memory usage must be
/// accounted for already here, since spec injection itself depends on this
/// information: postcondition-like conditions contribute to the asserted
/// direct memory, all others to the assumed direct memory, and an update
/// condition marks its ghost-memory target as directly modified.
pub fn compute_spec_usage(env: &GlobalEnv, sp: &Spec, state: &mut UsageState)
    requires
        env.wf(),
        env.wf_struct_types(),
        wf_fun_spec(*env, *sp),
        old(state).inv(),
    ensures
        final(state).inv(),
        final(state)@ == spec_conds_usage(*env, sp.conditions@, old(state)@),
{
    let n = sp.conditions.len();
    let mut i: usize = 0;
    while i < n
        invariant
            i <= n,
            n == sp.conditions@.len(),
            env.wf(),
            env.wf_struct_types(),
            wf_fun_spec(*env, *sp),
            state.inv(),
            state@ == spec_conds_usage(*env, sp.conditions@.subrange(0, i as int), old(state)@),
        decreases n - i,
    {
        proof {
            assert(sp.conditions@.subrange(0, i + 1).drop_last() =~= sp.conditions@.subrange(
                0,
                i as int,
            ));
            assert(sp.conditions@.subrange(0, i + 1).last() == sp.conditions@[i as int]);
            assert(wf_condition(*env, sp.conditions@[i as int]));
        }
        let cond = &sp.conditions[i];
        let ghost s_start = state@;
        let cat = if kind_is_asserted_exec(&cond.kind) {
            UsageCategory::Asserted
        } else {
            UsageCategory::Assumed
        };
        state.add_used_memory_direct(cat, env, cond.exp);
        let ghost e0 = seq![cond.exp];
        proof {
            assert(e0.drop_last() =~= Seq::<Exp>::empty());
            assert(used_mems_exps(*env, Seq::<Exp>::empty()) =~= Set::<QualifiedInstIdV>::empty());
            assert(used_mems_exps(*env, e0) =~= drop_labels(spec_used_memory(*env, cond.exp)));
            lemma_union_direct_chain(
                s_start,
                cat,
                Set::empty(),
                drop_labels(spec_used_memory(*env, cond.exp)),
            );
            assert(us_union_direct(s_start, cat, Set::<QualifiedInstIdV>::empty().union(
                drop_labels(spec_used_memory(*env, cond.exp)),
            )) =~~= us_union_direct(s_start, cat, used_mems_exps(*env, e0)));
            assert(state@ == us_union_direct(s_start, cat, used_mems_exps(*env, e0)));
        }
        let m = cond.additional_exps.len();
        let mut j: usize = 0;
        while j < m
            invariant
                j <= m,
                m == cond.additional_exps@.len(),
                env.wf(),
                wf_condition(*env, *cond),
                state.inv(),
                e0 == seq![cond.exp],
                state@ == us_union_direct(
                    s_start,
                    cat,
                    used_mems_exps(*env, e0 + cond.additional_exps@.subrange(0, j as int)),
                ),
            decreases m - j,
        {
            proof {
                assert((e0 + cond.additional_exps@.subrange(0, j + 1)).drop_last() =~= e0
                    + cond.additional_exps@.subrange(0, j as int));
                assert((e0 + cond.additional_exps@.subrange(0, j + 1)).last()
                    == cond.additional_exps@[j as int]);
            }
            let e = cond.additional_exps[j];
            let ghost before = state@;
            state.add_used_memory_direct(cat, env, e);
            proof {
                lemma_union_direct_chain(
                    s_start,
                    cat,
                    used_mems_exps(*env, e0 + cond.additional_exps@.subrange(0, j as int)),
                    drop_labels(spec_used_memory(*env, e)),
                );
                assert(state@ == us_union_direct(
                    s_start,
                    cat,
                    used_mems_exps(*env, e0 + cond.additional_exps@.subrange(0, j + 1)),
                ));
            }
            j += 1;
        }
        proof {
            assert(cond.additional_exps@.subrange(0, m as int) =~= cond.additional_exps@);
            assert(e0 + cond.additional_exps@ =~= seq![cond.exp] + cond.additional_exps@);
        }
        let is_update = match &cond.kind {
            ConditionKind::Update => true,
            _ => false,
        };
        if is_update {
            match env.extract_ghost_mem_access(cond.additional_exps[0]) {
                Option::Some(t) => {
                    let (mem, _field, _addr) = t;
                    state.add_direct(UsageCategory::Modified, mem);
                },
                Option::None => {},
            }
        }
        proof {
            assert(state@ == spec_cond_usage(
                *env,
                spec_conds_usage(*env, sp.conditions@.subrange(0, i as int), old(state)@),
                sp.conditions@[i as int],
            ));
            assert(state@ == spec_conds_usage(
                *env,
                sp.conditions@.subrange(0, i + 1),
                old(state)@,
            ));
        }
        i += 1;
    }
    proof {
        assert(sp.conditions@.subrange(0, n as int) =~= sp.conditions@);
    }
}

/// Decides `kind_is_asserted`.
fn kind_is_asserted_exec(kind: &ConditionKind) -> (r: bool)
    ensures
        r == kind_is_asserted(*kind),
{
    match kind {
        ConditionKind::Ensures | ConditionKind::AbortsIf | ConditionKind::Emits => true,
        _ => false,
    }
}

// =========================================================================
// The processor


// =========================================================================
// The summary characterization

/// The value reached by running the usage transfer forward over
/// `code[lower..upper)` from `s`.
pub open spec fn usage_block_exec(
    env: GlobalEnv,
    ts: Seq<FunctionData>,
    code: Seq<Bytecode>,
    lower: int,
    upper: int,
    s: UsageStateV,
) -> UsageStateV
    decreases upper - lower,
{
    if lower >= upper {
        s
    } else {
        usage_block_exec(env, ts, code, lower + 1, upper, usage_transfer(env, ts, s, code[lower]))
    }
}

/// The engine's block execution for the usage analysis is `usage_block_exec`.
proof fn lemma_usage_block_exec_eq<'a>(
    xf: &MemoryUsageAnalysis<'a>,
    code: Seq<Bytecode>,
    lower: int,
    upper: int,
    s: UsageStateV,
)
    ensures
        spec_block_exec(xf, code, lower, upper, s) == usage_block_exec(
            *xf.cache.env,
            xf.cache.targets.targets@,
            code,
            lower,
            upper,
            s,
        ),
    decreases upper - lower,
{
    if lower < upper {
        lemma_usage_block_exec_eq(
            xf,
            code,
            lower + 1,
            upper,
            usage_transfer(*xf.cache.env, xf.cache.targets.targets@, s, code[lower]),
        );
    }
}

/// One block of a converged usage run: its exit is the usage transfer run
/// over its instructions from its entry, the exit is covered by `fp`, and
/// the exit flows into every successor's entry.
pub open spec fn usage_block_done(
    env: GlobalEnv,
    ts: Seq<FunctionData>,
    code: Seq<Bytecode>,
    cfg: &ControlFlowGraph,
    ss: Seq<Option<UsageState>>,
    exits: Seq<Option<UsageState>>,
    fp: UsageState,
    b: int,
) -> bool {
    match (ss[b], exits[b]) {
        (Option::Some(en), Option::Some(ex)) => {
            &&& en.inv()
            &&& ex.inv()
            &&& ex@ == usage_block_exec(
                env,
                ts,
                code,
                cfg.blocks@[b].lower as int,
                cfg.blocks@[b].upper as int,
                en@,
            )
            &&& us_leq(ex@, fp@)
            &&& forall|k: int|
                0 <= k < cfg.blocks@[b].successors@.len()
                    ==> match ss[#[trigger] cfg.blocks@[b].successors@[k] as int] {
                    Option::Some(sn) => us_leq(ex@, sn@),
                    Option::None => false,
                }
        },
        (Option::None, Option::None) => true,
        _ => false,
    }
}

/// A converged run of the usage analysis over one function: a per-block
/// state assignment, seeded at the entry, that is a post-fixed point of the
/// usage transfer over the graph, with every reached block's exit covered
/// by `fp`.
pub open spec fn usage_converged_run(
    env: GlobalEnv,
    ts: Seq<FunctionData>,
    code: Seq<Bytecode>,
    cfg: &ControlFlowGraph,
    fp: UsageState,
    ss: Seq<Option<UsageState>>,
    exits: Seq<Option<UsageState>>,
) -> bool {
    &&& ss.len() == cfg.blocks@.len()
    &&& exits.len() == ss.len()
    &&& ss[cfg.entry as int] is Some
    &&& forall|b: int| 0 <= b < ss.len() ==> usage_block_done(env, ts, code, cfg, ss, exits, fp, b)
}

/// What a published usage summary is: the declared-specification usage
/// folded, once, over a bytecode fixed point `fp`; when the engine
/// converged, `fp` covers a converged run of the usage transfer over the
/// function's graph, reading callee summaries from `ts`.
pub open spec fn is_usage_summary(
    env: GlobalEnv,
    ts: Seq<FunctionData>,
    code: Seq<Bytecode>,
    cfg: &ControlFlowGraph,
    conds: Seq<Condition>,
    r: UsageState,
    converged: bool,
) -> bool {
    exists|fp: UsageState|
        {
            &&& #[trigger] fp.inv()
            &&& (converged ==> exists|ss: Seq<Option<UsageState>>, exits: Seq<Option<UsageState>>|
                usage_converged_run(env, ts, code, cfg, fp, ss, exits))
            &&& r@ == spec_conds_usage(env, conds, fp@)
        }
}

/// What a target must satisfy before the usage analysis can run on it.
pub open spec fn target_ready(env: GlobalEnv, data: FunctionData) -> bool {
    &&& data.inv()
    &&& env.has_fun(data.fun_id.module_id, data.fun_id.id)
    &&& wf_fun_spec(
        env,
        env.modules@[data.fun_id.module_id.0 as int].functions@[data.fun_id.id.0 as int].spec,
    )
    &&& forall|i: int|
        0 <= i < data.code@.len() ==> usage_instr_ok(env, #[trigger] data.code@[i])
}

/// Runs the dataflow engine over one target and folds in its declared
/// specification, producing the candidate usage summary and whether the
/// engine converged.
pub fn summarize_usage(
    targets: &FunctionTargetsHolder,
    env: &GlobalEnv,
    data: &FunctionData,
    fuel: usize,
) -> (r: (UsageState, bool))
    requires
        targets.inv(),
        env.wf(),
        env.wf_struct_types(),
        target_ready(*env, *data),
    ensures
        r.0.inv(),
        is_usage_summary(
            *env,
            targets.targets@,
            data.code@,
            &data.cfg,
            env.modules@[data.fun_id.module_id.0 as int].functions@[data.fun_id.id.0 as int].spec.conditions@,
            r.0,
            r.1,
        ),
{
    let cache = SummaryCache::new(targets, env);
    let analysis = MemoryUsageAnalysis { cache };
    proof {
        assert forall|i: int| 0 <= i < data.code@.len() implies analysis.applicable(
            #[trigger] &data.code@[i],
        ) by {
            assert(usage_instr_ok(*env, data.code@[i]));
        }
    }
    let initial = UsageState::new();
    let ghost init_g = initial;
    let (state, converged) = analyze_function(&analysis, initial, &data.code, &data.cfg, fuel);
    let mut summary = analysis.to_summary(state);
    let ghost fp = summary;
    let module = env.get_module(data.fun_id.module_id);
    let fdecl = module.get_function(data.fun_id.id);
    compute_spec_usage(env, &fdecl.spec, &mut summary);
    proof {
        assert(fp.inv());
        if converged {
            let (ss, exits) = choose|ss: Seq<Option<UsageState>>, exits: Seq<Option<UsageState>>|
                converged_run(&analysis, data.code@, &data.cfg, init_g, state, ss, exits);
            assert forall|b: int| 0 <= b < ss.len() implies usage_block_done(
                *env,
                targets.targets@,
                data.code@,
                &data.cfg,
                ss,
                exits,
                fp,
                b,
            ) by {
                assert(crate::dataflow::block_done(
                    &analysis,
                    data.code@,
                    &data.cfg,
                    ss,
                    exits,
                    state,
                    b,
                ));
                match (ss[b], exits[b]) {
                    (Option::Some(en), Option::Some(ex)) => {
                        lemma_usage_block_exec_eq(
                            &analysis,
                            data.code@,
                            data.cfg.blocks@[b].lower as int,
                            data.cfg.blocks@[b].upper as int,
                            en@,
                        );
                    },
                    _ => {},
                }
            }
            assert(usage_converged_run(
                *env,
                targets.targets@,
                data.code@,
                &data.cfg,
                fp,
                ss,
                exits,
            ));
        }
        assert(summary@ == spec_conds_usage(
            *env,
            env.modules@[data.fun_id.module_id.0 as int].functions@[data.fun_id.id.0 as int].spec.conditions@,
            fp@,
        ));
        assert(is_usage_summary(
            *env,
            targets.targets@,
            data.code@,
            &data.cfg,
            env.modules@[data.fun_id.module_id.0 as int].functions@[data.fun_id.id.0 as int].spec.conditions@,
            summary,
            converged,
        ));
    }
    (summary, converged)
}

/// The processor of the usage analysis: analyzes one function target and
/// publishes its summary as the target's annotation.
#[derive(Debug)]
pub struct UsageProcessor();

impl UsageProcessor {
    pub fn new() -> (r: Box<UsageProcessor>)
    {
        Box::new(UsageProcessor())
    }

    /// Analyzes one target with its callees' summaries available through
    /// the holder, and hands it back with its summary set, along with
    /// whether the per-function dataflow converged. The stored annotation
    /// is the declared-specification usage folded over the engine's result.
    pub fn process(
        &self,
        targets: &FunctionTargetsHolder,
        env: &GlobalEnv,
        data: FunctionData,
        fuel: usize,
    ) -> (r: (FunctionData, bool))
        requires
            targets.inv(),
            env.wf(),
            env.wf_struct_types(),
            target_ready(*env, data),
        ensures
            r.0.inv(),
            r.0.fun_id == data.fun_id,
            r.0.variant == data.variant,
            r.0.code == data.code,
            r.0.cfg == data.cfg,
            match r.0.annotation {
                Option::Some(s) => s.inv() && is_usage_summary(
                    *env,
                    targets.targets@,
                    data.code@,
                    &data.cfg,
                    env.modules@[data.fun_id.module_id.0 as int].functions@[data.fun_id.id.0 as int].spec.conditions@,
                    s,
                    r.1,
                ),
                Option::None => false,
            },
    {
        let (summary, converged) = summarize_usage(targets, env, &data, fuel);
        let FunctionData { fun_id, variant, code, cfg, annotation: _ } = data;
        (
            FunctionData { fun_id, variant, code, cfg, annotation: Option::Some(summary) },
            converged,
        )
    }

    /// The name of this processor.
    pub fn name(&self) -> (r: String)
        ensures
            r@ == "usage_analysis"@,
    {
        "usage_analysis".to_owned()
    }
}

/// The frozen usage summary of an analyzed target. Querying a target the
/// analysis has not run on is an internal invariant violation.
pub fn get_memory_usage(target: &FunctionData) -> (r: &UsageState)
    requires
        target.annotation matches Option::Some(_),
    ensures
        target.annotation matches Option::Some(s) && *r == s,
{
    match &target.annotation {
        Option::Some(s) => s,
        Option::None => {
            proof {
                assert(false);
            }
            vstd::pervasive::unreached()
        },
    }
}


/// One component member carries a published summary that absorbs a
/// re-summarization against the holder: some candidate summary of its code,
/// as `is_usage_summary` characterizes it, is below the stored annotation.
pub open spec fn member_summarized(env: GlobalEnv, ts: Seq<FunctionData>, idx: int) -> bool {
    match ts[idx].annotation {
        Option::Some(a) => exists|s: UsageState, conv: bool|
            {
                &&& #[trigger] is_usage_summary(
                    env,
                    ts,
                    ts[idx].code@,
                    &ts[idx].cfg,
                    env.modules@[ts[idx].fun_id.module_id.0 as int].functions@[ts[idx].fun_id.id.0 as int].spec.conditions@,
                    s,
                    conv,
                )
                &&& s.leq(&a)
            },
        Option::None => false,
    }
}

/// Analyzes the members of one strongly connected call-graph component,
/// re-summarizing every member until no member's summary changes across a
/// full round, for at most `rounds` rounds. Reports whether the component
/// converged. Acyclic parts of the call graph are the one-member case,
/// which converges in one extra round.
pub fn analyze_component(
    env: &GlobalEnv,
    holder: &mut FunctionTargetsHolder,
    members: &Vec<usize>,
    rounds: usize,
    fuel: usize,
) -> (converged: bool)
    requires
        old(holder).inv(),
        env.wf(),
        env.wf_struct_types(),
        forall|k: int|
            0 <= k < members@.len() ==> (#[trigger] members@[k]) < old(holder).targets@.len(),
        forall|k: int|
            0 <= k < members@.len() ==> target_ready(
                *env,
                old(holder).targets@[(#[trigger] members@[k]) as int],
            ),
    ensures
        final(holder).inv(),
        final(holder).targets@.len() == old(holder).targets@.len(),
        forall|t: int|
            0 <= t < old(holder).targets@.len() ==> {
                &&& (#[trigger] final(holder).targets@[t]).fun_id == old(holder).targets@[t].fun_id
                &&& final(holder).targets@[t].variant == old(holder).targets@[t].variant
                &&& final(holder).targets@[t].code == old(holder).targets@[t].code
                &&& final(holder).targets@[t].cfg == old(holder).targets@[t].cfg
            },
        converged ==> forall|k: int|
            0 <= k < members@.len() ==> member_summarized(
                *env,
                final(holder).targets@,
                (#[trigger] members@[k]) as int,
            ),
{
    let mut round: usize = 0;
    let mut converged = false;
    while round < rounds && !converged
        invariant
            holder.inv(),
            env.wf(),
            env.wf_struct_types(),
            holder.targets@.len() == old(holder).targets@.len(),
            forall|t: int|
                0 <= t < old(holder).targets@.len() ==> {
                    &&& (#[trigger] holder.targets@[t]).fun_id == old(holder).targets@[t].fun_id
                    &&& holder.targets@[t].variant == old(holder).targets@[t].variant
                    &&& holder.targets@[t].code == old(holder).targets@[t].code
                    &&& holder.targets@[t].cfg == old(holder).targets@[t].cfg
                },
            forall|k: int|
                0 <= k < members@.len() ==> (#[trigger] members@[k]) < holder.targets@.len(),
            forall|k: int|
                0 <= k < members@.len() ==> target_ready(
                    *env,
                    holder.targets@[(#[trigger] members@[k]) as int],
                ),
            converged ==> forall|k: int|
                0 <= k < members@.len() ==> member_summarized(
                    *env,
                    holder.targets@,
                    (#[trigger] members@[k]) as int,
                ),
        decreases rounds - round,
    {
        let ghost rsnap = holder.targets@;
        let mut changed = false;
        let mut k: usize = 0;
        while k < members.len()
            invariant
                holder.inv(),
                env.wf(),
                env.wf_struct_types(),
                k <= members@.len(),
                holder.targets@.len() == old(holder).targets@.len(),
                forall|t: int|
                    0 <= t < old(holder).targets@.len() ==> {
                        &&& (#[trigger] holder.targets@[t]).fun_id
                            == old(holder).targets@[t].fun_id
                        &&& holder.targets@[t].variant == old(holder).targets@[t].variant
                        &&& holder.targets@[t].code == old(holder).targets@[t].code
                        &&& holder.targets@[t].cfg == old(holder).targets@[t].cfg
                    },
                forall|k2: int|
                    0 <= k2 < members@.len() ==> (#[trigger] members@[k2])
                        < holder.targets@.len(),
                forall|k2: int|
                    0 <= k2 < members@.len() ==> target_ready(
                        *env,
                        holder.targets@[(#[trigger] members@[k2]) as int],
                    ),
                rsnap.len() == holder.targets@.len(),
                !changed ==> holder.targets@ == rsnap,
                !changed ==> forall|kp: int|
                    0 <= kp < k ==> member_summarized(
                        *env,
                        rsnap,
                        (#[trigger] members@[kp]) as int,
                    ),
            decreases members@.len() - k,
        {
            let idx = members[k];
            let (summary, sum_conv) = summarize_usage(&*holder, env, &holder.targets[idx], fuel);
            let ghost sum_g = summary;
            let ghost pre = holder.targets@;
            let slot = &mut holder.targets[idx];
            let mut had_summary = false;
            match &slot.annotation {
                Option::Some(_) => {
                    had_summary = true;
                },
                Option::None => {},
            }
            if had_summary {
                match &mut slot.annotation {
                    Option::Some(st) => {
                        let jr = st.join(&summary);
                        if jr == JoinResult::Changed {
                            changed = true;
                        }
                    },
                    Option::None => {},
                }
            } else {
                slot.annotation = Option::Some(summary);
                changed = true;
            }
            proof {
                assert(holder.targets@[idx as int].fun_id == pre[idx as int].fun_id);
                assert forall|i: int, j: int|
                    0 <= i < j < holder.targets@.len() implies !((
                    #[trigger] holder.targets@[i]).fun_id == (
                    #[trigger] holder.targets@[j]).fun_id && holder.targets@[i].variant
                    == holder.targets@[j].variant) by {
                    assert(pre[i].fun_id == holder.targets@[i].fun_id);
                    assert(pre[j].fun_id == holder.targets@[j].fun_id);
                }
                if !changed {
                    assert(pre == rsnap);
                    assert(holder.targets@ =~= rsnap);
                    assert(member_summarized(*env, rsnap, idx as int)) by {
                        match rsnap[idx as int].annotation {
                            Option::Some(a) => {
                                assert(sum_g.leq(&a));
                                assert(is_usage_summary(
                                    *env,
                                    rsnap,
                                    rsnap[idx as int].code@,
                                    &rsnap[idx as int].cfg,
                                    env.modules@[rsnap[idx as int].fun_id.module_id.0 as int].functions@[rsnap[idx as int].fun_id.id.0 as int].spec.conditions@,
                                    sum_g,
                                    sum_conv,
                                ));
                            },
                            Option::None => {
                                assert(false);
                            },
                        }
                    }
                }
            }
            k += 1;
        }
        if !changed {
            converged = true;
            proof {
                assert forall|k2: int| 0 <= k2 < members@.len() implies member_summarized(
                    *env,
                    holder.targets@,
                    (#[trigger] members@[k2]) as int,
                ) by {
                    assert(member_summarized(*env, rsnap, members@[k2] as int));
                }
            }
        }
        round += 1;
    }
    converged
}

} // verus!
