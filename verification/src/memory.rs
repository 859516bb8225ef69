//! Memory-related analyses over expressions: which global memories an
//! expression reads (`used_memory`), and whether it is pure (`is_pure`).

use vstd::prelude::*;
use crate::ast::{children_bounded, Exp, ExpData, Operation};
use crate::ids::{MemoryLabel, ModuleId, SpecFunId};
use crate::model::GlobalEnv;
use crate::traversal::{lemma_children_bounded, seq_bounded, spec_children};
use crate::ty::{
    spec_instantiate_qid, view_types, QualifiedInstId, QualifiedInstIdV, Type, TypeV,
};

verus! {

/// A memory reference paired with its optional historical label.
pub type MemPair = (QualifiedInstIdV, Option<MemoryLabel>);

/// The struct reference denoted by a struct type.
pub open spec fn struct_qid(t: TypeV) -> QualifiedInstIdV {
    match t {
        TypeV::Struct(mid, sid, ts) => QualifiedInstIdV { module_id: mid, inst: ts, id: sid },
        _ => QualifiedInstIdV {
            module_id: crate::ids::ModuleId(0),
            inst: Seq::empty(),
            id: crate::ids::StructId(0),
        },
    }
}

/// The memory contributed by a call to a specification function: each entry
/// of the callee's used-memory list, instantiated with the call's type
/// instantiation and paired with the call's label for it, if any.
pub open spec fn fun_pairs(
    mems: Seq<QualifiedInstId>,
    labels: Option<Vec<MemoryLabel>>,
    inst: Seq<TypeV>,
) -> Seq<MemPair> {
    Seq::new(
        mems.len(),
        |i: int|
            (
                spec_instantiate_qid(mems[i]@, inst),
                match labels {
                    Option::Some(ls) => Option::Some(ls@[i]),
                    Option::None => Option::None,
                },
            ),
    )
}

/// The memory directly referenced by one node: a memory operation refers to
/// the struct at the head of its instantiation; a specification-function
/// call refers to the callee's declared used memory, instantiated.
pub open spec fn node_used_memory(env: GlobalEnv, d: ExpData) -> Set<MemPair> {
    match d {
        ExpData::Call(id, oper, _) => match oper {
            Operation::Exists(label) | Operation::Global(label) => Set::empty().insert(
                (struct_qid(env.spec_node_inst(id)[0]), label),
            ),
            Operation::Function(mid, fid, labels) => Set::new(
                |p: MemPair|
                    fun_pairs(
                        env.spec_fun_of(mid, fid).used_memory@,
                        labels,
                        env.spec_node_inst(id),
                    ).contains(p),
            ),
            _ => Set::empty(),
        },
        _ => Set::empty(),
    }
}

/// The memory referenced anywhere in the tree at `e`.
pub open spec fn spec_used_memory(env: GlobalEnv, e: Exp) -> Set<MemPair>
    decreases e.0, 1int, 0int,
{
    let nodes = env.exp_arena.nodes@;
    if e.0 < nodes.len() && children_bounded(nodes[e.0 as int], e.0 as int) {
        node_used_memory(env, nodes[e.0 as int]).union(
            spec_used_memory_list(env, spec_children(nodes[e.0 as int]), e.0 as int),
        )
    } else {
        Set::empty()
    }
}

/// The memory referenced by a list of sibling trees, all below `bound`.
pub open spec fn spec_used_memory_list(env: GlobalEnv, es: Seq<Exp>, bound: int) -> Set<MemPair>
    decreases bound, 0int, es.len(),
{
    if es.len() == 0 {
        Set::empty()
    } else if es[0].0 < bound {
        spec_used_memory(env, es[0]).union(spec_used_memory_list(env, es.drop_first(), bound))
    } else {
        Set::empty()
    }
}

/// The contents of a collected pair vector.
pub open spec fn pairs_view(v: Seq<(QualifiedInstId, Option<MemoryLabel>)>) -> Seq<MemPair> {
    v.map_values(|p: (QualifiedInstId, Option<MemoryLabel>)| (p.0@, p.1))
}

/// The set of a collected pair vector.
pub open spec fn pairs_set(v: Seq<(QualifiedInstId, Option<MemoryLabel>)>) -> Set<MemPair> {
    Set::new(|p: MemPair| pairs_view(v).contains(p))
}

/// No two collected pairs are equal.
pub open spec fn pairs_dedup(v: Seq<(QualifiedInstId, Option<MemoryLabel>)>) -> bool {
    forall|i: int, j: int|
        0 <= i < j < pairs_view(v).len() ==> pairs_view(v)[i] != pairs_view(v)[j]
}

/// Inserts a pair unless an equal one is present.
fn insert_pair(
    out: &mut Vec<(QualifiedInstId, Option<MemoryLabel>)>,
    q: QualifiedInstId,
    label: Option<MemoryLabel>,
)
    requires
        pairs_dedup(old(out)@),
    ensures
        pairs_dedup(final(out)@),
        pairs_set(final(out)@) == pairs_set(old(out)@).insert((q@, label)),
{
    let mut k: usize = 0;
    let n = out.len();
    while k < n
        invariant
            k <= n,
            n == out@.len(),
            out@ == old(out)@,
            pairs_dedup(out@),
            forall|j: int| 0 <= j < k ==> pairs_view(out@)[j] != (q@, label),
        decreases n - k,
    {
        let same = out[k].0.qid_eq(&q) && label_eq(out[k].1, label);
        if same {
            proof {
                assert(pairs_view(out@)[k as int] == (q@, label));
                assert(pairs_view(out@).contains((q@, label)));
                assert(pairs_set(out@) =~= pairs_set(old(out)@).insert((q@, label)));
            }
            return;
        }
        k += 1;
    }
    out.push((q, label));
    proof {
        let ov = pairs_view(old(out)@);
        let nv = pairs_view(out@);
        assert(nv =~= ov.push((q@, label)));
        assert forall|p: MemPair| pairs_set(out@).contains(p) implies pairs_set(
            old(out)@,
        ).insert((q@, label)).contains(p) by {
            let j = choose|j: int| 0 <= j < nv.len() && nv[j] == p;
            if j < ov.len() {
                assert(ov[j] == p);
                assert(ov.contains(p));
            }
        }
        assert forall|p: MemPair| pairs_set(old(out)@).insert((q@, label)).contains(p)
            implies pairs_set(out@).contains(p) by {
            if p == (q@, label) {
                assert(nv[nv.len() - 1] == p);
                assert(nv.contains(p));
            } else {
                let j = choose|j: int| 0 <= j < ov.len() && ov[j] == p;
                assert(nv[j] == p);
                assert(nv.contains(p));
            }
        }
        assert(pairs_set(out@) =~= pairs_set(old(out)@).insert((q@, label)));
    }
}

/// Decides equality of optional labels.
fn label_eq(a: Option<MemoryLabel>, b: Option<MemoryLabel>) -> (r: bool)
    ensures
        r == (a == b),
{
    match (a, b) {
        (Option::None, Option::None) => true,
        (Option::Some(x), Option::Some(y)) => x == y,
        _ => false,
    }
}

impl GlobalEnv {
    /// The memories referenced by `exists`/`global` operations in the tree
    /// at `e`, or transitively via calls to specification functions, each
    /// with its historical label if one was given.
    pub fn used_memory(&self, e: Exp) -> (r: Vec<(QualifiedInstId, Option<MemoryLabel>)>)
        requires
            self.wf(),
            self.exp_arena.has(e),
        ensures
            pairs_dedup(r@),
            pairs_set(r@) == spec_used_memory(*self, e),
    {
        let mut out: Vec<(QualifiedInstId, Option<MemoryLabel>)> = Vec::new();
        self.used_memory_rec(e, &mut out);
        proof {
            assert(pairs_view(Seq::<(QualifiedInstId, Option<MemoryLabel>)>::empty()) =~= Seq::<
                MemPair,
            >::empty());
            assert(pairs_set(Seq::<(QualifiedInstId, Option<MemoryLabel>)>::empty()) =~= Set::<
                MemPair,
            >::empty());
            assert(pairs_set(out@) =~= spec_used_memory(*self, e));
        }
        out
    }

    /// Adds the memories referenced by the tree at `e` to `out`.
    fn used_memory_rec(&self, e: Exp, out: &mut Vec<(QualifiedInstId, Option<MemoryLabel>)>)
        requires
            self.wf(),
            self.exp_arena.has(e),
            pairs_dedup(old(out)@),
        ensures
            pairs_dedup(final(out)@),
            pairs_set(final(out)@) == pairs_set(old(out)@).union(spec_used_memory(*self, e)),
        decreases e.0, 1int, 0int,
    {
        let d = self.exp_arena.data_of(e);
        proof {
            lemma_children_bounded(*d, e.0 as int);
        }
        let ghost contribution = node_used_memory(*self, *d);
        match d {
            ExpData::Call(id, oper, _) => {
                match oper {
                    Operation::Exists(label) | Operation::Global(label) => {
                        proof {
                            assert(self.wf_entry(*d));
                        }
                        let inst_opt = self.get_node_instantiation_opt(*id);
                        match inst_opt {
                            Option::Some(ts) => {
                                proof {
                                    crate::ty::lemma_view_types_len(ts@);
                                    crate::ty::lemma_view_types_index(ts@, 0);
                                }
                                let (mid, sid, sinst) = ts[0].require_struct();
                                let q = mid.qualified_inst(sid, clone_types(sinst));
                                insert_pair(out, q, *label);
                                proof {
                                    assert(contribution =~= Set::<MemPair>::empty().insert(
                                        (struct_qid(self.spec_node_inst(*id)[0]), *label),
                                    ));
                                }
                            },
                            Option::None => {
                                proof {
                                    assert(self.spec_node_inst(*id).len() == 0);
                                    assert(false);
                                }
                            },
                        }
                    },
                    Operation::Function(mid, fid, labels) => {
                        proof {
                            assert(self.wf_entry(*d));
                        }
                        let ghost inst_v = self.spec_node_inst(*id);
                        let ghost mems_v = self.spec_fun_of(*mid, *fid).used_memory@;
                        let inst: Vec<Type> = match self.get_node_instantiation_opt(*id) {
                            Option::Some(ts) => clone_types(ts),
                            Option::None => Vec::new(),
                        };
                        proof {
                            assert(view_types(inst@) =~= inst_v);
                        }
                        let module = self.get_module(*mid);
                        let decl = module.get_spec_fun(*fid);
                        let n = decl.used_memory.len();
                        let mut i: usize = 0;
                        while i < n
                            invariant
                                self.wf(),
                                self.has_spec_fun(*mid, *fid),
                                i <= n,
                                n == mems_v.len(),
                                mems_v == self.spec_fun_of(*mid, *fid).used_memory@,
                                decl.used_memory@ == mems_v,
                                inst_v == view_types(inst@),
                                match labels {
                                    Option::Some(ls) => ls@.len() == n,
                                    Option::None => true,
                                },
                                pairs_dedup(out@),
                                pairs_set(out@) == pairs_set(old(out)@).union(
                                    set_of_prefix(fun_pairs(mems_v, *labels, inst_v), i as int),
                                ),
                            decreases n - i,
                        {
                            let q = decl.used_memory[i].instantiate_ref(&inst);
                            let label: Option<MemoryLabel> = match labels {
                                Option::Some(ls) => Option::Some(ls[i]),
                                Option::None => Option::None,
                            };
                            insert_pair(out, q, label);
                            proof {
                                let fp = fun_pairs(mems_v, *labels, inst_v);
                                assert(fp[i as int] == (q@, label));
                                assert(set_of_prefix(fp, i + 1) =~= set_of_prefix(
                                    fp,
                                    i as int,
                                ).insert(fp[i as int]));
                                assert(pairs_set(out@) =~= pairs_set(old(out)@).union(
                                    set_of_prefix(fp, i + 1),
                                ));
                            }
                            i += 1;
                        }
                        proof {
                            let fp = fun_pairs(mems_v, *labels, inst_v);
                            assert(set_of_prefix(fp, n as int) =~= contribution);
                        }
                    },
                    _ => {
                        proof {
                            assert(contribution =~= Set::<MemPair>::empty());
                        }
                    },
                }
            },
            _ => {
                proof {
                    assert(contribution =~= Set::<MemPair>::empty());
                }
            },
        }
        let ghost after_node = pairs_set(out@);
        let cs = self.exp_arena.collect_children(d);
        self.used_memory_children(&cs, 0, e, out);
        proof {
            assert(spec_children(self.exp_arena.nodes@[e.0 as int]).skip(0) =~= spec_children(
                self.exp_arena.nodes@[e.0 as int],
            ));
            assert(pairs_set(out@) =~= pairs_set(old(out)@).union(spec_used_memory(*self, e)));
        }
    }

    /// Adds the memories referenced by the trees `es[from..]` to `out`.
    fn used_memory_children(
        &self,
        es: &Vec<Exp>,
        from: usize,
        parent: Exp,
        out: &mut Vec<(QualifiedInstId, Option<MemoryLabel>)>,
    )
        requires
            self.wf(),
            self.exp_arena.has(parent),
            from <= es@.len(),
            seq_bounded(es@, parent.0 as int),
            pairs_dedup(old(out)@),
        ensures
            pairs_dedup(final(out)@),
            pairs_set(final(out)@) == pairs_set(old(out)@).union(
                spec_used_memory_list(*self, es@.skip(from as int), parent.0 as int),
            ),
        decreases parent.0, 0int, es@.len() - from,
    {
        if from < es.len() {
            let child = es[from];
            self.used_memory_rec(child, out);
            self.used_memory_children(es, from + 1, parent, out);
            proof {
                assert(es@.skip(from as int).drop_first() =~= es@.skip(from as int + 1));
                assert(es@.skip(from as int)[0] == child);
                assert(pairs_set(out@) =~= pairs_set(old(out)@).union(
                    spec_used_memory_list(*self, es@.skip(from as int), parent.0 as int),
                ));
            }
        } else {
            proof {
                assert(es@.skip(from as int) =~= Seq::<Exp>::empty());
                assert(pairs_set(out@) =~= pairs_set(old(out)@).union(
                    spec_used_memory_list(*self, es@.skip(from as int), parent.0 as int),
                ));
            }
        }
    }
}

/// The set of the first `n` entries of a pair sequence.
pub open spec fn set_of_prefix(ps: Seq<MemPair>, n: int) -> Set<MemPair> {
    Set::new(|p: MemPair| exists|i: int| 0 <= i < n && i < ps.len() && ps[i] == p)
}

/// Clones a type vector.
fn clone_types(ts: &Vec<Type>) -> (r: Vec<Type>)
    ensures
        view_types(r@) == view_types(ts@),
        r@.len() == ts@.len(),
{
    let mut r: Vec<Type> = Vec::new();
    let mut i: usize = 0;
    while i < ts.len()
        invariant
            i <= ts@.len(),
            r@.len() == i,
            forall|k: int| 0 <= k < i ==> r@[k]@ == ts@[k]@,
        decreases ts@.len() - i,
    {
        r.push(ts[i].clone());
        i += 1;
    }
    proof {
        crate::ty::lemma_view_types_eq(r@, ts@);
    }
    r
}


// =========================================================================
// Purity

/// Whether one node is compatible with purity: no mutable-reference-typed
/// temporary, no direct memory operation, no call to a specification
/// function with declared used memory.
pub open spec fn node_pure(env: GlobalEnv, d: ExpData) -> bool {
    match d {
        ExpData::Temporary(id, _) => !(env.spec_node_type(id) matches TypeV::Reference(true, _)),
        ExpData::Call(_, oper, _) => match oper {
            Operation::Exists(_) | Operation::Global(_) => false,
            Operation::Function(mid, fid, _) => env.spec_fun_of(mid, fid).used_memory@.len() == 0,
            _ => true,
        },
        _ => true,
    }
}

/// Whether the tree at `e` is pure: does not depend on memory or mutable
/// variables.
pub open spec fn spec_is_pure(env: GlobalEnv, e: Exp) -> bool
    decreases e.0, 1int, 0int,
{
    let nodes = env.exp_arena.nodes@;
    if e.0 < nodes.len() && children_bounded(nodes[e.0 as int], e.0 as int) {
        node_pure(env, nodes[e.0 as int]) && spec_is_pure_list(
            env,
            spec_children(nodes[e.0 as int]),
            e.0 as int,
        )
    } else {
        true
    }
}

/// Purity of a list of sibling trees, all below `bound`.
pub open spec fn spec_is_pure_list(env: GlobalEnv, es: Seq<Exp>, bound: int) -> bool
    decreases bound, 0int, es.len(),
{
    if es.len() == 0 {
        true
    } else if es[0].0 < bound {
        spec_is_pure(env, es[0]) && spec_is_pure_list(env, es.drop_first(), bound)
    } else {
        true
    }
}

/// Whether every operation node of the tree is memory-independent under the
/// declared purity of called specification functions: memory operations
/// count as dependent, a specification-function call counts as independent
/// exactly when its callee declares no used memory, and every other
/// operation as independent.
pub open spec fn spec_oper_fold(env: GlobalEnv, e: Exp) -> bool
    decreases e.0, 1int, 0int,
{
    let nodes = env.exp_arena.nodes@;
    if e.0 < nodes.len() && children_bounded(nodes[e.0 as int], e.0 as int) {
        node_oper_independent(env, nodes[e.0 as int]) && spec_oper_fold_list(
            env,
            spec_children(nodes[e.0 as int]),
            e.0 as int,
        )
    } else {
        true
    }
}

/// One node of the operation fold.
pub open spec fn node_oper_independent(env: GlobalEnv, d: ExpData) -> bool {
    match d {
        ExpData::Call(_, oper, _) => match oper {
            Operation::Exists(_) | Operation::Global(_) => false,
            Operation::Function(mid, fid, _) => env.spec_fun_of(mid, fid).used_memory@.len() == 0,
            _ => true,
        },
        _ => true,
    }
}

/// The operation fold over a list of sibling trees.
pub open spec fn spec_oper_fold_list(env: GlobalEnv, es: Seq<Exp>, bound: int) -> bool
    decreases bound, 0int, es.len(),
{
    if es.len() == 0 {
        true
    } else if es[0].0 < bound {
        spec_oper_fold(env, es[0]) && spec_oper_fold_list(env, es.drop_first(), bound)
    } else {
        true
    }
}

impl Operation {
    /// Determines whether this operation depends on global memory: a memory
    /// operation does; a call to a specification function is decided by the
    /// given purity check; any other operation does not.
    pub fn uses_memory<F: Fn(ModuleId, SpecFunId) -> bool>(&self, check_pure: &F) -> (r: bool)
        requires
            forall|m: ModuleId, f: SpecFunId| check_pure.requires((m, f)),
        ensures
            match *self {
                Operation::Exists(_) | Operation::Global(_) => r == false,
                Operation::Function(m, f, _) => check_pure.ensures((m, f), r),
                _ => r == true,
            },
    {
        match self {
            Operation::Exists(_) | Operation::Global(_) => false,
            Operation::Function(m, f, _) => check_pure(*m, *f),
            _ => true,
        }
    }
}

impl GlobalEnv {
    /// Checks whether the expression is pure, i.e. does not depend on
    /// memory or mutable variables.
    pub fn is_pure(&self, e: Exp) -> (r: bool)
        requires
            self.wf(),
            self.exp_arena.has(e),
        ensures
            r == spec_is_pure(*self, e),
        decreases e.0, 1int, 0int,
    {
        let d = self.exp_arena.data_of(e);
        proof {
            lemma_children_bounded(*d, e.0 as int);
            assert(self.wf_entry(*d));
        }
        let node_ok: bool = match d {
            ExpData::Temporary(id, _) => !self.get_node_type(*id).is_mutable_reference(),
            ExpData::Call(_, oper, _) => match oper {
                Operation::Exists(_) | Operation::Global(_) => false,
                Operation::Function(mid, fid, _) => {
                    let module = self.get_module(*mid);
                    let decl = module.get_spec_fun(*fid);
                    decl.used_memory.len() == 0
                },
                _ => true,
            },
            _ => true,
        };
        if !node_ok {
            return false;
        }
        let cs = self.exp_arena.collect_children(d);
        let r = self.is_pure_children(&cs, 0, e);
        proof {
            assert(spec_children(self.exp_arena.nodes@[e.0 as int]).skip(0) =~= spec_children(
                self.exp_arena.nodes@[e.0 as int],
            ));
        }
        r
    }

    /// Purity of the trees `es[from..]`.
    fn is_pure_children(&self, es: &Vec<Exp>, from: usize, parent: Exp) -> (r: bool)
        requires
            self.wf(),
            self.exp_arena.has(parent),
            from <= es@.len(),
            seq_bounded(es@, parent.0 as int),
        ensures
            r == spec_is_pure_list(*self, es@.skip(from as int), parent.0 as int),
        decreases parent.0, 0int, es@.len() - from,
    {
        if from < es.len() {
            let child = es[from];
            let head = self.is_pure(child);
            proof {
                assert(es@.skip(from as int).drop_first() =~= es@.skip(from as int + 1));
                assert(es@.skip(from as int)[0] == child);
            }
            if !head {
                return false;
            }
            self.is_pure_children(es, from + 1, parent)
        } else {
            proof {
                assert(es@.skip(from as int) =~= Seq::<Exp>::empty());
            }
            true
        }
    }

    /// Determines whether this expression depends on global memory, as the
    /// conjunction of `Operation::uses_memory` over all its operation
    /// nodes, with the declared purity of called specification functions as
    /// the purity check.
    pub fn uses_memory(&self, e: Exp) -> (r: bool)
        requires
            self.wf(),
            self.exp_arena.has(e),
        ensures
            r == spec_oper_fold(*self, e),
        decreases e.0, 1int, 0int,
    {
        let d = self.exp_arena.data_of(e);
        proof {
            lemma_children_bounded(*d, e.0 as int);
            assert(self.wf_entry(*d));
        }
        let node_ok: bool = match d {
            ExpData::Call(_, oper, _) => match oper {
                Operation::Exists(_) | Operation::Global(_) => false,
                Operation::Function(mid, fid, _) => {
                    let module = self.get_module(*mid);
                    let decl = module.get_spec_fun(*fid);
                    decl.used_memory.len() == 0
                },
                _ => true,
            },
            _ => true,
        };
        if !node_ok {
            return false;
        }
        let cs = self.exp_arena.collect_children(d);
        let r = self.uses_memory_children(&cs, 0, e);
        proof {
            assert(spec_children(self.exp_arena.nodes@[e.0 as int]).skip(0) =~= spec_children(
                self.exp_arena.nodes@[e.0 as int],
            ));
        }
        r
    }

    /// The operation fold over the trees `es[from..]`.
    fn uses_memory_children(&self, es: &Vec<Exp>, from: usize, parent: Exp) -> (r: bool)
        requires
            self.wf(),
            self.exp_arena.has(parent),
            from <= es@.len(),
            seq_bounded(es@, parent.0 as int),
        ensures
            r == spec_oper_fold_list(*self, es@.skip(from as int), parent.0 as int),
        decreases parent.0, 0int, es@.len() - from,
    {
        if from < es.len() {
            let child = es[from];
            let head = self.uses_memory(child);
            proof {
                assert(es@.skip(from as int).drop_first() =~= es@.skip(from as int + 1));
                assert(es@.skip(from as int)[0] == child);
            }
            if !head {
                return false;
            }
            self.uses_memory_children(es, from + 1, parent)
        } else {
            proof {
                assert(es@.skip(from as int) =~= Seq::<Exp>::empty());
            }
            true
        }
    }
}


// =========================================================================
// Purity laws

/// Whether an operation is a plain arithmetic, relational or logical
/// operator.
pub open spec fn is_arith_oper(oper: Operation) -> bool {
    match oper {
        Operation::Add | Operation::Sub | Operation::Mul | Operation::Mod | Operation::Div
            | Operation::BitOr | Operation::BitAnd | Operation::Xor | Operation::Shl
            | Operation::Shr | Operation::Implies | Operation::Iff | Operation::And
            | Operation::Or | Operation::Eq | Operation::Identical | Operation::Neq
            | Operation::Lt | Operation::Gt | Operation::Le | Operation::Ge | Operation::Not => true,
        _ => false,
    }
}

/// Whether the tree at `e` is built purely from values, local variables and
/// arithmetic operators.
pub open spec fn spec_arith_only(env: GlobalEnv, e: Exp) -> bool
    decreases e.0, 1int, 0int,
{
    let nodes = env.exp_arena.nodes@;
    if e.0 < nodes.len() && children_bounded(nodes[e.0 as int], e.0 as int) {
        (match nodes[e.0 as int] {
            ExpData::Value(_, _) => true,
            ExpData::LocalVar(_, _) => true,
            ExpData::Call(_, oper, _) => is_arith_oper(oper),
            _ => false,
        }) && spec_arith_only_list(env, spec_children(nodes[e.0 as int]), e.0 as int)
    } else {
        false
    }
}

/// `spec_arith_only` over a list of sibling trees.
pub open spec fn spec_arith_only_list(env: GlobalEnv, es: Seq<Exp>, bound: int) -> bool
    decreases bound, 0int, es.len(),
{
    if es.len() == 0 {
        true
    } else if es[0].0 < bound {
        spec_arith_only(env, es[0]) && spec_arith_only_list(env, es.drop_first(), bound)
    } else {
        false
    }
}

/// An expression built purely from arithmetic and local-variable operations
/// is pure.
pub proof fn lemma_arith_only_pure(env: GlobalEnv, e: Exp)
    requires
        spec_arith_only(env, e),
    ensures
        spec_is_pure(env, e),
    decreases e.0, 1int, 0int,
{
    let nodes = env.exp_arena.nodes@;
    lemma_arith_only_pure_list(env, spec_children(nodes[e.0 as int]), e.0 as int);
}

proof fn lemma_arith_only_pure_list(env: GlobalEnv, es: Seq<Exp>, bound: int)
    requires
        spec_arith_only_list(env, es, bound),
    ensures
        spec_is_pure_list(env, es, bound),
    decreases bound, 0int, es.len(),
{
    if es.len() == 0 {
    } else if es[0].0 < bound {
        lemma_arith_only_pure(env, es[0]);
        lemma_arith_only_pure_list(env, es.drop_first(), bound);
    }
}

/// A call to a specification function with non-empty declared used memory
/// is impure, whatever its arguments.
pub proof fn lemma_fun_call_impure(env: GlobalEnv, e: Exp)
    requires
        env.wf(),
        env.exp_arena.has(e),
        env.exp_arena.nodes@[e.0 as int] matches ExpData::Call(
            _,
            Operation::Function(mid, fid, _),
            _,
        ) && env.spec_fun_of(mid, fid).used_memory@.len() > 0,
    ensures
        !spec_is_pure(env, e),
{
}

/// A direct use of the global-read or existence operation is impure.
pub proof fn lemma_memory_oper_impure(env: GlobalEnv, e: Exp)
    requires
        env.wf(),
        env.exp_arena.has(e),
        env.exp_arena.nodes@[e.0 as int] matches ExpData::Call(_, oper, _) && (oper matches
            Operation::Global(_) || oper matches Operation::Exists(_)),
    ensures
        !spec_is_pure(env, e),
{
}

/// Purity passes to every child: a pure tree has only pure subtrees. In the
/// contrapositive, an impure subtree — for instance one using the
/// global-read operation — renders every enclosing expression impure.
pub proof fn lemma_pure_child(env: GlobalEnv, e: Exp, k: int)
    requires
        env.wf(),
        env.exp_arena.has(e),
        spec_is_pure(env, e),
        0 <= k < spec_children(env.exp_arena.nodes@[e.0 as int]).len(),
    ensures
        spec_is_pure(env, spec_children(env.exp_arena.nodes@[e.0 as int])[k]),
{
    let nodes = env.exp_arena.nodes@;
    assert(env.exp_arena.wf());
    assert(children_bounded(nodes[e.0 as int], e.0 as int));
    lemma_children_bounded(nodes[e.0 as int], e.0 as int);
    lemma_pure_list_elem(env, spec_children(nodes[e.0 as int]), e.0 as int, k);
}

proof fn lemma_pure_list_elem(env: GlobalEnv, es: Seq<Exp>, bound: int, k: int)
    requires
        spec_is_pure_list(env, es, bound),
        seq_bounded(es, bound),
        0 <= k < es.len(),
    ensures
        spec_is_pure(env, es[k]),
    decreases es.len(),
{
    if k == 0 {
    } else {
        assert(seq_bounded(es.drop_first(), bound));
        lemma_pure_list_elem(env, es.drop_first(), bound, k - 1);
        assert(es.drop_first()[k - 1] == es[k]);
    }
}


// =========================================================================
// Ghost-memory access extraction

/// The shape of a specification-level write to ghost memory: a field select
/// of a plain global read of a struct whose name carries the reserved
/// ghost-memory prefix. Extracts the instantiated struct, the selected
/// field, and the address expression of the access.
pub open spec fn spec_extract_ghost_mem_access(env: GlobalEnv, e: Exp) -> Option<
    (QualifiedInstIdV, crate::ids::FieldId, Exp),
> {
    let nodes = env.exp_arena.nodes@;
    if e.0 < nodes.len() {
        match nodes[e.0 as int] {
            ExpData::Call(_, Operation::Select(_, _, field_id), sargs) => if sargs@.len() >= 1
                && sargs@[0].0 < nodes.len() {
                match nodes[sargs@[0].0 as int] {
                    ExpData::Call(id2, Operation::Global(Option::None), gargs) => if gargs@.len()
                        >= 1 {
                        match env.spec_node_type(id2) {
                            TypeV::Struct(mid, sid, targs) => if crate::model::is_ghost_name(
                                env.symbol_pool.strings@[env.modules@[mid.0 as int].structs@[sid.0 as int].name.0 as int]@,
                            ) {
                                Option::Some(
                                    (
                                        QualifiedInstIdV { module_id: mid, inst: targs, id: sid },
                                        field_id,
                                        gargs@[0],
                                    ),
                                )
                            } else {
                                Option::None
                            },
                            _ => Option::None,
                        }
                    } else {
                        Option::None
                    },
                    _ => Option::None,
                }
            } else {
                Option::None
            },
            _ => Option::None,
        }
    } else {
        Option::None
    }
}

impl GlobalEnv {
    /// Extracts an access to ghost memory from the tree at `e`, if it has
    /// the ghost-write shape: the instantiated ghost struct, the selected
    /// field, and the expression holding the address of the access.
    pub fn extract_ghost_mem_access(&self, e: Exp) -> (r: Option<
        (QualifiedInstId, crate::ids::FieldId, Exp),
    >)
        requires
            self.wf(),
            self.wf_struct_types(),
            self.exp_arena.has(e),
        ensures
            match (r, spec_extract_ghost_mem_access(*self, e)) {
                (Option::Some(a), Option::Some(b)) => a.0@ == b.0 && a.1 == b.1 && a.2 == b.2,
                (Option::None, Option::None) => true,
                _ => false,
            },
    {
        let d = self.exp_arena.data_of(e);
        proof {
            lemma_children_bounded(*d, e.0 as int);
        }
        match d {
            ExpData::Call(_, Operation::Select(_, _, field_id), sargs) => {
                if sargs.len() == 0 {
                    return Option::None;
                }
                let s0 = sargs[0];
                proof {
                    assert(spec_children(self.exp_arena.nodes@[e.0 as int]) == sargs@);
                    assert(sargs@[0].0 < e.0);
                }
                let d2 = self.exp_arena.data_of(s0);
                match d2 {
                    ExpData::Call(id2, Operation::Global(Option::None), gargs) => {
                        if gargs.len() == 0 {
                            return Option::None;
                        }
                        proof {
                            assert(self.wf_entry(*d2));
                        }
                        let ty = self.get_node_type(*id2);
                        match ty {
                            Type::Struct(mid, sid, targs) => {
                                proof {
                                    assert(self.spec_node_type(*id2) matches TypeV::Struct(_, _, _));
                                }
                                if self.is_ghost_memory_struct(*mid, *sid) {
                                    let q = QualifiedInstId {
                                        module_id: *mid,
                                        inst: clone_types(targs),
                                        id: *sid,
                                    };
                                    Option::Some((q, *field_id, gargs[0]))
                                } else {
                                    Option::None
                                }
                            },
                            _ => Option::None,
                        }
                    },
                    _ => Option::None,
                }
            },
            _ => Option::None,
        }
    }
}

} // verus!
