//! Generic traversal over expression trees: the depth-first pre/post event
//! sequence, and the traversals derived from it (node ids, temporaries,
//! module usage).
//!
//! The traversal order into composite children is fixed: for calls the
//! arguments in order; for invocations the target then the arguments; for
//! lambdas the body; for quantifiers the binder bindings and domains in
//! range order, then the trigger groups, then the optional filter, then the
//! body; for blocks the binder bindings then the body; for conditionals the
//! condition, the then branch, the else branch.

use vstd::prelude::*;
use crate::ast::{children_bounded, triggers_view, Exp, ExpArena, ExpData, LocalVarDecl, Operation};
use crate::ids::{ModuleId, NodeId, TempIndex};

verus! {

/// The child handles of expression data, in traversal order.
pub open spec fn spec_children(d: ExpData) -> Seq<Exp>
    decreases d,
{
    match d {
        ExpData::Invalid(_) => Seq::empty(),
        ExpData::Value(_, _) => Seq::empty(),
        ExpData::LocalVar(_, _) => Seq::empty(),
        ExpData::Temporary(_, _) => Seq::empty(),
        ExpData::Call(_, _, args) => args@,
        ExpData::Invoke(_, target, args) => seq![target] + args@,
        ExpData::Lambda(_, _, body) => seq![body],
        ExpData::Quant(_, _, ranges, triggers, cond, body) => range_children(ranges@)
            + trigger_children(triggers_view(triggers@)) + opt_child(cond) + seq![body],
        ExpData::Block(_, decls, body) => decl_children(decls@) + seq![body],
        ExpData::IfElse(_, c, t, e) => seq![c, t, e],
    }
}

/// The children contributed by quantifier ranges: each binder's optional
/// binding, then its domain expression.
pub open spec fn range_children(ranges: Seq<(LocalVarDecl, Exp)>) -> Seq<Exp>
    decreases ranges,
{
    if ranges.len() == 0 {
        Seq::empty()
    } else {
        range_children(ranges.drop_last()) + opt_child(ranges.last().0.binding) + seq![
            ranges.last().1,
        ]
    }
}

/// The children contributed by trigger groups, flattened in order.
pub open spec fn trigger_children(triggers: Seq<Seq<Exp>>) -> Seq<Exp>
    decreases triggers,
{
    if triggers.len() == 0 {
        Seq::empty()
    } else {
        trigger_children(triggers.drop_last()) + triggers.last()
    }
}

/// The children contributed by block binders: each binder's optional
/// binding.
pub open spec fn decl_children(decls: Seq<LocalVarDecl>) -> Seq<Exp>
    decreases decls,
{
    if decls.len() == 0 {
        Seq::empty()
    } else {
        decl_children(decls.drop_last()) + opt_child(decls.last().binding)
    }
}

/// Zero or one child.
pub open spec fn opt_child(c: Option<Exp>) -> Seq<Exp> {
    match c {
        Option::Some(e) => seq![e],
        Option::None => Seq::empty(),
    }
}

/// All handles of a sequence are below `bound`.
pub open spec fn seq_bounded(es: Seq<Exp>, bound: int) -> bool {
    forall|k: int| 0 <= k < es.len() ==> (#[trigger] es[k]).0 < bound
}

/// `children_bounded` bounds exactly the handles `spec_children` lists.
pub proof fn lemma_children_bounded(d: ExpData, bound: int)
    requires
        children_bounded(d, bound),
    ensures
        seq_bounded(spec_children(d), bound),
{
    match d {
        ExpData::Quant(_, _, ranges, triggers, cond, body) => {
            lemma_range_children_bounded(ranges@, bound);
            lemma_trigger_children_bounded(triggers_view(triggers@), bound);
        },
        ExpData::Block(_, decls, body) => {
            lemma_decl_children_bounded(decls@, bound);
        },
        _ => {},
    }
}

proof fn lemma_range_children_bounded(ranges: Seq<(LocalVarDecl, Exp)>, bound: int)
    requires
        forall|k: int|
            0 <= k < ranges.len() ==> {
                &&& match (#[trigger] ranges[k]).0.binding {
                    Option::Some(e) => e.0 < bound,
                    Option::None => true,
                }
                &&& ranges[k].1.0 < bound
            },
    ensures
        seq_bounded(range_children(ranges), bound),
    decreases ranges,
{
    if ranges.len() > 0 {
        lemma_range_children_bounded(ranges.drop_last(), bound);
    }
}

proof fn lemma_trigger_children_bounded(triggers: Seq<Seq<Exp>>, bound: int)
    requires
        forall|k: int| 0 <= k < triggers.len() ==> seq_bounded(#[trigger] triggers[k], bound),
    ensures
        seq_bounded(trigger_children(triggers), bound),
    decreases triggers,
{
    if triggers.len() > 0 {
        lemma_trigger_children_bounded(triggers.drop_last(), bound);
    }
}

proof fn lemma_decl_children_bounded(decls: Seq<LocalVarDecl>, bound: int)
    requires
        crate::ast::decls_bounded(decls, bound),
    ensures
        seq_bounded(decl_children(decls), bound),
    decreases decls,
{
    if decls.len() > 0 {
        lemma_decl_children_bounded(decls.drop_last(), bound);
    }
}

/// The depth-first traversal events of the tree at `e`: `(false, n)` before
/// descending into `n`'s children, `(true, n)` after.
pub open spec fn spec_events(nodes: Seq<ExpData>, e: Exp) -> Seq<(bool, Exp)>
    decreases e.0, 1int, 0int,
{
    if e.0 < nodes.len() && children_bounded(nodes[e.0 as int], e.0 as int) {
        seq![(false, e)] + spec_events_list(nodes, spec_children(nodes[e.0 as int]), e.0 as int)
            + seq![(true, e)]
    } else {
        Seq::empty()
    }
}

/// The traversal events of a list of sibling trees, all below `bound`.
pub open spec fn spec_events_list(nodes: Seq<ExpData>, es: Seq<Exp>, bound: int) -> Seq<
    (bool, Exp),
>
    decreases bound, 0int, es.len(),
{
    if es.len() == 0 {
        Seq::empty()
    } else if es[0].0 < bound {
        spec_events(nodes, es[0]) + spec_events_list(nodes, es.drop_first(), bound)
    } else {
        Seq::empty()
    }
}

impl ExpArena {
    /// The children of expression data, in traversal order, as a vector.
    pub fn collect_children(&self, d: &ExpData) -> (r: Vec<Exp>)
        ensures
            r@ == spec_children(*d),
    {
        let mut out: Vec<Exp> = Vec::new();
        match d {
            ExpData::Invalid(_) | ExpData::Value(_, _) | ExpData::LocalVar(_, _)
                | ExpData::Temporary(_, _) => {
                proof {
                    assert(out@ =~= spec_children(*d));
                }
            },
            ExpData::Call(_, _, args) => {
                push_all(&mut out, args);
                proof {
                    assert(out@ =~= spec_children(*d));
                }
            },
            ExpData::Invoke(_, target, args) => {
                out.push(*target);
                push_all(&mut out, args);
                proof {
                    assert(out@ =~= seq![*target] + args@);
                }
            },
            ExpData::Lambda(_, _, body) => {
                out.push(*body);
                proof {
                    assert(out@ =~= seq![*body]);
                }
            },
            ExpData::Quant(_, _, ranges, triggers, cond, body) => {
                let mut i: usize = 0;
                while i < ranges.len()
                    invariant
                        i <= ranges@.len(),
                        out@ == range_children(ranges@.subrange(0, i as int)),
                    decreases ranges@.len() - i,
                {
                    proof {
                        lemma_range_children_prefix(ranges@, i as int);
                    }
                    let (decl, range) = &ranges[i];
                    match &decl.binding {
                        Option::Some(b) => {
                            out.push(*b);
                        },
                        Option::None => {},
                    }
                    out.push(*range);
                    proof {
                        assert(out@ =~= range_children(ranges@.subrange(0, i + 1)));
                    }
                    i += 1;
                }
                proof {
                    assert(ranges@.subrange(0, ranges@.len() as int) =~= ranges@);
                }
                let ghost rc = range_children(ranges@);
                let mut j: usize = 0;
                while j < triggers.len()
                    invariant
                        j <= triggers@.len(),
                        rc == range_children(ranges@),
                        out@ == rc + trigger_children(triggers_view(triggers@).subrange(0, j as int)),
                    decreases triggers@.len() - j,
                {
                    proof {
                        assert(triggers_view(triggers@).subrange(0, j + 1).drop_last()
                            =~= triggers_view(triggers@).subrange(0, j as int));
                        assert(triggers_view(triggers@).subrange(0, j + 1).last()
                            == triggers_view(triggers@)[j as int]);
                        assert(triggers_view(triggers@)[j as int] == triggers@[j as int]@);
                    }
                    push_all(&mut out, &triggers[j]);
                    proof {
                        assert(out@ =~= rc + trigger_children(
                            triggers_view(triggers@).subrange(0, j + 1),
                        ));
                    }
                    j += 1;
                }
                proof {
                    assert(triggers_view(triggers@).subrange(
                        0,
                        triggers_view(triggers@).len() as int,
                    ) =~= triggers_view(triggers@));
                }
                match cond {
                    Option::Some(c) => {
                        out.push(*c);
                    },
                    Option::None => {},
                }
                out.push(*body);
                proof {
                    assert(out@ =~= range_children(ranges@) + trigger_children(
                        triggers_view(triggers@),
                    ) + opt_child(*cond) + seq![*body]);
                }
            },
            ExpData::Block(_, decls, body) => {
                let mut i: usize = 0;
                while i < decls.len()
                    invariant
                        i <= decls@.len(),
                        out@ == decl_children(decls@.subrange(0, i as int)),
                    decreases decls@.len() - i,
                {
                    proof {
                        lemma_decl_children_prefix(decls@, i as int);
                    }
                    match &decls[i].binding {
                        Option::Some(b) => {
                            out.push(*b);
                        },
                        Option::None => {},
                    }
                    proof {
                        assert(out@ =~= decl_children(decls@.subrange(0, i + 1)));
                    }
                    i += 1;
                }
                proof {
                    assert(decls@.subrange(0, decls@.len() as int) =~= decls@);
                }
                out.push(*body);
                proof {
                    assert(out@ =~= decl_children(decls@) + seq![*body]);
                }
            },
            ExpData::IfElse(_, c, t, el) => {
                out.push(*c);
                out.push(*t);
                out.push(*el);
                proof {
                    assert(out@ =~= seq![*c, *t, *el]);
                }
            },
        }
        out
    }

    /// Produces the traversal events of the tree at `e`: visiting in this
    /// order, acting on `(false, n)` on the way down and `(true, n)` on the
    /// way up, is the pre/post depth-first visit.
    pub fn visit_pre_post(&self, e: Exp) -> (r: Vec<(bool, Exp)>)
        requires
            self.wf(),
            self.has(e),
        ensures
            r@ == spec_events(self.nodes@, e),
    {
        let mut out: Vec<(bool, Exp)> = Vec::new();
        self.visit_pre_post_rec(e, &mut out);
        proof {
            assert(out@ =~= Seq::<(bool, Exp)>::empty() + spec_events(self.nodes@, e));
        }
        out
    }

    /// Appends the traversal events of the tree at `e` to `out`.
    fn visit_pre_post_rec(&self, e: Exp, out: &mut Vec<(bool, Exp)>)
        requires
            self.wf(),
            self.has(e),
        ensures
            final(out)@ == old(out)@ + spec_events(self.nodes@, e),
        decreases e.0, 1int, 0int,
    {
        out.push((false, e));
        let d = self.data_of(e);
        proof {
            lemma_children_bounded(*d, e.0 as int);
        }
        let cs = self.collect_children(d);
        self.visit_list(&cs, 0, e, out);
        out.push((true, e));
        proof {
            assert(spec_children(self.nodes@[e.0 as int]).skip(0) =~= spec_children(
                self.nodes@[e.0 as int],
            ));
            assert(out@ =~= old(out)@ + spec_events(self.nodes@, e));
        }
    }

    /// Appends the traversal events of `es[from..]` to `out`. All handles in
    /// `es` lie below `parent`.
    fn visit_list(&self, es: &Vec<Exp>, from: usize, parent: Exp, out: &mut Vec<(bool, Exp)>)
        requires
            self.wf(),
            self.has(parent),
            from <= es@.len(),
            seq_bounded(es@, parent.0 as int),
        ensures
            final(out)@ == old(out)@ + spec_events_list(
                self.nodes@,
                es@.skip(from as int),
                parent.0 as int,
            ),
        decreases parent.0, 0int, es@.len() - from,
    {
        if from < es.len() {
            let child = es[from];
            self.visit_pre_post_rec(child, out);
            self.visit_list(es, from + 1, parent, out);
            proof {
                assert(es@.skip(from as int).drop_first() =~= es@.skip(from as int + 1));
                assert(es@.skip(from as int)[0] == child);
                assert(out@ =~= old(out)@ + spec_events_list(
                    self.nodes@,
                    es@.skip(from as int),
                    parent.0 as int,
                ));
            }
        } else {
            proof {
                assert(es@.skip(from as int) =~= Seq::<Exp>::empty());
            }
        }
    }
}

/// Appends all elements of `more` to `out`.
fn push_all(out: &mut Vec<Exp>, more: &Vec<Exp>)
    ensures
        final(out)@ == old(out)@ + more@,
{
    let mut i: usize = 0;
    while i < more.len()
        invariant
            i <= more@.len(),
            out@ == old(out)@ + more@.subrange(0, i as int),
        decreases more@.len() - i,
    {
        out.push(more[i]);
        proof {
            assert(old(out)@ + more@.subrange(0, i + 1) =~= (old(out)@ + more@.subrange(
                0,
                i as int,
            )).push(more@[i as int]));
        }
        i += 1;
    }
    proof {
        assert(more@.subrange(0, more@.len() as int) =~= more@);
    }
}

proof fn lemma_range_children_prefix(ranges: Seq<(LocalVarDecl, Exp)>, i: int)
    requires
        0 <= i < ranges.len(),
    ensures
        range_children(ranges.subrange(0, i + 1)) == range_children(ranges.subrange(0, i))
            + opt_child(ranges[i].0.binding) + seq![ranges[i].1],
{
    assert(ranges.subrange(0, i + 1).drop_last() =~= ranges.subrange(0, i));
    assert(ranges.subrange(0, i + 1).last() == ranges[i]);
}

proof fn lemma_decl_children_prefix(decls: Seq<LocalVarDecl>, i: int)
    requires
        0 <= i < decls.len(),
    ensures
        decl_children(decls.subrange(0, i + 1)) == decl_children(decls.subrange(0, i)) + opt_child(
            decls[i].binding,
        ),
{
    assert(decls.subrange(0, i + 1).drop_last() =~= decls.subrange(0, i));
    assert(decls.subrange(0, i + 1).last() == decls[i]);
}


/// The sub-expressions finished by an event sequence, in completion
/// (post-visit) order.
pub open spec fn collect_up(evs: Seq<(bool, Exp)>) -> Seq<Exp>
    decreases evs,
{
    if evs.len() == 0 {
        Seq::empty()
    } else if evs.last().0 {
        collect_up(evs.drop_last()).push(evs.last().1)
    } else {
        collect_up(evs.drop_last())
    }
}

/// The sub-expressions of the tree at `e` in depth-first post order.
pub open spec fn spec_post_order(nodes: Seq<ExpData>, e: Exp) -> Seq<Exp> {
    collect_up(spec_events(nodes, e))
}

/// The temporaries referenced by the nodes of `po`, each with the node that
/// first references it, ordered by first occurrence.
pub open spec fn spec_temporaries(nodes: Seq<ExpData>, po: Seq<Exp>) -> Seq<(TempIndex, NodeId)>
    decreases po,
{
    if po.len() == 0 {
        Seq::empty()
    } else {
        let prefix = spec_temporaries(nodes, po.drop_last());
        let e = po.last();
        if e.0 < nodes.len() {
            match nodes[e.0 as int] {
                ExpData::Temporary(id, idx) => if has_temp(prefix, idx) {
                    prefix
                } else {
                    prefix.push((idx, id))
                },
                _ => prefix,
            }
        } else {
            prefix
        }
    }
}

/// Whether a temporary index already occurs in the list.
pub open spec fn has_temp(temps: Seq<(TempIndex, NodeId)>, idx: TempIndex) -> bool {
    exists|k: int| 0 <= k < temps.len() && (#[trigger] temps[k]).0 == idx
}

/// The modules referenced by operations of the nodes of `po`.
pub open spec fn spec_module_usage(nodes: Seq<ExpData>, po: Seq<Exp>) -> Set<ModuleId>
    decreases po,
{
    if po.len() == 0 {
        Set::empty()
    } else {
        let prefix = spec_module_usage(nodes, po.drop_last());
        let e = po.last();
        if e.0 < nodes.len() {
            match nodes[e.0 as int] {
                ExpData::Call(_, oper, _) => match oper {
                    Operation::Function(mid, _, _) => prefix.insert(mid),
                    Operation::Pack(mid, _) => prefix.insert(mid),
                    Operation::Select(mid, _, _) => prefix.insert(mid),
                    Operation::UpdateField(mid, _, _) => prefix.insert(mid),
                    _ => prefix,
                },
                _ => prefix,
            }
        } else {
            prefix
        }
    }
}

impl ExpArena {
    /// The sub-expressions of the tree at `e` in depth-first post order:
    /// iterating over the result is the depth-first visit.
    pub fn visit(&self, e: Exp) -> (r: Vec<Exp>)
        requires
            self.wf(),
            self.has(e),
        ensures
            r@ == spec_post_order(self.nodes@, e),
            forall|k: int| 0 <= k < r@.len() ==> self.has(#[trigger] r@[k]),
    {
        let evs = self.visit_pre_post(e);
        let ghost evsv = evs@;
        proof {
            lemma_events_in_arena(self.nodes@, e);
        }
        let mut out: Vec<Exp> = Vec::new();
        let mut i: usize = 0;
        while i < evs.len()
            invariant
                i <= evsv.len(),
                evs@ == evsv,
                out@ == collect_up(evsv.subrange(0, i as int)),
                self.wf(),
                forall|k: int| 0 <= k < evsv.len() ==> self.has((#[trigger] evsv[k]).1),
                forall|k: int| 0 <= k < out@.len() ==> self.has(#[trigger] out@[k]),
            decreases evsv.len() - i,
        {
            proof {
                assert(evsv.subrange(0, i + 1).drop_last() =~= evsv.subrange(0, i as int));
                assert(evsv.subrange(0, i + 1).last() == evsv[i as int]);
            }
            let (up, node) = evs[i];
            if up {
                out.push(node);
            }
            i += 1;
        }
        proof {
            assert(evsv.subrange(0, evsv.len() as int) =~= evsv);
        }
        out
    }

    /// The node ids of the tree at `e`, in depth-first post order.
    pub fn node_ids(&self, e: Exp) -> (r: Vec<NodeId>)
        requires
            self.wf(),
            self.has(e),
        ensures
            ({
                let po = spec_post_order(self.nodes@, e);
                &&& r@.len() == po.len()
                &&& forall|k: int|
                    0 <= k < po.len() ==> r@[k] == self.nodes@[(#[trigger] po[k]).0 as int].spec_node_id()
            }),
    {
        let po = self.visit(e);
        let ghost pov = po@;
        let mut out: Vec<NodeId> = Vec::new();
        let mut i: usize = 0;
        while i < po.len()
            invariant
                i <= pov.len(),
                po@ == pov,
                self.wf(),
                forall|k: int| 0 <= k < pov.len() ==> self.has(#[trigger] pov[k]),
                out@.len() == i,
                forall|k: int|
                    0 <= k < i ==> out@[k] == self.nodes@[(#[trigger] pov[k]).0 as int].spec_node_id(),
            decreases pov.len() - i,
        {
            let d = self.data_of(po[i]);
            out.push(d.node_id());
            i += 1;
        }
        out
    }

    /// The temporaries used in the tree at `e`, each with its type, ordered
    /// by first occurrence.
    pub fn temporaries(&self, e: Exp, env: &crate::model::GlobalEnv) -> (r: Vec<
        (TempIndex, crate::ty::Type),
    >)
        requires
            env.wf(),
            env.exp_arena == *self,
            self.has(e),
        ensures
            ({
                let temps = spec_temporaries(self.nodes@, spec_post_order(self.nodes@, e));
                &&& r@.len() == temps.len()
                &&& forall|k: int|
                    0 <= k < temps.len() ==> r@[k].0 == (#[trigger] temps[k]).0 && r@[k].1@
                        == env.spec_node_type(temps[k].1)
            }),
    {
        let po = self.visit(e);
        let ghost pov = po@;
        let mut out: Vec<(TempIndex, crate::ty::Type)> = Vec::new();
        let mut i: usize = 0;
        while i < po.len()
            invariant
                i <= pov.len(),
                po@ == pov,
                env.wf(),
                env.exp_arena == *self,
                pov == spec_post_order(self.nodes@, e),
                forall|k: int| 0 <= k < pov.len() ==> self.has(#[trigger] pov[k]),
                ({
                    let temps = spec_temporaries(self.nodes@, pov.subrange(0, i as int));
                    &&& out@.len() == temps.len()
                    &&& forall|k: int|
                        0 <= k < temps.len() ==> out@[k].0 == (#[trigger] temps[k]).0 && out@[k].1@
                            == env.spec_node_type(temps[k].1)
                }),
            decreases pov.len() - i,
        {
            proof {
                assert(pov.subrange(0, i + 1).drop_last() =~= pov.subrange(0, i as int));
                assert(pov.subrange(0, i + 1).last() == pov[i as int]);
            }
            let d = self.data_of(po[i]);
            match d {
                ExpData::Temporary(id, idx) => {
                    let ghost temps = spec_temporaries(self.nodes@, pov.subrange(0, i as int));
                    let seen = temp_seen(&out, *idx);
                    proof {
                        if seen {
                            let k = choose|k: int|
                                0 <= k < out@.len() && (#[trigger] out@[k]).0 == *idx;
                            assert(temps[k].0 == *idx);
                            assert(has_temp(temps, *idx));
                        } else {
                            if has_temp(temps, *idx) {
                                let k = choose|k: int|
                                    0 <= k < temps.len() && (#[trigger] temps[k]).0 == *idx;
                                assert(out@[k].0 == *idx);
                            }
                        }
                    }
                    if !seen {
                        proof {
                            assert(env.wf_entry(self.nodes@[pov[i as int].0 as int]));
                        }
                        let ty = env.get_node_type(*id);
                        out.push((*idx, ty.clone()));
                    }
                },
                _ => {},
            }
            i += 1;
        }
        proof {
            assert(pov.subrange(0, pov.len() as int) =~= pov);
        }
        out
    }
}

/// Every node of an event sequence is an arena handle.
pub proof fn lemma_events_in_arena(nodes: Seq<ExpData>, e: Exp)
    ensures
        forall|k: int|
            0 <= k < spec_events(nodes, e).len() ==> (#[trigger] spec_events(nodes, e)[k]).1.0
                < nodes.len(),
    decreases e.0, 1int, 0int,
{
    if e.0 < nodes.len() && children_bounded(nodes[e.0 as int], e.0 as int) {
        lemma_events_list_in_arena(nodes, spec_children(nodes[e.0 as int]), e.0 as int);
        let evs = spec_events(nodes, e);
        let lst = spec_events_list(nodes, spec_children(nodes[e.0 as int]), e.0 as int);
        assert forall|k: int| 0 <= k < evs.len() implies (#[trigger] evs[k]).1.0 < nodes.len() by {
            if k == 0 {
                assert(evs[k] == (false, e));
            } else if k <= lst.len() {
                assert(evs[k] == lst[k - 1]);
            } else {
                assert(evs[k] == (true, e));
            }
        }
    }
}

proof fn lemma_events_list_in_arena(nodes: Seq<ExpData>, es: Seq<Exp>, bound: int)
    ensures
        forall|k: int|
            0 <= k < spec_events_list(nodes, es, bound).len() ==> (#[trigger] spec_events_list(
                nodes,
                es,
                bound,
            )[k]).1.0 < nodes.len(),
    decreases bound, 0int, es.len(),
{
    if es.len() == 0 {
    } else if es[0].0 < bound {
        lemma_events_in_arena(nodes, es[0]);
        lemma_events_list_in_arena(nodes, es.drop_first(), bound);
        let evs = spec_events_list(nodes, es, bound);
        let head = spec_events(nodes, es[0]);
        let rest = spec_events_list(nodes, es.drop_first(), bound);
        assert forall|k: int| 0 <= k < evs.len() implies (#[trigger] evs[k]).1.0 < nodes.len() by {
            if k < head.len() {
                assert(evs[k] == head[k]);
            } else {
                assert(evs[k] == rest[k - head.len()]);
            }
        }
    }
}


/// Whether a temporary index already occurs in the collected list.
fn temp_seen(out: &Vec<(TempIndex, crate::ty::Type)>, idx: TempIndex) -> (r: bool)
    ensures
        r == (exists|k: int| 0 <= k < out@.len() && (#[trigger] out@[k]).0 == idx),
{
    let mut k: usize = 0;
    while k < out.len()
        invariant
            k <= out@.len(),
            forall|j: int| 0 <= j < k ==> (#[trigger] out@[j]).0 != idx,
        decreases out@.len() - k,
    {
        if out[k].0 == idx {
            proof {
                assert(out@[k as int].0 == idx);
            }
            return true;
        }
        k += 1;
    }
    false
}


impl ExpArena {
    /// The modules referenced by the operations of the tree at `e`: calls
    /// to specification functions, struct construction, field select and
    /// field update all name their module.
    pub fn module_usage(&self, e: Exp) -> (r: Vec<ModuleId>)
        requires
            self.wf(),
            self.has(e),
        ensures
            forall|m: ModuleId|
                r@.contains(m) <==> spec_module_usage(
                    self.nodes@,
                    spec_post_order(self.nodes@, e),
                ).contains(m),
    {
        let po = self.visit(e);
        let ghost pov = po@;
        let mut out: Vec<ModuleId> = Vec::new();
        let mut i: usize = 0;
        while i < po.len()
            invariant
                i <= pov.len(),
                po@ == pov,
                self.wf(),
                forall|k: int| 0 <= k < pov.len() ==> self.has(#[trigger] pov[k]),
                forall|m: ModuleId|
                    out@.contains(m) <==> spec_module_usage(
                        self.nodes@,
                        pov.subrange(0, i as int),
                    ).contains(m),
            decreases pov.len() - i,
        {
            proof {
                assert(pov.subrange(0, i + 1).drop_last() =~= pov.subrange(0, i as int));
                assert(pov.subrange(0, i + 1).last() == pov[i as int]);
            }
            let d = self.data_of(po[i]);
            let mid_opt: Option<ModuleId> = match d {
                ExpData::Call(_, oper, _) => match oper {
                    Operation::Function(mid, _, _) => Option::Some(*mid),
                    Operation::Pack(mid, _) => Option::Some(*mid),
                    Operation::Select(mid, _, _) => Option::Some(*mid),
                    Operation::UpdateField(mid, _, _) => Option::Some(*mid),
                    _ => Option::None,
                },
                _ => Option::None,
            };
            match mid_opt {
                Option::Some(mid) => {
                    let ghost out0 = out@;
                    let mut present = false;
                    let mut k: usize = 0;
                    while k < out.len()
                        invariant
                            k <= out@.len(),
                            out@ == out0,
                            present == (exists|j: int| 0 <= j < k && out0[j] == mid),
                        decreases out@.len() - k,
                    {
                        if out[k] == mid {
                            present = true;
                            proof {
                                assert(out0[k as int] == mid);
                            }
                        }
                        k += 1;
                    }
                    proof {
                        if present {
                            let j = choose|j: int| 0 <= j < out0.len() && out0[j] == mid;
                            assert(out0.contains(mid));
                        } else {
                            if out0.contains(mid) {
                                let j = choose|j: int| 0 <= j < out0.len() && out0[j] == mid;
                            }
                        }
                    }
                    if !present {
                        out.push(mid);
                    }
                    proof {
                        assert(spec_module_usage(self.nodes@, pov.subrange(0, i + 1))
                            == spec_module_usage(self.nodes@, pov.subrange(0, i as int)).insert(
                            mid,
                        ));
                        assert forall|m: ModuleId| out@.contains(m) implies spec_module_usage(
                            self.nodes@,
                            pov.subrange(0, i + 1),
                        ).contains(m) by {
                            if m == mid {
                            } else {
                                let j = choose|j: int| 0 <= j < out0.len() && out0[j] == m;
                                assert(out0.contains(m));
                            }
                        }
                        assert forall|m: ModuleId|
                            spec_module_usage(self.nodes@, pov.subrange(0, i + 1)).contains(
                            m,
                        ) implies out@.contains(m) by {
                            if m == mid {
                                if present {
                                    let j = choose|j: int| 0 <= j < out0.len() && out0[j] == m;
                                    assert(out@[j] == m);
                                } else {
                                    assert(out@[out@.len() - 1] == m);
                                }
                            } else {
                                assert(spec_module_usage(
                                    self.nodes@,
                                    pov.subrange(0, i as int),
                                ).contains(m));
                                assert(out0.contains(m));
                                let j = choose|j: int| 0 <= j < out0.len() && out0[j] == m;
                                assert(out@[j] == m);
                            }
                        }
                    }
                },
                Option::None => {
                    proof {
                        assert(spec_module_usage(self.nodes@, pov.subrange(0, i + 1))
                            == spec_module_usage(self.nodes@, pov.subrange(0, i as int)));
                    }
                },
            }
            i += 1;
        }
        proof {
            assert(pov.subrange(0, pov.len() as int) =~= pov);
        }
        out
    }
}

} // verus!
