//! Free-variable analysis: the variables of an expression not bound by an
//! enclosing lambda, block or quantifier within the same expression.
//!
//! Shadowing is scoped: the binders of a node are in force throughout its
//! whole subtree (bindings, domains, triggers and body included) and lapse
//! when the subtree is left, so a name bound twice in nested scopes stays
//! shadowed exactly as deep as its binders reach.

use vstd::prelude::*;
use crate::ast::{children_bounded, Exp, ExpData, LocalVarDecl};
use crate::ids::{NodeId, Symbol};
use crate::model::GlobalEnv;
use crate::traversal::{lemma_children_bounded, seq_bounded, spec_children};
use crate::ty::Type;

verus! {

/// The names bound by one node, in declaration order.
pub open spec fn node_binders(d: ExpData) -> Seq<Symbol> {
    match d {
        ExpData::Lambda(_, decls, _) => decls@.map_values(|x: LocalVarDecl| x.name),
        ExpData::Block(_, decls, _) => decls@.map_values(|x: LocalVarDecl| x.name),
        ExpData::Quant(_, _, ranges, _, _, _) => ranges@.map_values(
            |r: (LocalVarDecl, Exp)| r.0.name,
        ),
        _ => Seq::empty(),
    }
}

/// The free occurrences of the tree at `e` under the shadowed names `sh`:
/// each unshadowed local-variable node, as (name, node id), ordered by
/// occurrence.
pub open spec fn spec_free_occs(nodes: Seq<ExpData>, e: Exp, sh: Seq<Symbol>) -> Seq<
    (Symbol, NodeId),
>
    decreases e.0, 1int, 0int,
{
    if e.0 < nodes.len() && children_bounded(nodes[e.0 as int], e.0 as int) {
        let d = nodes[e.0 as int];
        match d {
            ExpData::LocalVar(id, s) => if !sh.contains(s) {
                seq![(s, id)]
            } else {
                Seq::empty()
            },
            _ => spec_free_occs_list(nodes, spec_children(d), e.0 as int, sh + node_binders(d)),
        }
    } else {
        Seq::empty()
    }
}

/// The free occurrences of a list of sibling trees, all below `bound`.
pub open spec fn spec_free_occs_list(
    nodes: Seq<ExpData>,
    es: Seq<Exp>,
    bound: int,
    sh: Seq<Symbol>,
) -> Seq<(Symbol, NodeId)>
    decreases bound, 0int, es.len(),
{
    if es.len() == 0 {
        Seq::empty()
    } else if es[0].0 < bound {
        spec_free_occs(nodes, es[0], sh) + spec_free_occs_list(nodes, es.drop_first(), bound, sh)
    } else {
        Seq::empty()
    }
}

/// Whether a symbol occurs in an occurrence list.
pub open spec fn has_sym(occs: Seq<(Symbol, NodeId)>, s: Symbol) -> bool {
    exists|k: int| 0 <= k < occs.len() && (#[trigger] occs[k]).0 == s
}

/// The occurrence list with every repeated name dropped: only the first
/// occurrence of each name stays, in order.
pub open spec fn dedup_occs(occs: Seq<(Symbol, NodeId)>) -> Seq<(Symbol, NodeId)>
    decreases occs,
{
    if occs.len() == 0 {
        Seq::empty()
    } else {
        let p = dedup_occs(occs.drop_last());
        if has_sym(p, occs.last().0) {
            p
        } else {
            p.push(occs.last())
        }
    }
}

impl GlobalEnv {
    /// Returns the free local variables, with their types, used in the tree
    /// at `e`. The result is ordered by first occurrence and holds each
    /// name once.
    pub fn free_vars(&self, e: Exp) -> (r: Vec<(Symbol, Type)>)
        requires
            self.wf(),
            self.exp_arena.has(e),
        ensures
            ({
                let fv = dedup_occs(
                    spec_free_occs(self.exp_arena.nodes@, e, Seq::empty()),
                );
                &&& r@.len() == fv.len()
                &&& forall|k: int|
                    0 <= k < fv.len() ==> r@[k].0 == (#[trigger] fv[k]).0 && r@[k].1@
                        == self.spec_node_type(fv[k].1)
            }),
    {
        let sh: Vec<Symbol> = Vec::new();
        let mut occs: Vec<(Symbol, NodeId)> = Vec::new();
        self.free_occs_rec(e, &sh, &mut occs);
        proof {
            assert(occs@ =~= spec_free_occs(self.exp_arena.nodes@, e, Seq::empty()));
            lemma_free_occs_valid(*self, e, Seq::empty());
        }
        let ghost occsv = occs@;
        let mut out: Vec<(Symbol, Type)> = Vec::new();
        let mut i: usize = 0;
        while i < occs.len()
            invariant
                i <= occsv.len(),
                occs@ == occsv,
                self.wf(),
                forall|k: int| 0 <= k < occsv.len() ==> self.has_node((#[trigger] occsv[k]).1),
                ({
                    let fv = dedup_occs(occsv.subrange(0, i as int));
                    &&& out@.len() == fv.len()
                    &&& forall|k: int|
                        0 <= k < fv.len() ==> out@[k].0 == (#[trigger] fv[k]).0 && out@[k].1@
                            == self.spec_node_type(fv[k].1)
                }),
            decreases occsv.len() - i,
        {
            proof {
                assert(occsv.subrange(0, i + 1).drop_last() =~= occsv.subrange(0, i as int));
                assert(occsv.subrange(0, i + 1).last() == occsv[i as int]);
            }
            let (s, id) = occs[i];
            let ghost fv = dedup_occs(occsv.subrange(0, i as int));
            let seen = sym_seen(&out, s);
            proof {
                if seen {
                    let k = choose|k: int| 0 <= k < out@.len() && (#[trigger] out@[k]).0 == s;
                    assert(fv[k].0 == s);
                    assert(has_sym(fv, s));
                } else {
                    if has_sym(fv, s) {
                        let k = choose|k: int| 0 <= k < fv.len() && (#[trigger] fv[k]).0 == s;
                        assert(out@[k].0 == s);
                    }
                }
            }
            if !seen {
                let ty = self.get_node_type(id);
                out.push((s, ty.clone()));
            }
            i += 1;
        }
        proof {
            assert(occsv.subrange(0, occsv.len() as int) =~= occsv);
        }
        out
    }

    /// Appends the free occurrences of the tree at `e` under `sh` to `out`.
    fn free_occs_rec(&self, e: Exp, sh: &Vec<Symbol>, out: &mut Vec<(Symbol, NodeId)>)
        requires
            self.wf(),
            self.exp_arena.has(e),
        ensures
            final(out)@ == old(out)@ + spec_free_occs(self.exp_arena.nodes@, e, sh@),
        decreases e.0, 1int, 0int,
    {
        let d = self.exp_arena.data_of(e);
        proof {
            lemma_children_bounded(*d, e.0 as int);
        }
        match d {
            ExpData::LocalVar(id, s) => {
                let mut shadowed = false;
                let mut k: usize = 0;
                while k < sh.len()
                    invariant
                        k <= sh@.len(),
                        shadowed == (exists|j: int| 0 <= j < k && sh@[j] == *s),
                    decreases sh@.len() - k,
                {
                    if sh[k].0 == s.0 {
                        shadowed = true;
                        proof {
                            assert(sh@[k as int] == *s);
                        }
                    }
                    k += 1;
                }
                proof {
                    if shadowed {
                        let j = choose|j: int| 0 <= j < sh@.len() && sh@[j] == *s;
                        assert(sh@.contains(*s));
                    } else {
                        if sh@.contains(*s) {
                            let j = choose|j: int| 0 <= j < sh@.len() && sh@[j] == *s;
                        }
                    }
                }
                if !shadowed {
                    out.push((*s, *id));
                    proof {
                        assert(out@ =~= old(out)@ + spec_free_occs(
                            self.exp_arena.nodes@,
                            e,
                            sh@,
                        ));
                    }
                } else {
                    proof {
                        assert(out@ =~= old(out)@ + spec_free_occs(
                            self.exp_arena.nodes@,
                            e,
                            sh@,
                        ));
                    }
                }
            },
            _ => {
                let binders = collect_binders(d);
                let mut sh2: Vec<Symbol> = Vec::new();
                let mut k: usize = 0;
                while k < sh.len()
                    invariant
                        k <= sh@.len(),
                        sh2@ == sh@.subrange(0, k as int),
                    decreases sh@.len() - k,
                {
                    sh2.push(sh[k]);
                    proof {
                        assert(sh2@ =~= sh@.subrange(0, k + 1));
                    }
                    k += 1;
                }
                proof {
                    assert(sh@.subrange(0, sh@.len() as int) =~= sh@);
                }
                let mut k2: usize = 0;
                while k2 < binders.len()
                    invariant
                        k2 <= binders@.len(),
                        sh2@ == sh@ + binders@.subrange(0, k2 as int),
                    decreases binders@.len() - k2,
                {
                    sh2.push(binders[k2]);
                    proof {
                        assert(sh2@ =~= sh@ + binders@.subrange(0, k2 + 1));
                    }
                    k2 += 1;
                }
                proof {
                    assert(binders@.subrange(0, binders@.len() as int) =~= binders@);
                }
                let cs = self.exp_arena.collect_children(d);
                self.free_occs_children(&cs, 0, e, &sh2, out);
                proof {
                    assert(spec_children(self.exp_arena.nodes@[e.0 as int]).skip(
                        0,
                    ) =~= spec_children(self.exp_arena.nodes@[e.0 as int]));
                    assert(out@ =~= old(out)@ + spec_free_occs(self.exp_arena.nodes@, e, sh@));
                }
            },
        }
    }

    /// Appends the free occurrences of the trees `es[from..]` under `sh`.
    fn free_occs_children(
        &self,
        es: &Vec<Exp>,
        from: usize,
        parent: Exp,
        sh: &Vec<Symbol>,
        out: &mut Vec<(Symbol, NodeId)>,
    )
        requires
            self.wf(),
            self.exp_arena.has(parent),
            from <= es@.len(),
            seq_bounded(es@, parent.0 as int),
        ensures
            final(out)@ == old(out)@ + spec_free_occs_list(
                self.exp_arena.nodes@,
                es@.skip(from as int),
                parent.0 as int,
                sh@,
            ),
        decreases parent.0, 0int, es@.len() - from,
    {
        if from < es.len() {
            let child = es[from];
            self.free_occs_rec(child, sh, out);
            self.free_occs_children(es, from + 1, parent, sh, out);
            proof {
                assert(es@.skip(from as int).drop_first() =~= es@.skip(from as int + 1));
                assert(es@.skip(from as int)[0] == child);
                assert(out@ =~= old(out)@ + spec_free_occs_list(
                    self.exp_arena.nodes@,
                    es@.skip(from as int),
                    parent.0 as int,
                    sh@,
                ));
            }
        } else {
            proof {
                assert(es@.skip(from as int) =~= Seq::<Exp>::empty());
                assert(out@ =~= old(out)@ + spec_free_occs_list(
                    self.exp_arena.nodes@,
                    es@.skip(from as int),
                    parent.0 as int,
                    sh@,
                ));
            }
        }
    }
}

/// The names bound by a node, as a vector.
fn collect_binders(d: &ExpData) -> (r: Vec<Symbol>)
    ensures
        r@ == node_binders(*d),
{
    let mut out: Vec<Symbol> = Vec::new();
    match d {
        ExpData::Lambda(_, decls, _) | ExpData::Block(_, decls, _) => {
            let mut i: usize = 0;
            while i < decls.len()
                invariant
                    i <= decls@.len(),
                    out@.len() == i,
                    forall|k: int| 0 <= k < i ==> out@[k] == decls@[k].name,
                decreases decls@.len() - i,
            {
                out.push(decls[i].name);
                i += 1;
            }
            proof {
                assert(out@ =~= decls@.map_values(|x: LocalVarDecl| x.name));
            }
        },
        ExpData::Quant(_, _, ranges, _, _, _) => {
            let mut i: usize = 0;
            while i < ranges.len()
                invariant
                    i <= ranges@.len(),
                    out@.len() == i,
                    forall|k: int| 0 <= k < i ==> out@[k] == ranges@[k].0.name,
                decreases ranges@.len() - i,
            {
                out.push(ranges[i].0.name);
                i += 1;
            }
            proof {
                assert(out@ =~= ranges@.map_values(|r: (LocalVarDecl, Exp)| r.0.name));
            }
        },
        _ => {
            proof {
                assert(out@ =~= node_binders(*d));
            }
        },
    }
    out
}

/// Whether a name is already collected.
fn sym_seen(out: &Vec<(Symbol, Type)>, s: Symbol) -> (r: bool)
    ensures
        r == (exists|k: int| 0 <= k < out@.len() && (#[trigger] out@[k]).0 == s),
{
    let mut k: usize = 0;
    while k < out.len()
        invariant
            k <= out@.len(),
            forall|j: int| 0 <= j < k ==> (#[trigger] out@[j]).0 != s,
        decreases out@.len() - k,
    {
        if out[k].0.0 == s.0 {
            proof {
                assert(out@[k as int].0 == s);
            }
            return true;
        }
        k += 1;
    }
    false
}

/// Every node id in a free-occurrence list is allocated.
pub proof fn lemma_free_occs_valid(env: GlobalEnv, e: Exp, sh: Seq<Symbol>)
    requires
        env.wf(),
        env.exp_arena.has(e),
    ensures
        forall|k: int|
            0 <= k < spec_free_occs(env.exp_arena.nodes@, e, sh).len() ==> env.has_node(
                (#[trigger] spec_free_occs(env.exp_arena.nodes@, e, sh)[k]).1,
            ),
    decreases e.0, 1int, 0int,
{
    let nodes = env.exp_arena.nodes@;
    let d = nodes[e.0 as int];
    assert(env.wf_entry(d));
    match d {
        ExpData::LocalVar(id, s) => {
            assert(d.spec_node_id() == id);
            assert forall|k: int|
                0 <= k < spec_free_occs(nodes, e, sh).len() implies env.has_node(
                (#[trigger] spec_free_occs(nodes, e, sh)[k]).1,
            ) by {
                assert(!sh.contains(s));
                assert(spec_free_occs(nodes, e, sh) == seq![(s, id)]);
                assert(spec_free_occs(nodes, e, sh)[0] == (s, id));
                assert(k == 0);
            }
        },
        _ => {
            lemma_children_bounded(d, e.0 as int);
            lemma_free_occs_list_valid(env, spec_children(d), e.0 as int, sh + node_binders(d));
            let lst = spec_free_occs_list(nodes, spec_children(d), e.0 as int, sh + node_binders(d));
            assert(spec_free_occs(nodes, e, sh) == lst);
            assert forall|k: int|
                0 <= k < spec_free_occs(nodes, e, sh).len() implies env.has_node(
                (#[trigger] spec_free_occs(nodes, e, sh)[k]).1,
            ) by {
                assert(spec_free_occs(nodes, e, sh)[k] == lst[k]);
            }
        },
    }
}

proof fn lemma_free_occs_list_valid(env: GlobalEnv, es: Seq<Exp>, bound: int, sh: Seq<Symbol>)
    requires
        env.wf(),
        bound <= env.exp_arena.nodes@.len(),
        seq_bounded(es, bound),
    ensures
        forall|k: int|
            0 <= k < spec_free_occs_list(env.exp_arena.nodes@, es, bound, sh).len()
                ==> env.has_node(
                (#[trigger] spec_free_occs_list(env.exp_arena.nodes@, es, bound, sh)[k]).1,
            ),
    decreases bound, 0int, es.len(),
{
    let nodes = env.exp_arena.nodes@;
    if es.len() == 0 {
    } else if es[0].0 < bound {
        lemma_free_occs_valid(env, es[0], sh);
        assert(seq_bounded(es.drop_first(), bound));
        lemma_free_occs_list_valid(env, es.drop_first(), bound, sh);
        let whole = spec_free_occs_list(nodes, es, bound, sh);
        let head = spec_free_occs(nodes, es[0], sh);
        let rest = spec_free_occs_list(nodes, es.drop_first(), bound, sh);
        assert forall|k: int| 0 <= k < whole.len() implies env.has_node(
            (#[trigger] whole[k]).1,
        ) by {
            if k < head.len() {
                assert(whole[k] == head[k]);
            } else {
                assert(whole[k] == rest[k - head.len()]);
            }
        }
    }
}

// =========================================================================
// Shadowing laws

/// A shadowed name never occurs free: whatever the tree, a symbol among the
/// shadowed names yields no occurrence.
pub proof fn lemma_shadowed_not_free(env: GlobalEnv, e: Exp, sh: Seq<Symbol>, s: Symbol)
    requires
        env.wf(),
        env.exp_arena.has(e),
        sh.contains(s),
    ensures
        !has_sym(spec_free_occs(env.exp_arena.nodes@, e, sh), s),
    decreases e.0, 1int, 0int,
{
    let nodes = env.exp_arena.nodes@;
    let d = nodes[e.0 as int];
    match d {
        ExpData::LocalVar(id, s2) => {
        },
        _ => {
            lemma_children_bounded(d, e.0 as int);
            assert((sh + node_binders(d)).contains(s)) by {
                let j = choose|j: int| 0 <= j < sh.len() && sh[j] == s;
                assert((sh + node_binders(d))[j] == s);
            }
            lemma_shadowed_not_free_list(
                env,
                spec_children(d),
                e.0 as int,
                sh + node_binders(d),
                s,
            );
        },
    }
}

proof fn lemma_shadowed_not_free_list(
    env: GlobalEnv,
    es: Seq<Exp>,
    bound: int,
    sh: Seq<Symbol>,
    s: Symbol,
)
    requires
        env.wf(),
        bound <= env.exp_arena.nodes@.len(),
        seq_bounded(es, bound),
        sh.contains(s),
    ensures
        !has_sym(spec_free_occs_list(env.exp_arena.nodes@, es, bound, sh), s),
    decreases bound, 0int, es.len(),
{
    let nodes = env.exp_arena.nodes@;
    if es.len() == 0 {
    } else if es[0].0 < bound {
        lemma_shadowed_not_free(env, es[0], sh, s);
        assert(seq_bounded(es.drop_first(), bound));
        lemma_shadowed_not_free_list(env, es.drop_first(), bound, sh, s);
        let whole = spec_free_occs_list(nodes, es, bound, sh);
        let head = spec_free_occs(nodes, es[0], sh);
        let rest = spec_free_occs_list(nodes, es.drop_first(), bound, sh);
        if has_sym(whole, s) {
            let k = choose|k: int| 0 <= k < whole.len() && (#[trigger] whole[k]).0 == s;
            if k < head.len() {
                assert(whole[k] == head[k]);
                assert(has_sym(head, s));
            } else {
                assert(whole[k] == rest[k - head.len()]);
                assert(has_sym(rest, s));
            }
        }
    }
}

/// A symbol bound at the root of an expression — for instance by either of
/// two nested quantifiers re-binding the same name — never appears among
/// its free variables, including after deduplication.
pub proof fn lemma_bound_symbol_not_free(env: GlobalEnv, e: Exp, s: Symbol)
    requires
        env.wf(),
        env.exp_arena.has(e),
        node_binders(env.exp_arena.nodes@[e.0 as int]).contains(s),
        !(env.exp_arena.nodes@[e.0 as int] matches ExpData::LocalVar(_, _)),
    ensures
        !has_sym(spec_free_occs(env.exp_arena.nodes@, e, Seq::empty()), s),
        !has_sym(dedup_occs(spec_free_occs(env.exp_arena.nodes@, e, Seq::empty())), s),
{
    let nodes = env.exp_arena.nodes@;
    let d = nodes[e.0 as int];
    lemma_children_bounded(d, e.0 as int);
    let sh2 = Seq::<Symbol>::empty() + node_binders(d);
    assert(sh2.contains(s)) by {
        let j = choose|j: int| 0 <= j < node_binders(d).len() && node_binders(d)[j] == s;
        assert(sh2[j] == s);
    }
    lemma_shadowed_not_free_list(env, spec_children(d), e.0 as int, sh2, s);
    lemma_dedup_no_new_sym(spec_free_occs(nodes, e, Seq::empty()), s);
}

/// Deduplication introduces no name that was not there.
pub proof fn lemma_dedup_no_new_sym(occs: Seq<(Symbol, NodeId)>, s: Symbol)
    requires
        !has_sym(occs, s),
    ensures
        !has_sym(dedup_occs(occs), s),
    decreases occs,
{
    if occs.len() > 0 {
        assert(!has_sym(occs.drop_last(), s)) by {
            if has_sym(occs.drop_last(), s) {
                let k = choose|k: int|
                    0 <= k < occs.drop_last().len() && (#[trigger] occs.drop_last()[k]).0 == s;
                assert(occs[k].0 == s);
            }
        }
        lemma_dedup_no_new_sym(occs.drop_last(), s);
        let p = dedup_occs(occs.drop_last());
        if !has_sym(p, occs.last().0) {
            assert(occs.last().0 != s) by {
                assert(occs[occs.len() - 1] == occs.last());
            }
            if has_sym(p.push(occs.last()), s) {
                let k = choose|k: int|
                    0 <= k < p.push(occs.last()).len() && (#[trigger] p.push(occs.last())[k]).0
                        == s;
                if k < p.len() {
                    assert(p[k].0 == s);
                }
            }
        }
    }
}

} // verus!
