//! The rewrite engine: replaces sub-expressions while descending correctly
//! and regenerating identifiers.
//!
//! A rewriter is asked once per node; handing back a replacement
//! short-circuits descent into that subtree, declining makes the engine
//! rewrite the children and reconstruct the node, re-interned. A parallel
//! node-id hook can replace only the attribute-table key — to apply a type
//! instantiation, say — without altering structure.
//!
//! The engine's contract carries the rewrite-identity law: under a rewriter
//! that always declines and never changes an id (`inert`), the result is
//! the very handle that went in — in an interned arena, the structurally
//! equal tree is the same tree.

use vstd::prelude::*;
use crate::ast::{children_bounded, data_eq, triggers_view, Exp, ExpData, LocalVarDecl};
use crate::ids::NodeId;
use crate::model::GlobalEnv;

verus! {

/// The hooks of a rewrite. Implementations that never change anything set
/// `inert`; the engine then guarantees the identity law.
pub trait ExpRewriterFunctions: Sized {
    /// Whether this rewriter never changes anything.
    spec fn inert(&self) -> bool;

    /// What the rewriter answers when asked about a node, as a function of
    /// its own state and the model at the time of asking.
    spec fn spec_custom(&self, env: GlobalEnv, e: Exp) -> Option<Exp>;

    /// Asked once per node before descent. A replacement stops descent into
    /// the node; declining lets the engine descend.
    fn rewrite_exp_custom(&mut self, env: &mut GlobalEnv, e: Exp) -> (r: Option<Exp>)
        requires
            old(env).wf(),
            old(env).exp_arena.has(e),
        ensures
            final(env).wf(),
            crate::model::env_extends(*final(env), *old(env)),
            r == old(self).spec_custom(*old(env), e),
            match r {
                Option::Some(e2) => final(env).exp_arena.has(e2),
                Option::None => true,
            },
            old(self).inert() ==> final(self).inert() && r is None && final(env).exp_arena.nodes@ == old(env).exp_arena.nodes@ && final(env).node_types@ == old(env).node_types@ && final(env).node_insts@ == old(env).node_insts@,
    ;

    /// Asked for each node the engine reconstructs; a replacement id moves
    /// the node to another attribute-table entry.
    fn rewrite_node_id(&mut self, env: &mut GlobalEnv, id: NodeId) -> (r: Option<NodeId>)
        requires
            old(env).wf(),
            old(env).has_node(id),
        ensures
            final(env).wf(),
            crate::model::env_extends(*final(env), *old(env)),
            final(env).exp_arena.nodes@ == old(env).exp_arena.nodes@,
            match r {
                Option::Some(id2) => final(env).has_node(id2) && (old(env).inst_head_ok(id)
                    ==> final(env).inst_head_ok(id2)),
                Option::None => true,
            },
            old(self).inert() ==> final(self).inert() && r is None && final(env).node_types@
                == old(env).node_types@ && final(env).node_insts@ == old(env).node_insts@,
    ;
}

/// A rewriter that always declines and never changes an id.
pub struct DeclineRewriter;

impl ExpRewriterFunctions for DeclineRewriter {
    open spec fn inert(&self) -> bool {
        true
    }

    open spec fn spec_custom(&self, env: GlobalEnv, e: Exp) -> Option<Exp> {
        Option::None
    }

    fn rewrite_exp_custom(&mut self, env: &mut GlobalEnv, e: Exp) -> (r: Option<Exp>) {
        proof {
            crate::model::lemma_env_extends_refl(*env);
        }
        Option::None
    }

    fn rewrite_node_id(&mut self, env: &mut GlobalEnv, id: NodeId) -> (r: Option<NodeId>) {
        proof {
            crate::model::lemma_env_extends_refl(*env);
        }
        Option::None
    }
}

/// A rewriter that applies a type instantiation through the node-id hook:
/// structure stays, but every reconstructed node whose type or
/// instantiation mentions a type parameter moves to a freshly instantiated
/// attribute entry.
pub struct NodeInstantiator {
    pub targs: Vec<crate::ty::Type>,
}

impl ExpRewriterFunctions for NodeInstantiator {
    open spec fn inert(&self) -> bool {
        false
    }

    open spec fn spec_custom(&self, env: GlobalEnv, e: Exp) -> Option<Exp> {
        Option::None
    }

    fn rewrite_exp_custom(&mut self, env: &mut GlobalEnv, e: Exp) -> (r: Option<Exp>) {
        proof {
            crate::model::lemma_env_extends_refl(*env);
        }
        Option::None
    }

    fn rewrite_node_id(&mut self, env: &mut GlobalEnv, id: NodeId) -> (r: Option<NodeId>) {
        let r = env.instantiate_node(id, &self.targs);
        proof {
            assert(old(env).exp_arena.nodes@.is_prefix_of(env.exp_arena.nodes@)) by {
                assert(old(env).exp_arena.nodes@ =~= env.exp_arena.nodes@.subrange(
                    0,
                    old(env).exp_arena.nodes@.len() as int,
                ));
            }
            assert(crate::model::env_extends(*env, *old(env)));
        }
        r
    }
}

/// Rewrites the tree at `e` with the given rewriter. Under an inert
/// rewriter the result is `e` itself and nothing is added — the
/// rewrite-identity law.
pub fn rewrite_exp<R: ExpRewriterFunctions>(rw: &mut R, env: &mut GlobalEnv, e: Exp) -> (res: Exp)
    requires
        old(env).wf(),
        old(env).exp_arena.has(e),
    ensures
        final(env).wf(),
        crate::model::env_extends(*final(env), *old(env)),
        final(env).exp_arena.has(res),
        old(rw).spec_custom(*old(env), e) matches Option::Some(e2) ==> res == e2,
        old(rw).inert() ==> final(rw).inert() && res == e && final(env).exp_arena.nodes@ == old(env).exp_arena.nodes@ && final(env).node_types@ == old(env).node_types@ && final(env).node_insts@ == old(env).node_insts@,
    decreases e.0, 1int, 0int,
{
    match rw.rewrite_exp_custom(env, e) {
        Option::Some(e2) => e2,
        Option::None => {
            let d = {
                let dr = env.exp_arena.data_of(e);
                dr.clone_data()
            };
            let ghost orig = env.exp_arena.nodes@[e.0 as int];
            proof {
                assert(orig == old(env).exp_arena.nodes@[e.0 as int]);
                assert(old(env).wf_entry(orig));
                assert(children_bounded(orig, e.0 as int));
                assert(env.wf_entry(orig));
            }
            match d {
                ExpData::Invalid(id) => {
                    proof {
                        match orig {
                            ExpData::Invalid(oid) => {
                                assert(oid == id);
                            },
                            _ => {
                                assert(false);
                            },
                        }
                    }
                    let ghost env1 = *env;
                    match rw.rewrite_node_id(env, id) {
                        Option::Some(id2) => {
                            let ghost env2 = *env;
                            let res2 = env.add_exp(ExpData::Invalid(id2));
                            proof {
                                assert(crate::model::env_extends(*env, env2));
                                crate::model::lemma_env_extends_trans(env1, env2, *env);
                                crate::model::lemma_env_extends_trans(*old(env), env1, *env);
                            }
                            res2
                        },
                        Option::None => {
                            proof {
                                crate::model::lemma_env_extends_trans(*old(env), env1, *env);
                            }
                            e
                        },
                    }
                },
                ExpData::Value(id, v) => {
                    proof {
                        match orig {
                            ExpData::Value(oid, _) => {
                                assert(oid == id);
                            },
                            _ => {
                                assert(false);
                            },
                        }
                    }
                    let ghost env1 = *env;
                    match rw.rewrite_node_id(env, id) {
                        Option::Some(id2) => {
                            let ghost env2 = *env;
                            let res2 = env.add_exp(ExpData::Value(id2, v));
                            proof {
                                assert(crate::model::env_extends(*env, env2));
                                crate::model::lemma_env_extends_trans(env1, env2, *env);
                                crate::model::lemma_env_extends_trans(*old(env), env1, *env);
                            }
                            res2
                        },
                        Option::None => {
                            proof {
                                crate::model::lemma_env_extends_trans(*old(env), env1, *env);
                            }
                            e
                        },
                    }
                },
                ExpData::LocalVar(id, sym) => {
                    proof {
                        match orig {
                            ExpData::LocalVar(oid, _) => {
                                assert(oid == id);
                            },
                            _ => {
                                assert(false);
                            },
                        }
                    }
                    let ghost env1 = *env;
                    match rw.rewrite_node_id(env, id) {
                        Option::Some(id2) => {
                            let ghost env2 = *env;
                            let res2 = env.add_exp(ExpData::LocalVar(id2, sym));
                            proof {
                                assert(crate::model::env_extends(*env, env2));
                                crate::model::lemma_env_extends_trans(env1, env2, *env);
                                crate::model::lemma_env_extends_trans(*old(env), env1, *env);
                            }
                            res2
                        },
                        Option::None => {
                            proof {
                                crate::model::lemma_env_extends_trans(*old(env), env1, *env);
                            }
                            e
                        },
                    }
                },
                ExpData::Temporary(id, t) => {
                    proof {
                        match orig {
                            ExpData::Temporary(oid, _) => {
                                assert(oid == id);
                            },
                            _ => {
                                assert(false);
                            },
                        }
                    }
                    let ghost env1 = *env;
                    match rw.rewrite_node_id(env, id) {
                        Option::Some(id2) => {
                            let ghost env2 = *env;
                            let res2 = env.add_exp(ExpData::Temporary(id2, t));
                            proof {
                                assert(crate::model::env_extends(*env, env2));
                                crate::model::lemma_env_extends_trans(env1, env2, *env);
                                crate::model::lemma_env_extends_trans(*old(env), env1, *env);
                            }
                            res2
                        },
                        Option::None => {
                            proof {
                                crate::model::lemma_env_extends_trans(*old(env), env1, *env);
                            }
                            e
                        },
                    }
                },
                ExpData::Call(id, oper, args) => {
                    proof {
                        assert(data_eq(orig, ExpData::Call(id, oper, args)));
                        match orig {
                            ExpData::Call(oid, _, oargs) => {
                                assert(oid == id);
                                assert(oargs@ == args@);
                                assert(crate::ast::exps_bounded(args@, e.0 as int));
                            },
                            _ => {
                                assert(false);
                            },
                        }
                    }
                    let ghost env1 = *env;
                    let (new_args, changed) = rewrite_exps(rw, env, &args, e);
                    proof {
                        crate::model::lemma_env_extends_trans(*old(env), env1, *env);
                    }
                    let ghost env_mid = *env;
                    let id2_opt = rw.rewrite_node_id(env, id);
                    proof {
                        crate::model::lemma_env_extends_trans(*old(env), env_mid, *env);
                    }
                    let rebuilt = changed || id2_opt.is_some();
                    if rebuilt {
                        let nid = match id2_opt {
                            Option::Some(x) => x,
                            Option::None => id,
                        };
                        proof {
                            match orig {
                                ExpData::Call(oid, ooper, _) => {
                                    match &oper {
                                        crate::ast::Operation::Exists(_)
                                            | crate::ast::Operation::Global(_) => {
                                            assert(ooper == oper);
                                            assert(old(env).inst_head_ok(id)) by {
                                                assert(old(env).wf_entry(orig));
                                            }
                                            assert(env_mid.inst_head_ok(id)) by {
                                                assert(env_mid.spec_node_inst(id) == old(env).spec_node_inst(id));
                                                assert(env_mid.modules@ == old(env).modules@);
                                            }
                                            match id2_opt {
                                                Option::Some(id2) => {
                                                    assert(env.inst_head_ok(id2));
                                                },
                                                Option::None => {
                                                    assert(env.inst_head_ok(id)) by {
                                                        assert(env.spec_node_inst(id) == old(env).spec_node_inst(id));
                                                        assert(env.modules@ == old(env).modules@);
                                                    }
                                                },
                                            }
                                        },
                                        crate::ast::Operation::Function(fm, ff, fls) => {
                                            match ooper {
                                                crate::ast::Operation::Function(om, of, ols) => {
                                                    assert(om == *fm && of == *ff);
                                                    assert(crate::ast::labels_eq(ols, *fls));
                                                    assert(old(env).wf_entry(orig));
                                                    assert(env.modules@ == old(env).modules@);
                                                },
                                                _ => {
                                                    assert(false);
                                                },
                                            }
                                        },
                                        _ => {},
                                    }
                                },
                                _ => {
                                    assert(false);
                                },
                            }
                            assert(env.wf_entry(ExpData::Call(nid, oper, new_args)));
                        }
                        let ghost env2 = *env;
                        let res2 = env.add_exp(ExpData::Call(nid, oper, new_args));
                        proof {
                            assert(crate::model::env_extends(*env, env2));
                            crate::model::lemma_env_extends_trans(*old(env), env2, *env);
                        }
                        res2
                    } else {
                        e
                    }
                },
                ExpData::Invoke(id, target, args) => {
                    proof {
                        assert(data_eq(orig, ExpData::Invoke(id, target, args)));
                        match orig {
                            ExpData::Invoke(oid, otarget, oargs) => {
                                assert(oid == id);
                                assert(oargs@ == args@);
                                assert(otarget == target);
                                assert(crate::ast::exps_bounded(args@, e.0 as int));
                            },
                            _ => {
                                assert(false);
                            },
                        }
                    }
                    let ghost env1 = *env;
                    let new_target = rewrite_exp(rw, env, target);
                    proof {
                        crate::model::lemma_env_extends_trans(*old(env), env1, *env);
                    }
                    let ghost env2 = *env;
                    let (new_args, args_changed) = rewrite_exps(rw, env, &args, e);
                    proof {
                        crate::model::lemma_env_extends_trans(*old(env), env2, *env);
                    }
                    let ghost env3 = *env;
                    let id2_opt = rw.rewrite_node_id(env, id);
                    proof {
                        crate::model::lemma_env_extends_trans(*old(env), env3, *env);
                    }
                    let rebuilt = new_target != target || args_changed || id2_opt.is_some();
                    if rebuilt {
                        let nid = match id2_opt {
                            Option::Some(x) => x,
                            Option::None => id,
                        };
                        let ghost env4 = *env;
                        let res2 = env.add_exp(ExpData::Invoke(nid, new_target, new_args));
                        proof {
                            assert(crate::model::env_extends(*env, env4));
                            crate::model::lemma_env_extends_trans(*old(env), env4, *env);
                        }
                        res2
                    } else {
                        e
                    }
                },
                ExpData::Lambda(id, decls, body) => {
                    proof {
                        assert(data_eq(orig, ExpData::Lambda(id, decls, body)));
                        match orig {
                            ExpData::Lambda(oid, _, obody) => {
                                assert(oid == id);
                                assert(obody == body);
                            },
                            _ => {
                                assert(false);
                            },
                        }
                    }
                    let ghost env1 = *env;
                    let new_body = rewrite_exp(rw, env, body);
                    proof {
                        crate::model::lemma_env_extends_trans(*old(env), env1, *env);
                    }
                    let ghost env2 = *env;
                    let id2_opt = rw.rewrite_node_id(env, id);
                    proof {
                        crate::model::lemma_env_extends_trans(*old(env), env2, *env);
                    }
                    let rebuilt = new_body != body || id2_opt.is_some();
                    if rebuilt {
                        let nid = match id2_opt {
                            Option::Some(x) => x,
                            Option::None => id,
                        };
                        let ghost env3 = *env;
                        let res2 = env.add_exp(ExpData::Lambda(nid, decls, new_body));
                        proof {
                            assert(crate::model::env_extends(*env, env3));
                            crate::model::lemma_env_extends_trans(*old(env), env3, *env);
                        }
                        res2
                    } else {
                        e
                    }
                },
                ExpData::Quant(id, kind, ranges, triggers, cond, body) => {
                    proof {
                        assert(data_eq(orig, ExpData::Quant(id, kind, ranges, triggers, cond, body)));
                        match orig {
                            ExpData::Quant(oid, _, oranges, otriggers, ocond, obody) => {
                                assert(oid == id);
                                assert(oranges@ == ranges@);
                                assert(triggers_view(otriggers@) == triggers_view(triggers@));
                                assert(ocond == cond);
                                assert(obody == body);
                                assert(triggers_view(otriggers@).len() == otriggers@.len());
                                assert(triggers_view(triggers@).len() == triggers@.len());
                                assert(otriggers@.len() == triggers@.len());
                                assert forall|k: int|
                                    0 <= k < triggers@.len() implies crate::ast::exps_bounded(
                                    #[trigger] triggers_view(triggers@)[k],
                                    e.0 as int,
                                ) by {
                                    assert(crate::ast::exps_bounded(
                                        triggers_view(otriggers@)[k],
                                        e.0 as int,
                                    ));
                                    assert(triggers_view(triggers@)[k] == triggers_view(
                                        otriggers@,
                                    )[k]);
                                }
                            },
                            _ => {
                                assert(false);
                            },
                        }
                    }
                    let ghost env1 = *env;
                    let (new_ranges, ranges_changed) = rewrite_ranges(rw, env, &ranges, e);
                    proof {
                        crate::model::lemma_env_extends_trans(*old(env), env1, *env);
                    }
                    let ghost env2 = *env;
                    let (new_triggers, triggers_changed) = rewrite_triggers(rw, env, &triggers, e);
                    proof {
                        crate::model::lemma_env_extends_trans(*old(env), env2, *env);
                    }
                    let mut cond_changed = false;
                    let new_cond: Option<Exp> = match cond {
                        Option::Some(c) => {
                            let ghost env3 = *env;
                            let c2 = rewrite_exp(rw, env, c);
                            proof {
                                crate::model::lemma_env_extends_trans(*old(env), env3, *env);
                            }
                            if c2 != c {
                                cond_changed = true;
                            }
                            Option::Some(c2)
                        },
                        Option::None => Option::None,
                    };
                    let ghost env4 = *env;
                    let new_body = rewrite_exp(rw, env, body);
                    proof {
                        crate::model::lemma_env_extends_trans(*old(env), env4, *env);
                    }
                    let ghost env5 = *env;
                    let id2_opt = rw.rewrite_node_id(env, id);
                    proof {
                        crate::model::lemma_env_extends_trans(*old(env), env5, *env);
                    }
                    let rebuilt = ranges_changed || triggers_changed || cond_changed || new_body
                        != body || id2_opt.is_some();
                    if rebuilt {
                        let nid = match id2_opt {
                            Option::Some(x) => x,
                            Option::None => id,
                        };
                        let ghost env6 = *env;
                        let res2 = env.add_exp(
                            ExpData::Quant(nid, kind, new_ranges, new_triggers, new_cond, new_body),
                        );
                        proof {
                            assert(crate::model::env_extends(*env, env6));
                            crate::model::lemma_env_extends_trans(*old(env), env6, *env);
                        }
                        res2
                    } else {
                        e
                    }
                },
                ExpData::Block(id, decls, body) => {
                    proof {
                        assert(data_eq(orig, ExpData::Block(id, decls, body)));
                        match orig {
                            ExpData::Block(oid, odecls, obody) => {
                                assert(oid == id);
                                assert(odecls@ == decls@);
                                assert(obody == body);
                            },
                            _ => {
                                assert(false);
                            },
                        }
                    }
                    let ghost env1 = *env;
                    let (new_decls, decls_changed) = rewrite_decls(rw, env, &decls, e);
                    proof {
                        crate::model::lemma_env_extends_trans(*old(env), env1, *env);
                    }
                    let ghost env2 = *env;
                    let new_body = rewrite_exp(rw, env, body);
                    proof {
                        crate::model::lemma_env_extends_trans(*old(env), env2, *env);
                    }
                    let ghost env3 = *env;
                    let id2_opt = rw.rewrite_node_id(env, id);
                    proof {
                        crate::model::lemma_env_extends_trans(*old(env), env3, *env);
                    }
                    let rebuilt = decls_changed || new_body != body || id2_opt.is_some();
                    if rebuilt {
                        let nid = match id2_opt {
                            Option::Some(x) => x,
                            Option::None => id,
                        };
                        let ghost env4 = *env;
                        let res2 = env.add_exp(ExpData::Block(nid, new_decls, new_body));
                        proof {
                            assert(crate::model::env_extends(*env, env4));
                            crate::model::lemma_env_extends_trans(*old(env), env4, *env);
                        }
                        res2
                    } else {
                        e
                    }
                },
                ExpData::IfElse(id, c, t, el) => {
                    proof {
                        assert(data_eq(orig, ExpData::IfElse(id, c, t, el)));
                        match orig {
                            ExpData::IfElse(oid, oc, ot, oel) => {
                                assert(oid == id);
                                assert(oc == c && ot == t && oel == el);
                            },
                            _ => {
                                assert(false);
                            },
                        }
                    }
                    let ghost env1 = *env;
                    let nc = rewrite_exp(rw, env, c);
                    proof {
                        crate::model::lemma_env_extends_trans(*old(env), env1, *env);
                    }
                    let ghost env2 = *env;
                    let nt = rewrite_exp(rw, env, t);
                    proof {
                        crate::model::lemma_env_extends_trans(*old(env), env2, *env);
                    }
                    let ghost env3 = *env;
                    let nel = rewrite_exp(rw, env, el);
                    proof {
                        crate::model::lemma_env_extends_trans(*old(env), env3, *env);
                    }
                    let ghost env4 = *env;
                    let id2_opt = rw.rewrite_node_id(env, id);
                    proof {
                        crate::model::lemma_env_extends_trans(*old(env), env4, *env);
                    }
                    let rebuilt = nc != c || nt != t || nel != el || id2_opt.is_some();
                    if rebuilt {
                        let nid = match id2_opt {
                            Option::Some(x) => x,
                            Option::None => id,
                        };
                        let ghost env5 = *env;
                        let res2 = env.add_exp(ExpData::IfElse(nid, nc, nt, nel));
                        proof {
                            assert(crate::model::env_extends(*env, env5));
                            crate::model::lemma_env_extends_trans(*old(env), env5, *env);
                        }
                        res2
                    } else {
                        e
                    }
                },
            }
        },
    }
}

/// Rewrites each handle of a list lying below `parent`, reporting whether
/// anything changed.
fn rewrite_exps<R: ExpRewriterFunctions>(
    rw: &mut R,
    env: &mut GlobalEnv,
    es: &Vec<Exp>,
    parent: Exp,
) -> (r: (Vec<Exp>, bool))
    requires
        old(env).wf(),
        old(env).exp_arena.has(parent),
        crate::ast::exps_bounded(es@, parent.0 as int),
    ensures
        final(env).wf(),
        crate::model::env_extends(*final(env), *old(env)),
        r.0@.len() == es@.len(),
        forall|k: int| 0 <= k < r.0@.len() ==> final(env).exp_arena.has(#[trigger] r.0@[k]),
        !r.1 ==> r.0@ == es@,
        old(rw).inert() ==> final(rw).inert() && r.0@ == es@ && r.1 == false && final(env).exp_arena.nodes@ == old(env).exp_arena.nodes@ && final(env).node_types@ == old(env).node_types@ && final(env).node_insts@ == old(env).node_insts@,
    decreases parent.0, 0int, 0int,
{
    proof {
        crate::model::lemma_env_extends_refl(*env);
    }
    proof {
        crate::model::lemma_env_extends_refl(*env);
    }
    proof {
        crate::model::lemma_env_extends_refl(*env);
    }
    proof {
        crate::model::lemma_env_extends_refl(*env);
    }
    let ghost init_inert = rw.inert();
    let mut out: Vec<Exp> = Vec::new();
    let mut changed = false;
    let mut i: usize = 0;
    while i < es.len()
        invariant
            env.wf(),
            env.exp_arena.has(parent),
            crate::ast::exps_bounded(es@, parent.0 as int),
            i <= es@.len(),
            out@.len() == i,
            crate::model::env_extends(*env, *old(env)),
            forall|k: int| 0 <= k < i ==> env.exp_arena.has(#[trigger] out@[k]),
            !changed ==> out@ == es@.subrange(0, i as int),
            init_inert == old(rw).inert(),
            init_inert ==> rw.inert() && out@ == es@.subrange(0, i as int) && changed == false
                && env.exp_arena.nodes@ == old(env).exp_arena.nodes@ && env.node_types@ == old(env).node_types@ && env.node_insts@ == old(env).node_insts@,
        decreases es@.len() - i,
    {
        let child = es[i];
        proof {
            assert(es@[i as int].0 < parent.0);
        }
        let ghost envp = *env;
        let c2 = rewrite_exp(rw, env, child);
        proof {
            crate::model::lemma_env_extends_trans(*old(env), envp, *env);
        }
        if c2 != child {
            changed = true;
        }
        out.push(c2);
        proof {
            if !changed {
                assert(out@ =~= es@.subrange(0, i + 1));
            }
        }
        i += 1;
    }
    proof {
        assert(es@.subrange(0, es@.len() as int) =~= es@);
    }
    (out, changed)
}

/// Rewrites the binding of each binder of a list, reporting whether
/// anything changed.
fn rewrite_decls<R: ExpRewriterFunctions>(
    rw: &mut R,
    env: &mut GlobalEnv,
    ds: &Vec<LocalVarDecl>,
    parent: Exp,
) -> (r: (Vec<LocalVarDecl>, bool))
    requires
        old(env).wf(),
        old(env).exp_arena.has(parent),
        crate::ast::decls_bounded(ds@, parent.0 as int),
    ensures
        final(env).wf(),
        crate::model::env_extends(*final(env), *old(env)),
        r.0@.len() == ds@.len(),
        crate::ast::decls_bounded(r.0@, final(env).exp_arena.nodes@.len() as int),
        !r.1 ==> r.0@ == ds@,
        old(rw).inert() ==> final(rw).inert() && r.0@ == ds@ && r.1 == false && final(env).exp_arena.nodes@ == old(env).exp_arena.nodes@ && final(env).node_types@ == old(env).node_types@ && final(env).node_insts@ == old(env).node_insts@,
    decreases parent.0, 0int, 0int,
{
    let ghost init_inert = rw.inert();
    let mut out: Vec<LocalVarDecl> = Vec::new();
    let mut changed = false;
    let mut i: usize = 0;
    while i < ds.len()
        invariant
            env.wf(),
            env.exp_arena.has(parent),
            crate::ast::decls_bounded(ds@, parent.0 as int),
            i <= ds@.len(),
            out@.len() == i,
            crate::model::env_extends(*env, *old(env)),
            crate::ast::decls_bounded(out@, env.exp_arena.nodes@.len() as int),
            !changed ==> out@ == ds@.subrange(0, i as int),
            init_inert == old(rw).inert(),
            init_inert ==> rw.inert() && out@ == ds@.subrange(0, i as int) && changed == false
                && env.exp_arena.nodes@ == old(env).exp_arena.nodes@ && env.node_types@ == old(env).node_types@ && env.node_insts@ == old(env).node_insts@,
        decreases ds@.len() - i,
    {
        let dcl = ds[i];
        let new_dcl: LocalVarDecl = match dcl.binding {
            Option::Some(b) => {
                proof {
                    assert(ds@[i as int].binding == Option::Some(b));
                }
                let ghost envp = *env;
                let b2 = rewrite_exp(rw, env, b);
                proof {
                    crate::model::lemma_env_extends_trans(*old(env), envp, *env);
                }
                if b2 != b {
                    changed = true;
                }
                LocalVarDecl { id: dcl.id, name: dcl.name, binding: Option::Some(b2) }
            },
            Option::None => dcl,
        };
        out.push(new_dcl);
        proof {
            if !changed {
                assert(out@ =~= ds@.subrange(0, i + 1));
            }
        }
        i += 1;
    }
    proof {
        assert(ds@.subrange(0, ds@.len() as int) =~= ds@);
    }
    (out, changed)
}

/// Rewrites each range of a quantifier (binding, then domain), reporting
/// whether anything changed.
fn rewrite_ranges<R: ExpRewriterFunctions>(
    rw: &mut R,
    env: &mut GlobalEnv,
    rs: &Vec<(LocalVarDecl, Exp)>,
    parent: Exp,
) -> (r: (Vec<(LocalVarDecl, Exp)>, bool))
    requires
        old(env).wf(),
        old(env).exp_arena.has(parent),
        forall|k: int|
            0 <= k < rs@.len() ==> {
                &&& match (#[trigger] rs@[k]).0.binding {
                    Option::Some(b) => b.0 < parent.0,
                    Option::None => true,
                }
                &&& rs@[k].1.0 < parent.0
            },
    ensures
        final(env).wf(),
        crate::model::env_extends(*final(env), *old(env)),
        r.0@.len() == rs@.len(),
        forall|k: int|
            0 <= k < r.0@.len() ==> {
                &&& match (#[trigger] r.0@[k]).0.binding {
                    Option::Some(b) => b.0 < final(env).exp_arena.nodes@.len(),
                    Option::None => true,
                }
                &&& r.0@[k].1.0 < final(env).exp_arena.nodes@.len()
            },
        !r.1 ==> r.0@ == rs@,
        old(rw).inert() ==> final(rw).inert() && r.0@ == rs@ && r.1 == false && final(env).exp_arena.nodes@ == old(env).exp_arena.nodes@ && final(env).node_types@ == old(env).node_types@ && final(env).node_insts@ == old(env).node_insts@,
    decreases parent.0, 0int, 0int,
{
    let ghost init_inert = rw.inert();
    let mut out: Vec<(LocalVarDecl, Exp)> = Vec::new();
    let mut changed = false;
    let mut i: usize = 0;
    while i < rs.len()
        invariant
            env.wf(),
            env.exp_arena.has(parent),
            forall|k: int|
                0 <= k < rs@.len() ==> {
                    &&& match (#[trigger] rs@[k]).0.binding {
                        Option::Some(b) => b.0 < parent.0,
                        Option::None => true,
                    }
                    &&& rs@[k].1.0 < parent.0
                },
            i <= rs@.len(),
            out@.len() == i,
            crate::model::env_extends(*env, *old(env)),
            forall|k: int|
                0 <= k < i ==> {
                    &&& match (#[trigger] out@[k]).0.binding {
                        Option::Some(b) => b.0 < env.exp_arena.nodes@.len(),
                        Option::None => true,
                    }
                    &&& out@[k].1.0 < env.exp_arena.nodes@.len()
                },
            !changed ==> out@ == rs@.subrange(0, i as int),
            init_inert == old(rw).inert(),
            init_inert ==> rw.inert() && out@ == rs@.subrange(0, i as int) && changed == false
                && env.exp_arena.nodes@ == old(env).exp_arena.nodes@ && env.node_types@ == old(env).node_types@ && env.node_insts@ == old(env).node_insts@,
        decreases rs@.len() - i,
    {
        let (dcl, dom) = rs[i];
        proof {
            assert(rs@[i as int] == (dcl, dom));
        }
        let new_dcl: LocalVarDecl = match dcl.binding {
            Option::Some(b) => {
                let ghost envp = *env;
                let b2 = rewrite_exp(rw, env, b);
                proof {
                    crate::model::lemma_env_extends_trans(*old(env), envp, *env);
                }
                if b2 != b {
                    changed = true;
                }
                LocalVarDecl { id: dcl.id, name: dcl.name, binding: Option::Some(b2) }
            },
            Option::None => dcl,
        };
        let ghost envq = *env;
        let new_dom = rewrite_exp(rw, env, dom);
        proof {
            crate::model::lemma_env_extends_trans(*old(env), envq, *env);
        }
        if new_dom != dom {
            changed = true;
        }
        out.push((new_dcl, new_dom));
        proof {
            if !changed {
                assert(out@ =~= rs@.subrange(0, i + 1));
            }
        }
        i += 1;
    }
    proof {
        assert(rs@.subrange(0, rs@.len() as int) =~= rs@);
    }
    (out, changed)
}

/// Rewrites each expression of each trigger group, reporting whether
/// anything changed.
fn rewrite_triggers<R: ExpRewriterFunctions>(
    rw: &mut R,
    env: &mut GlobalEnv,
    ts: &Vec<Vec<Exp>>,
    parent: Exp,
) -> (r: (Vec<Vec<Exp>>, bool))
    requires
        old(env).wf(),
        old(env).exp_arena.has(parent),
        forall|k: int|
            0 <= k < ts@.len() ==> crate::ast::exps_bounded(
                #[trigger] triggers_view(ts@)[k],
                parent.0 as int,
            ),
    ensures
        final(env).wf(),
        crate::model::env_extends(*final(env), *old(env)),
        r.0@.len() == ts@.len(),
        forall|k: int|
            0 <= k < r.0@.len() ==> crate::ast::exps_bounded(
                #[trigger] triggers_view(r.0@)[k],
                final(env).exp_arena.nodes@.len() as int,
            ),
        !r.1 ==> triggers_view(r.0@) == triggers_view(ts@),
        old(rw).inert() ==> final(rw).inert() && triggers_view(r.0@) == triggers_view(ts@) && r.1
            == false && final(env).exp_arena.nodes@ == old(env).exp_arena.nodes@ && final(env).node_types@ == old(env).node_types@ && final(env).node_insts@ == old(env).node_insts@,
    decreases parent.0, 0int, 1int,
{
    let ghost init_inert = rw.inert();
    let mut out: Vec<Vec<Exp>> = Vec::new();
    let mut changed = false;
    let mut i: usize = 0;
    while i < ts.len()
        invariant
            env.wf(),
            env.exp_arena.has(parent),
            forall|k: int|
                0 <= k < ts@.len() ==> crate::ast::exps_bounded(
                    #[trigger] triggers_view(ts@)[k],
                    parent.0 as int,
                ),
            i <= ts@.len(),
            out@.len() == i,
            crate::model::env_extends(*env, *old(env)),
            forall|k: int|
                0 <= k < i ==> crate::ast::exps_bounded(
                    #[trigger] triggers_view(out@)[k],
                    env.exp_arena.nodes@.len() as int,
                ),
            !changed ==> triggers_view(out@) == triggers_view(ts@).subrange(0, i as int),
            init_inert == old(rw).inert(),
            init_inert ==> rw.inert() && triggers_view(out@) == triggers_view(ts@).subrange(
                0,
                i as int,
            ) && changed == false && env.exp_arena.nodes@ == old(env).exp_arena.nodes@
                && env.node_types@ == old(env).node_types@ && env.node_insts@ == old(env).node_insts@,
        decreases ts@.len() - i,
    {
        let ghost len0 = env.exp_arena.nodes@.len();
        proof {
            assert(triggers_view(ts@)[i as int] == ts@[i as int]@);
        }
        let ghost envp = *env;
        let (group, group_changed) = rewrite_exps(rw, env, &ts[i], parent);
        proof {
            crate::model::lemma_env_extends_trans(*old(env), envp, *env);
        }
        if group_changed {
            changed = true;
        }
        let ghost groupv = group@;
        let ghost out0 = out@;
        out.push(group);
        proof {
            assert(triggers_view(out@)[i as int] == groupv);
            assert forall|k: int|
                0 <= k < i + 1 implies crate::ast::exps_bounded(
                #[trigger] triggers_view(out@)[k],
                env.exp_arena.nodes@.len() as int,
            ) by {
                let cur_len = env.exp_arena.nodes@.len() as int;
                if k < i {
                    assert(out@[k] == out0[k]);
                    assert(triggers_view(out@)[k] == triggers_view(out0)[k]);
                    assert(crate::ast::exps_bounded(triggers_view(out0)[k], len0 as int));
                    assert(len0 <= cur_len);
                    assert forall|j: int|
                        0 <= j < triggers_view(out@)[k].len() implies (#[trigger] triggers_view(
                        out@,
                    )[k][j]).0 < cur_len by {
                        assert(triggers_view(out0)[k][j].0 < len0);
                    }
                } else {
                    assert(forall|j: int|
                        0 <= j < groupv.len() ==> env.exp_arena.has(#[trigger] groupv[j]));
                }
            }
            if !changed {
                assert(triggers_view(out@) =~= triggers_view(ts@).subrange(0, i + 1));
            }
            if init_inert {
                assert(triggers_view(out@) =~= triggers_view(ts@).subrange(0, i + 1));
            }
        }
        i += 1;
    }
    proof {
        assert(triggers_view(ts@).subrange(0, ts@.len() as int) =~= triggers_view(ts@));
    }
    (out, changed)
}

} // verus!
