//! The expression model: interning, traversal, free variables under
//! shadowing, purity, used memory, rewriting and ghost-memory extraction.

use usage_analysis::ast::{Exp, ExpData, LocalVarDecl, Operation, QuantKind, Value};
use usage_analysis::ids::{Loc, NodeId, Symbol};
use usage_analysis::model::GlobalEnv;
use usage_analysis::rewrite::{rewrite_exp, DeclineRewriter, NodeInstantiator};
use usage_analysis::ty::Type;

fn loc() -> Loc {
    Loc { file_id: 0, span_start: 0, span_end: 0 }
}

/// A model with one module `m` holding struct `R` and a spec function `sf`
/// whose declared used memory is `{R}`.
fn env_with_module() -> (GlobalEnv, usage_analysis::ids::ModuleId, usage_analysis::ids::StructId) {
    let mut env = GlobalEnv::new();
    let m_sym = env.symbol_pool.make("m");
    let mid = env.add_module(usage_analysis::ast::ModuleName::new(1, m_sym));
    let r_sym = env.symbol_pool.make("R");
    let sid = env.add_struct(mid, r_sym, Vec::new());
    (env, mid, sid)
}

fn num_node(env: &mut GlobalEnv) -> NodeId {
    env.new_node(loc(), Type::Num)
}

#[test]
fn interning_is_canonical() {
    let mut env = GlobalEnv::new();
    let id = num_node(&mut env);
    let e1 = env.add_exp(ExpData::Value(id, Value::Number(1)));
    let e2 = env.add_exp(ExpData::Value(id, Value::Number(1)));
    assert!(ExpData::ptr_eq(e1, e2));
    let e3 = env.add_exp(ExpData::Value(id, Value::Number(2)));
    assert!(!ExpData::ptr_eq(e1, e3));
}

#[test]
fn visit_pre_post_order_is_fixed() {
    let mut env = GlobalEnv::new();
    let id1 = num_node(&mut env);
    let id2 = num_node(&mut env);
    let id3 = num_node(&mut env);
    let a = env.add_exp(ExpData::Value(id1, Value::Number(1)));
    let b = env.add_exp(ExpData::Value(id2, Value::Number(2)));
    let root = env.add_exp(ExpData::Call(id3, Operation::Add, vec![a, b]));
    let events = env.exp_arena.visit_pre_post(root);
    assert_eq!(
        events,
        vec![(false, root), (false, a), (true, a), (false, b), (true, b), (true, root)]
    );
    let po = env.exp_arena.visit(root);
    assert_eq!(po, vec![a, b, root]);
    let ids = env.exp_arena.node_ids(root);
    assert_eq!(ids, vec![id1, id2, id3]);
}

#[test]
fn temporaries_are_deduplicated_in_order() {
    let mut env = GlobalEnv::new();
    let id1 = num_node(&mut env);
    let id2 = num_node(&mut env);
    let id3 = num_node(&mut env);
    let t0a = env.add_exp(ExpData::Temporary(id1, 7));
    let t1 = env.add_exp(ExpData::Temporary(id2, 3));
    let t0b = env.add_exp(ExpData::Temporary(id1, 7));
    assert!(ExpData::ptr_eq(t0a, t0b));
    let idr = num_node(&mut env);
    let root = env.add_exp(ExpData::Call(idr, Operation::Tuple, vec![t0a, t1, t0b]));
    let temps = env.exp_arena.temporaries(root, &env);
    assert_eq!(temps.len(), 2);
    assert_eq!(temps[0].0, 7);
    assert_eq!(temps[1].0, 3);
}

#[test]
fn quantifier_traversal_order() {
    // Binder binding, then domain, then triggers, then filter, then body.
    let mut env = GlobalEnv::new();
    let x = env.symbol_pool.make("x");
    let id_b = num_node(&mut env);
    let binding = env.add_exp(ExpData::Value(id_b, Value::Number(1)));
    let id_d = num_node(&mut env);
    let dom = env.add_exp(ExpData::Value(id_d, Value::Number(2)));
    let id_t = num_node(&mut env);
    let trig = env.add_exp(ExpData::Value(id_t, Value::Number(3)));
    let id_w = num_node(&mut env);
    let filter = env.add_exp(ExpData::Value(id_w, Value::Bool(true)));
    let id_body = num_node(&mut env);
    let body = env.add_exp(ExpData::Value(id_body, Value::Number(4)));
    let decl = LocalVarDecl { id: num_node(&mut env), name: x, binding: Some(binding) };
    let id_q = num_node(&mut env);
    let q = env.add_exp(ExpData::Quant(
        id_q,
        QuantKind::Exists,
        vec![(decl, dom)],
        vec![vec![trig]],
        Some(filter),
        body,
    ));
    let events = env.exp_arena.visit_pre_post(q);
    let downs: Vec<_> = events.iter().filter(|(up, _)| !up).map(|(_, e)| *e).collect();
    assert_eq!(downs, vec![q, binding, dom, trig, filter, body]);
}

#[test]
fn call_args_and_node_id() {
    let mut env = GlobalEnv::new();
    let id1 = num_node(&mut env);
    let a = env.add_exp(ExpData::Value(id1, Value::Bool(true)));
    let id2 = num_node(&mut env);
    let d = ExpData::Call(id2, Operation::Not, vec![a]);
    assert_eq!(d.node_id(), id2);
    assert_eq!(d.call_args(), &vec![a]);
}

/// Builds `forall x: D . forall x: D . x`, with both quantifiers binding
/// the same symbol.
fn nested_same_symbol(env: &mut GlobalEnv, x: Symbol) -> Exp {
    let id_dom1 = num_node(env);
    let dom1 = env.add_exp(ExpData::Value(id_dom1, Value::Number(0)));
    let id_x = num_node(env);
    let body = env.add_exp(ExpData::LocalVar(id_x, x));
    let id_q2 = num_node(env);
    let decl_inner = LocalVarDecl { id: num_node(env), name: x, binding: None };
    let inner = env.add_exp(ExpData::Quant(
        id_q2,
        QuantKind::Forall,
        vec![(decl_inner, dom1)],
        vec![],
        None,
        body,
    ));
    let id_dom2 = num_node(env);
    let dom2 = env.add_exp(ExpData::Value(id_dom2, Value::Number(0)));
    let id_q1 = num_node(env);
    let decl_outer = LocalVarDecl { id: num_node(env), name: x, binding: None };
    env.add_exp(ExpData::Quant(
        id_q1,
        QuantKind::Forall,
        vec![(decl_outer, dom2)],
        vec![],
        None,
        inner,
    ))
}

#[test]
fn shadowing_rebinding_leaves_no_free_entry() {
    let mut env = GlobalEnv::new();
    let x = env.symbol_pool.make("x");
    let e = nested_same_symbol(&mut env, x);
    let fv = env.free_vars(e);
    assert!(fv.iter().all(|(s, _)| *s != x));
    assert_eq!(fv.len(), 0);
}

#[test]
fn symbol_used_only_under_inner_binder_is_not_free() {
    let mut env = GlobalEnv::new();
    let x = env.symbol_pool.make("x");
    let y = env.symbol_pool.make("y");
    // forall y: D . (forall x: D . x)
    let id_dom1 = num_node(&mut env);
    let dom1 = env.add_exp(ExpData::Value(id_dom1, Value::Number(0)));
    let id_x = num_node(&mut env);
    let body = env.add_exp(ExpData::LocalVar(id_x, x));
    let id_q2 = num_node(&mut env);
    let dx = LocalVarDecl { id: num_node(&mut env), name: x, binding: None };
    let inner = env.add_exp(ExpData::Quant(
        id_q2,
        QuantKind::Forall,
        vec![(dx, dom1)],
        vec![],
        None,
        body,
    ));
    let id_dom2 = num_node(&mut env);
    let dom2 = env.add_exp(ExpData::Value(id_dom2, Value::Number(0)));
    let id_q1 = num_node(&mut env);
    let dy = LocalVarDecl { id: num_node(&mut env), name: y, binding: None };
    let outer = env.add_exp(ExpData::Quant(
        id_q1,
        QuantKind::Forall,
        vec![(dy, dom2)],
        vec![],
        None,
        inner,
    ));
    let fv = env.free_vars(outer);
    assert!(fv.iter().all(|(s, _)| *s != x));
    assert!(fv.iter().all(|(s, _)| *s != y));
}

#[test]
fn unbound_variable_is_free_with_its_type() {
    let mut env = GlobalEnv::new();
    let z = env.symbol_pool.make("z");
    let id_z = env.new_node(loc(), Type::Bool);
    let e = env.add_exp(ExpData::LocalVar(id_z, z));
    let fv = env.free_vars(e);
    assert_eq!(fv.len(), 1);
    assert_eq!(fv[0].0, z);
    assert!(fv[0].1.type_eq(&Type::Bool));
}

#[test]
fn purity_of_arithmetic_memory_and_spec_fun_calls() {
    let (mut env, mid, sid) = env_with_module();
    // A pure arithmetic expression over a local variable.
    let z = env.symbol_pool.make("z");
    let id1 = num_node(&mut env);
    let v = env.add_exp(ExpData::Value(id1, Value::Number(1)));
    let id2 = num_node(&mut env);
    let lv = env.add_exp(ExpData::LocalVar(id2, z));
    let id3 = num_node(&mut env);
    let arith = env.add_exp(ExpData::Call(id3, Operation::Add, vec![v, lv]));
    assert!(env.is_pure(arith));

    // Wrapping it in a call to a spec function with non-empty used memory
    // renders it impure.
    let sf_sym = env.symbol_pool.make("sf");
    let decl = usage_analysis::ast::SpecFunDecl {
        loc: loc(),
        name: sf_sym,
        type_params: Vec::new(),
        params: Vec::new(),
        context_params: None,
        result_type: Type::Bool,
        used_memory: vec![usage_analysis::ty::QualifiedInstId {
            module_id: mid,
            inst: Vec::new(),
            id: sid,
        }],
        uninterpreted: false,
        is_move_fun: false,
        is_native: false,
        body: None,
    };
    let sfid = env.add_spec_fun(mid, decl);
    let id4 = num_node(&mut env);
    let wrapped = env.add_exp(ExpData::Call(id4, Operation::Function(mid, sfid, None), vec![
        arith,
    ]));
    assert!(!env.is_pure(wrapped));
    assert!(!env.uses_memory(wrapped));

    // Direct use of the global-read operation is always impure.
    let id5 = num_node(&mut env);
    env.set_node_instantiation(id5, vec![Type::Struct(mid, sid, Vec::new())]);
    let id_addr = num_node(&mut env);
    let addr = env.add_exp(ExpData::Value(id_addr, Value::Address(1)));
    let glob = env.add_exp(ExpData::Call(id5, Operation::Global(None), vec![addr]));
    assert!(!env.is_pure(glob));
    assert!(!env.uses_memory(glob));
}

#[test]
fn used_memory_collects_memory_operations_and_spec_fun_memory() {
    let (mut env, mid, sid) = env_with_module();
    let id = num_node(&mut env);
    env.set_node_instantiation(id, vec![Type::Struct(mid, sid, Vec::new())]);
    let ex = env.add_exp(ExpData::Call(id, Operation::Exists(None), vec![]));
    let um = env.used_memory(ex);
    assert_eq!(um.len(), 1);
    assert_eq!(um[0].0.module_id, mid);
    assert_eq!(um[0].0.id, sid);
    assert_eq!(um[0].1, None);
}

#[test]
fn module_usage_collects_operation_modules() {
    let (mut env, mid, sid) = env_with_module();
    let id1 = num_node(&mut env);
    let v = env.add_exp(ExpData::Value(id1, Value::Number(1)));
    let id2 = num_node(&mut env);
    let packed = env.add_exp(ExpData::Call(id2, Operation::Pack(mid, sid), vec![v]));
    let usage = env.exp_arena.module_usage(packed);
    assert_eq!(usage, vec![mid]);
}

#[test]
fn rewrite_with_declining_rewriter_is_identity() {
    let mut env = GlobalEnv::new();
    let x = env.symbol_pool.make("x");
    let e = nested_same_symbol(&mut env, x);
    let arena_len = env.exp_arena.len();
    let mut rw = DeclineRewriter;
    let r = rewrite_exp(&mut rw, &mut env, e);
    assert!(ExpData::ptr_eq(r, e));
    assert_eq!(env.exp_arena.len(), arena_len);
}

#[test]
fn node_instantiation_rewrites_ids_but_not_structure() {
    let mut env = GlobalEnv::new();
    // A temporary whose node type is the type parameter #0.
    let id = env.new_node(loc(), Type::Param(0));
    let e = env.add_exp(ExpData::Temporary(id, 4));
    let mut rw = NodeInstantiator { targs: vec![Type::Bool] };
    let r = rewrite_exp(&mut rw, &mut env, e);
    assert!(!ExpData::ptr_eq(r, e));
    match env.exp_arena.data_of(r) {
        ExpData::Temporary(id2, idx) => {
            assert_eq!(*idx, 4);
            assert!(env.get_node_type(*id2).type_eq(&Type::Bool));
        }
        _ => panic!("structure changed"),
    }
}

#[test]
fn instantiate_node_without_change_keeps_the_node() {
    let mut env = GlobalEnv::new();
    let id = env.new_node(loc(), Type::Bool);
    assert_eq!(env.instantiate_node(id, &vec![Type::Num]), None);
    assert_eq!(env.instantiate_node(id, &Vec::new()), None);
    let id2 = env.new_node(loc(), Type::Param(0));
    let r = env.instantiate_node(id2, &vec![Type::Num]);
    assert!(r.is_some());
    assert!(env.get_node_type(r.unwrap()).type_eq(&Type::Num));
}

#[test]
fn ghost_memory_access_is_extracted() {
    let mut env = GlobalEnv::new();
    let m_sym = env.symbol_pool.make("m");
    let mid = env.add_module(usage_analysis::ast::ModuleName::new(1, m_sym));
    let g_sym = env.symbol_pool.make("Ghost$Counter");
    let f_sym = env.symbol_pool.make("value");
    let gsid = env.add_struct(mid, g_sym, vec![f_sym]);
    let plain_sym = env.symbol_pool.make("Counter");
    let psid = env.add_struct(mid, plain_sym, vec![f_sym]);
    assert!(env.is_ghost_memory_struct(mid, gsid));
    assert!(!env.is_ghost_memory_struct(mid, psid));

    let id_addr = env.new_node(loc(), Type::Num);
    let addr = env.add_exp(ExpData::Value(id_addr, Value::Address(7)));
    let gty = Type::Struct(mid, gsid, Vec::new());
    let id_g = env.new_node(loc(), gty);
    env.set_node_instantiation(id_g, vec![Type::Struct(mid, gsid, Vec::new())]);
    let glob = env.add_exp(ExpData::Call(id_g, Operation::Global(None), vec![addr]));
    let id_sel = env.new_node(loc(), Type::Num);
    let sel = env.add_exp(ExpData::Call(
        id_sel,
        Operation::Select(mid, gsid, usage_analysis::ids::FieldId(0)),
        vec![glob],
    ));
    let r = env.extract_ghost_mem_access(sel);
    assert!(r.is_some());
    let (memref, field, a) = r.unwrap();
    assert_eq!(memref.module_id, mid);
    assert_eq!(memref.id, gsid);
    assert_eq!(field, usage_analysis::ids::FieldId(0));
    assert!(ExpData::ptr_eq(a, addr));

    // The same shape over a non-ghost struct extracts nothing.
    let pty = Type::Struct(mid, psid, Vec::new());
    let id_g2 = env.new_node(loc(), pty);
    env.set_node_instantiation(id_g2, vec![Type::Struct(mid, psid, Vec::new())]);
    let glob2 = env.add_exp(ExpData::Call(id_g2, Operation::Global(None), vec![addr]));
    let id_sel2 = env.new_node(loc(), Type::Num);
    let sel2 = env.add_exp(ExpData::Call(
        id_sel2,
        Operation::Select(mid, psid, usage_analysis::ids::FieldId(0)),
        vec![glob2],
    ));
    assert!(env.extract_ghost_mem_access(sel2).is_none());
}

#[test]
fn type_instantiation_substitutes_parameters() {
    let t = Type::Struct(
        usage_analysis::ids::ModuleId(0),
        usage_analysis::ids::StructId(0),
        vec![Type::Param(0), Type::Param(1), Type::Param(5)],
    );
    let r = t.instantiate(&vec![Type::Bool, Type::Num]);
    let expected = Type::Struct(
        usage_analysis::ids::ModuleId(0),
        usage_analysis::ids::StructId(0),
        vec![Type::Bool, Type::Num, Type::Param(5)],
    );
    assert!(r.type_eq(&expected));
    assert!(!r.type_eq(&t));
}
