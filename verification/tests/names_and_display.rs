//! Names, condition-kind placement rules, specification queries and the
//! human-readable renderers.

use usage_analysis::ast::{
    Condition, ConditionKind, ExpData, FunctionVisibility, ModuleName, Operation, QuantKind, Spec,
    Value,
};
use usage_analysis::bytecode::{AttrId, Bytecode, BytecodeOperation, ControlFlowGraph};
use usage_analysis::compositional::{FunctionData, FunctionTargetsHolder, FunctionVariant};
use usage_analysis::display::{dec_str, dump_usage, hex_str, int_dec_str, label_str};
use usage_analysis::ids::{GlobalId, Loc, Symbol};
use usage_analysis::model::GlobalEnv;
use usage_analysis::ty::Type;
use usage_analysis::usage::{get_memory_usage, UsageProcessor};

fn loc() -> Loc {
    Loc { file_id: 0, span_start: 0, span_end: 0 }
}

#[test]
fn condition_kind_placement_rules() {
    let s = Symbol(0);
    assert!(ConditionKind::Ensures.allows_old());
    assert!(ConditionKind::LetPost(s).allows_old());
    assert!(!ConditionKind::Requires.allows_old());
    assert!(ConditionKind::Requires.allowed_on_fun_decl(FunctionVisibility::Public));
    assert!(ConditionKind::Update.allowed_on_fun_decl(FunctionVisibility::Private));
    assert!(!ConditionKind::Assert.allowed_on_fun_decl(FunctionVisibility::Public));
    assert!(ConditionKind::Assert.allowed_on_fun_impl());
    assert!(ConditionKind::LoopInvariant.allowed_on_fun_impl());
    assert!(!ConditionKind::Modifies.allowed_on_fun_impl());
    assert!(ConditionKind::StructInvariant.allowed_on_struct());
    assert!(!ConditionKind::Ensures.allowed_on_struct());
    assert!(ConditionKind::GlobalInvariant(vec![]).allowed_on_module());
    assert!(ConditionKind::Axiom(vec![]).allowed_on_module());
    assert!(!ConditionKind::Requires.allowed_on_module());
}

#[test]
fn quant_kind_choice() {
    assert!(QuantKind::Choose.is_choice());
    assert!(QuantKind::ChooseMin.is_choice());
    assert!(!QuantKind::Forall.is_choice());
    assert!(!QuantKind::Exists.is_choice());
}

#[test]
fn module_name_parsing_and_scripts() {
    let name = Symbol(3);
    let mn = ModuleName::from_str("0xff", name);
    assert_eq!(*&mn.addr(), 255);
    assert_eq!(mn.name(), name);
    assert!(!mn.is_script());
    let mn2 = ModuleName::from_str("ffffffffffffffffffffffffffffffff", name);
    assert!(mn2.is_script());
    let mn3 = ModuleName::new(7, name);
    assert_eq!(mn3.addr(), 7);
    let mut bytes = [0u8; 16];
    bytes[15] = 9;
    bytes[14] = 1;
    let mn4 = ModuleName::from_address_bytes_and_name(&bytes, name);
    assert_eq!(mn4.addr(), 256 + 9);
}

#[test]
fn spec_queries() {
    let c1 = Condition {
        loc: loc(),
        kind: ConditionKind::Ensures,
        properties: Vec::new(),
        exp: usage_analysis::ast::Exp(0),
        additional_exps: Vec::new(),
    };
    let c2 = Condition {
        loc: loc(),
        kind: ConditionKind::Axiom(vec![Symbol(1)]),
        properties: Vec::new(),
        exp: usage_analysis::ast::Exp(0),
        additional_exps: Vec::new(),
    };
    let sp = Spec { loc: None, conditions: vec![c1, c2], properties: Vec::new(), on_impl: Vec::new() };
    assert!(sp.has_conditions());
    assert!(sp.any_kind(&ConditionKind::Ensures));
    assert!(!sp.any_kind(&ConditionKind::Requires));
    assert_eq!(sp.filter_kind(&ConditionKind::Ensures), vec![0]);
    assert_eq!(sp.filter_kind_axiom(), vec![1]);
    let empty = Spec::default();
    assert!(!empty.has_conditions());
    let c3 = Condition {
        loc: loc(),
        kind: ConditionKind::Ensures,
        properties: Vec::new(),
        exp: usage_analysis::ast::Exp(1),
        additional_exps: vec![usage_analysis::ast::Exp(2)],
    };
    assert_eq!(
        c3.all_exps(),
        vec![usage_analysis::ast::Exp(1), usage_analysis::ast::Exp(2)]
    );
}

#[test]
fn numeric_renderings() {
    assert_eq!(dec_str(0), "0");
    assert_eq!(dec_str(1234), "1234");
    assert_eq!(hex_str(255), "ff");
    assert_eq!(hex_str(0x1a2b), "1a2b");
    assert_eq!(int_dec_str(-5), "-5");
    assert_eq!(int_dec_str(42), "42");
    assert_eq!(label_str(GlobalId(7)), "@7");
}

#[test]
fn value_renderings() {
    assert_eq!(Value::Bool(true).render(), "true");
    assert_eq!(Value::Bool(false).render(), "false");
    assert_eq!(Value::Number(-12).render(), "-12");
    assert_eq!(Value::Address(0xab).render(), "ab");
    assert_eq!(Value::ByteArray(vec![1, 2, 30]).render(), "[1, 2, 30]");
    assert_eq!(Value::ByteArray(vec![]).render(), "[]");
}

#[test]
fn kind_renderings() {
    assert_eq!(QuantKind::Forall.render(), "forall");
    assert_eq!(QuantKind::ChooseMin.render(), "choose min");
    assert_eq!(ConditionKind::AbortsIf.render(), "aborts_if");
    assert_eq!(
        ConditionKind::GlobalInvariant(vec![Symbol(0), Symbol(1)]).render(),
        "invariant<#0, #1>"
    );
    assert_eq!(
        ConditionKind::GlobalInvariantUpdate(vec![Symbol(0)]).render(),
        "invariant<#0> update"
    );
    assert_eq!(ConditionKind::Axiom(vec![]).render(), "axiom");
}

#[test]
fn name_and_type_renderings() {
    let mut env = GlobalEnv::new();
    let m_sym = env.symbol_pool.make("m");
    let mid = env.add_module(ModuleName::new(0xab, m_sym));
    let r_sym = env.symbol_pool.make("R");
    let sid = env.add_struct(mid, r_sym, Vec::new());
    let mn = ModuleName::new(0xab, m_sym);
    assert_eq!(mn.display(&env.symbol_pool).render(), "m");
    assert_eq!(mn.display_full(&env.symbol_pool).render(), "0xab::m");
    let script = ModuleName::new(u128::MAX, m_sym);
    assert_eq!(script.display_full(&env.symbol_pool).render(), "m");

    let ty = Type::Struct(mid, sid, vec![Type::Bool, Type::Param(2)]);
    assert_eq!(env.render_type(&ty), "m::R<bool, #2>");
    assert_eq!(env.render_type(&Type::Reference(true, Box::new(Type::Num))), "&mut num");
}

#[test]
fn expression_rendering() {
    let mut env = GlobalEnv::new();
    let id1 = env.new_node(loc(), Type::Num);
    let v1 = env.add_exp(ExpData::Value(id1, Value::Number(1)));
    let id2 = env.new_node(loc(), Type::Num);
    let t = env.add_exp(ExpData::Temporary(id2, 3));
    let id3 = env.new_node(loc(), Type::Num);
    let sum = env.add_exp(ExpData::Call(id3, Operation::Add, vec![v1, t]));
    assert_eq!(sum.display(&env).render(), "Add(1, $t3)");
    let id4 = env.new_node(loc(), Type::Num);
    let ite = env.add_exp(ExpData::IfElse(id4, v1, t, sum));
    assert_eq!(ite.display(&env).render(), "(if 1 {$t3} else {Add(1, $t3)})");
}

#[test]
fn operation_rendering_with_instantiation() {
    let mut env = GlobalEnv::new();
    let m_sym = env.symbol_pool.make("m");
    let mid = env.add_module(ModuleName::new(1, m_sym));
    let r_sym = env.symbol_pool.make("R");
    let sid = env.add_struct(mid, r_sym, Vec::new());
    let id = env.new_node(loc(), Type::Bool);
    env.set_node_instantiation(id, vec![Type::Struct(mid, sid, Vec::new())]);
    let oper = Operation::Exists(None);
    let od = oper.display(&env, id);
    assert_eq!(od.render(), "exists<m::R>");
    let id2 = env.new_node(loc(), Type::Bool);
    let oper2 = Operation::Pack(mid, sid);
    assert_eq!(oper2.display(&env, id2).render(), "pack m::R");
}

#[test]
fn condition_and_spec_rendering() {
    let mut env = GlobalEnv::new();
    let id1 = env.new_node(loc(), Type::Bool);
    let e = env.add_exp(ExpData::Value(id1, Value::Bool(true)));
    let cond = Condition {
        loc: loc(),
        kind: ConditionKind::Ensures,
        properties: Vec::new(),
        exp: e,
        additional_exps: Vec::new(),
    };
    assert_eq!(cond.render(&env), "ensures true;");
    let sp = Spec { loc: None, conditions: vec![cond], properties: Vec::new(), on_impl: Vec::new() };
    assert_eq!(sp.render(&env), "spec {\n  ensures true;\n}\n");
}

#[test]
fn usage_dump_rendering() {
    let mut env = GlobalEnv::new();
    let m_sym = env.symbol_pool.make("m");
    let mid = env.add_module(ModuleName::new(1, m_sym));
    let r_sym = env.symbol_pool.make("R");
    let sid = env.add_struct(mid, r_sym, Vec::new());
    let f_sym = env.symbol_pool.make("f");
    let spec = Spec { loc: None, conditions: Vec::new(), properties: Vec::new(), on_impl: Vec::new() };
    let fid = env.add_function(mid, f_sym, false, spec);
    let code = vec![Bytecode::Call(
        AttrId(0),
        Vec::new(),
        BytecodeOperation::MoveTo(mid, sid, Vec::new()),
        Vec::new(),
    )];
    let n = code.len();
    let data = FunctionData {
        fun_id: mid.qualified(fid),
        variant: FunctionVariant::Baseline,
        cfg: ControlFlowGraph::single_block(n),
        code,
        annotation: None,
    };
    let processor = UsageProcessor::new();
    let (done, _conv) = processor.process(&FunctionTargetsHolder::new(), &env, data, 8);
    let usage = get_memory_usage(&done);
    assert!(usage.modified.direct.contains(&usage_analysis::ty::QualifiedInstId {
        module_id: mid,
        inst: Vec::new(),
        id: sid,
    }));
    let mut holder = FunctionTargetsHolder::new();
    holder.add_target(done);
    let dump = dump_usage(&env, &holder);
    assert_eq!(
        dump,
        "function m::f [baseline] {\n  accessed = {m::R}\n  directly accessed = {m::R}\n  modified = {m::R}\n  directly modified = {m::R}\n  assumed = {}\n  directly assumed = {}\n  asserted = {}\n  directly asserted = {}\n}\n"
    );
}
