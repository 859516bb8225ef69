//! End-to-end runs of the memory-usage analysis: the transfer function over
//! instructions, callee-summary subsumption (ordinary and delegated),
//! declared-specification usage, and convergence over a cyclic call graph.

use usage_analysis::ast::{Condition, ConditionKind, ExpData, ModuleName, Operation, Spec, Value};
use usage_analysis::bytecode::{
    AttrId, BasicBlock, BorrowNode, Bytecode, BytecodeOperation, ControlFlowGraph, PropKind,
};
use usage_analysis::compositional::{
    FunctionData, FunctionTargetsHolder, FunctionVariant, SummaryCache,
};
use usage_analysis::dataflow::{analyze_function, TransferFunctions};
use usage_analysis::ids::{FunId, Loc, ModuleId, SpecFunId, StructId};
use usage_analysis::model::GlobalEnv;
use usage_analysis::ty::{QualifiedId, QualifiedInstId, Type};
use usage_analysis::usage::{
    analyze_component, get_memory_usage, summarize_usage, MemoryUsageAnalysis, UsageCategory,
    UsageProcessor, UsageState,
};

fn loc() -> Loc {
    Loc { file_id: 0, span_start: 0, span_end: 0 }
}

fn qid(mid: ModuleId, sid: StructId) -> QualifiedInstId {
    QualifiedInstId { module_id: mid, inst: Vec::new(), id: sid }
}

fn target(
    fun_id: QualifiedId<FunId>,
    code: Vec<Bytecode>,
    annotation: Option<UsageState>,
) -> FunctionData {
    let n = code.len();
    FunctionData {
        fun_id,
        variant: FunctionVariant::Baseline,
        cfg: ControlFlowGraph::single_block(n),
        code,
        annotation,
    }
}

/// A model with one module holding structs `R` and `W`, and the functions
/// named by `funs`, each with the given delegation flag and specification.
fn build_env(funs: &[(&str, bool, Spec)]) -> (GlobalEnv, ModuleId, StructId, StructId, Vec<FunId>) {
    let mut env = GlobalEnv::new();
    let m_sym = env.symbol_pool.make("m");
    let mid = env.add_module(ModuleName::new(1, m_sym));
    let r_sym = env.symbol_pool.make("R");
    let r_sid = env.add_struct(mid, r_sym, Vec::new());
    let w_sym = env.symbol_pool.make("W");
    let w_sid = env.add_struct(mid, w_sym, Vec::new());
    let mut fids = Vec::new();
    for (name, delegated, spec) in funs {
        let f_sym = env.symbol_pool.make(name);
        let spec_copy = Spec {
            loc: spec.loc,
            conditions: spec.conditions.iter().cloned().collect(),
            properties: Vec::new(),
            on_impl: Vec::new(),
        };
        fids.push(env.add_function(mid, f_sym, *delegated, spec_copy));
    }
    (env, mid, r_sid, w_sid, fids)
}

fn empty_spec() -> Spec {
    Spec { loc: None, conditions: Vec::new(), properties: Vec::new(), on_impl: Vec::new() }
}

#[test]
fn transfer_marks_memory_instructions() {
    let (env, mid, r_sid, w_sid, _fids) = build_env(&[("f", false, empty_spec())]);
    let holder = FunctionTargetsHolder::new();
    let analysis = MemoryUsageAnalysis { cache: SummaryCache::new(&holder, &env) };
    let mut st = UsageState::new();
    analysis.execute(
        &mut st,
        &Bytecode::Call(
            AttrId(0),
            Vec::new(),
            BytecodeOperation::MoveTo(mid, w_sid, Vec::new()),
            Vec::new(),
        ),
        0,
    );
    assert!(st.modified.direct.contains(&qid(mid, w_sid)));
    assert!(st.accessed.direct.contains(&qid(mid, w_sid)));
    analysis.execute(
        &mut st,
        &Bytecode::Call(
            AttrId(1),
            Vec::new(),
            BytecodeOperation::Exists(mid, r_sid, Vec::new()),
            Vec::new(),
        ),
        1,
    );
    assert!(st.accessed.direct.contains(&qid(mid, r_sid)));
    assert!(!st.modified.direct.contains(&qid(mid, r_sid)));
    analysis.execute(
        &mut st,
        &Bytecode::Call(
            AttrId(2),
            Vec::new(),
            BytecodeOperation::WriteBack(BorrowNode::GlobalRoot(qid(mid, r_sid))),
            Vec::new(),
        ),
        2,
    );
    assert!(st.modified.direct.contains(&qid(mid, r_sid)));
}

#[test]
fn transfer_is_monotone_over_a_growing_stream() {
    let (env, mid, r_sid, w_sid, _fids) = build_env(&[("f", false, empty_spec())]);
    let holder = FunctionTargetsHolder::new();
    let analysis = MemoryUsageAnalysis { cache: SummaryCache::new(&holder, &env) };
    let stream = vec![
        Bytecode::Call(
            AttrId(0),
            Vec::new(),
            BytecodeOperation::MoveTo(mid, w_sid, Vec::new()),
            Vec::new(),
        ),
        Bytecode::Nop(AttrId(1)),
        Bytecode::Call(
            AttrId(2),
            Vec::new(),
            BytecodeOperation::GetGlobal(mid, r_sid, Vec::new()),
            Vec::new(),
        ),
        Bytecode::Call(
            AttrId(3),
            Vec::new(),
            BytecodeOperation::MoveFrom(mid, w_sid, Vec::new()),
            Vec::new(),
        ),
    ];
    let mut st = UsageState::new();
    let mut seen_modified = 0;
    let mut seen_accessed = 0;
    for (off, instr) in stream.iter().enumerate() {
        analysis.execute(&mut st, instr, off as u16);
        // No element ever leaves any set.
        assert!(st.modified.all.len() >= seen_modified);
        assert!(st.accessed.all.len() >= seen_accessed);
        seen_modified = st.modified.all.len();
        seen_accessed = st.accessed.all.len();
    }
    assert!(st.modified.all.contains(&qid(mid, w_sid)));
    assert!(st.accessed.all.contains(&qid(mid, r_sid)));
}

#[test]
fn ordinary_callee_summary_lands_in_transitive() {
    // Scenario: `f` calls ordinary `g`; `g`'s summary has accessed.direct
    // = {R}.
    let (env, mid, r_sid, _w_sid, fids) =
        build_env(&[("g", false, empty_spec()), ("f", false, empty_spec())]);
    let g_fid = fids[0];
    let f_fid = fids[1];
    let mut g_summary = UsageState::new();
    g_summary.add_direct(UsageCategory::Accessed, qid(mid, r_sid));
    let mut holder = FunctionTargetsHolder::new();
    holder.add_target(target(mid.qualified(g_fid), Vec::new(), Some(g_summary)));
    let f_code = vec![Bytecode::Call(
        AttrId(0),
        Vec::new(),
        BytecodeOperation::Function(mid, g_fid, Vec::new()),
        Vec::new(),
    )];
    let f_data = target(mid.qualified(f_fid), f_code, None);
    let processor = UsageProcessor::new();
    let (f_done, _conv) = processor.process(&holder, &env, f_data, 8);
    let usage = get_memory_usage(&f_done);
    assert!(usage.accessed.transitive.contains(&qid(mid, r_sid)));
    assert!(!usage.accessed.direct.contains(&qid(mid, r_sid)));
    assert!(usage.accessed.all.contains(&qid(mid, r_sid)));
}

#[test]
fn delegated_callee_summary_lands_in_direct() {
    // Scenario: as above, but invariant checking is delegated to `g`.
    let (env, mid, r_sid, _w_sid, fids) =
        build_env(&[("g", true, empty_spec()), ("f", false, empty_spec())]);
    let g_fid = fids[0];
    let f_fid = fids[1];
    let mut g_summary = UsageState::new();
    g_summary.add_direct(UsageCategory::Accessed, qid(mid, r_sid));
    let mut holder = FunctionTargetsHolder::new();
    holder.add_target(target(mid.qualified(g_fid), Vec::new(), Some(g_summary)));
    let f_code = vec![Bytecode::Call(
        AttrId(0),
        Vec::new(),
        BytecodeOperation::Function(mid, g_fid, Vec::new()),
        Vec::new(),
    )];
    let f_data = target(mid.qualified(f_fid), f_code, None);
    let processor = UsageProcessor::new();
    let (f_done, _conv) = processor.process(&holder, &env, f_data, 8);
    let usage = get_memory_usage(&f_done);
    assert!(usage.accessed.direct.contains(&qid(mid, r_sid)));
}

#[test]
fn missing_callee_summary_contributes_nothing() {
    let (env, mid, _r_sid, _w_sid, fids) =
        build_env(&[("g", false, empty_spec()), ("f", false, empty_spec())]);
    let g_fid = fids[0];
    let f_fid = fids[1];
    let holder = FunctionTargetsHolder::new();
    let f_code = vec![Bytecode::Call(
        AttrId(0),
        Vec::new(),
        BytecodeOperation::Function(mid, g_fid, Vec::new()),
        Vec::new(),
    )];
    let f_data = target(mid.qualified(f_fid), f_code, None);
    let processor = UsageProcessor::new();
    let (f_done, _conv) = processor.process(&holder, &env, f_data, 8);
    let usage = get_memory_usage(&f_done);
    assert_eq!(usage.accessed.all.len(), 0);
}

/// An `exists<S>(addr)` expression over struct `sid`.
fn exists_exp(env: &mut GlobalEnv, mid: ModuleId, sid: StructId) -> usage_analysis::ast::Exp {
    let id_a = env.new_node(loc(), Type::Num);
    let addr = env.add_exp(ExpData::Value(id_a, Value::Address(1)));
    let id = env.new_node(loc(), Type::Bool);
    env.set_node_instantiation(id, vec![Type::Struct(mid, sid, Vec::new())]);
    env.add_exp(ExpData::Call(id, Operation::Exists(None), vec![addr]))
}

#[test]
fn declared_postcondition_contributes_to_asserted_direct() {
    // Scenario: `h` has a postcondition referencing `exists<S>(addr)`.
    let (mut env, mid, r_sid, _w_sid, _fids) = build_env(&[]);
    let e = exists_exp(&mut env, mid, r_sid);
    let h_sym = env.symbol_pool.make("h");
    let cond = Condition {
        loc: loc(),
        kind: ConditionKind::Ensures,
        properties: Vec::new(),
        exp: e,
        additional_exps: Vec::new(),
    };
    let spec = Spec { loc: None, conditions: vec![cond], properties: Vec::new(), on_impl: Vec::new() };
    let h_fid = env.add_function(mid, h_sym, false, spec);
    let holder = FunctionTargetsHolder::new();
    let h_data = target(mid.qualified(h_fid), Vec::new(), None);
    let processor = UsageProcessor::new();
    let (h_done, _conv) = processor.process(&holder, &env, h_data, 8);
    let usage = get_memory_usage(&h_done);
    assert!(usage.asserted.direct.contains(&qid(mid, r_sid)));
    assert!(!usage.assumed.direct.contains(&qid(mid, r_sid)));
}

#[test]
fn declared_precondition_contributes_to_assumed_direct() {
    let (mut env, mid, r_sid, _w_sid, _fids) = build_env(&[]);
    let e = exists_exp(&mut env, mid, r_sid);
    let h_sym = env.symbol_pool.make("h");
    let cond = Condition {
        loc: loc(),
        kind: ConditionKind::Requires,
        properties: Vec::new(),
        exp: e,
        additional_exps: Vec::new(),
    };
    let spec = Spec { loc: None, conditions: vec![cond], properties: Vec::new(), on_impl: Vec::new() };
    let h_fid = env.add_function(mid, h_sym, false, spec);
    let holder = FunctionTargetsHolder::new();
    let h_data = target(mid.qualified(h_fid), Vec::new(), None);
    let processor = UsageProcessor::new();
    let (h_done, _conv) = processor.process(&holder, &env, h_data, 8);
    let usage = get_memory_usage(&h_done);
    assert!(usage.assumed.direct.contains(&qid(mid, r_sid)));
    assert!(!usage.asserted.direct.contains(&qid(mid, r_sid)));
}

#[test]
fn assume_and_assert_instructions_use_expression_memory() {
    let (mut env, mid, r_sid, w_sid, _fids) = build_env(&[]);
    let e1 = exists_exp(&mut env, mid, r_sid);
    let e2 = exists_exp(&mut env, mid, w_sid);
    let holder = FunctionTargetsHolder::new();
    let analysis = MemoryUsageAnalysis { cache: SummaryCache::new(&holder, &env) };
    let mut st = UsageState::new();
    analysis.execute(&mut st, &Bytecode::Prop(AttrId(0), PropKind::Assume, e1), 0);
    analysis.execute(&mut st, &Bytecode::Prop(AttrId(1), PropKind::Assert, e2), 1);
    assert!(st.assumed.direct.contains(&qid(mid, r_sid)));
    assert!(st.asserted.direct.contains(&qid(mid, w_sid)));
    assert!(st.accessed.direct.contains(&qid(mid, r_sid)));
    assert!(st.accessed.direct.contains(&qid(mid, w_sid)));
}

#[test]
fn cyclic_call_graph_converges() {
    // Scenario: mutually recursive `p` and `q`; `p` writes `W` and calls
    // `q`; `q` calls `p`.
    let (env, mid, _r_sid, w_sid, fids) =
        build_env(&[("p", false, empty_spec()), ("q", false, empty_spec())]);
    let p_fid = fids[0];
    let q_fid = fids[1];
    let p_code = vec![
        Bytecode::Call(
            AttrId(0),
            Vec::new(),
            BytecodeOperation::MoveTo(mid, w_sid, Vec::new()),
            Vec::new(),
        ),
        Bytecode::Call(
            AttrId(1),
            Vec::new(),
            BytecodeOperation::Function(mid, q_fid, Vec::new()),
            Vec::new(),
        ),
    ];
    let q_code = vec![Bytecode::Call(
        AttrId(0),
        Vec::new(),
        BytecodeOperation::Function(mid, p_fid, Vec::new()),
        Vec::new(),
    )];
    let mut holder = FunctionTargetsHolder::new();
    holder.add_target(target(mid.qualified(p_fid), p_code, None));
    holder.add_target(target(mid.qualified(q_fid), q_code, None));
    let converged = analyze_component(&env, &mut holder, &vec![0, 1], 16, 8);
    assert!(converged);
    let p_usage = get_memory_usage(&holder.targets[0]);
    let q_usage = get_memory_usage(&holder.targets[1]);
    assert!(p_usage.modified.direct.contains(&qid(mid, w_sid)));
    // The non-writing function inherits the write transitively.
    assert!(q_usage.modified.transitive.contains(&qid(mid, w_sid)));
    assert!(q_usage.modified.all.contains(&qid(mid, w_sid)));
    assert!(!q_usage.modified.direct.contains(&qid(mid, w_sid)));
}

#[test]
fn summary_cache_lookup() {
    let (env, mid, r_sid, _w_sid, fids) = build_env(&[("g", false, empty_spec())]);
    let g_fid = fids[0];
    let mut g_summary = UsageState::new();
    g_summary.add_direct(UsageCategory::Modified, qid(mid, r_sid));
    let mut holder = FunctionTargetsHolder::new();
    holder.add_target(target(mid.qualified(g_fid), Vec::new(), Some(g_summary)));
    let cache = SummaryCache::new(&holder, &env);
    let got = cache.get(mid.qualified(g_fid), FunctionVariant::Baseline);
    assert!(got.is_some());
    assert!(got.unwrap().modified.direct.contains(&qid(mid, r_sid)));
    assert!(cache.get(mid.qualified(FunId(9)), FunctionVariant::Baseline).is_none());
    assert!(cache.get(mid.qualified(g_fid), FunctionVariant::Verification).is_none());
}

#[test]
fn summarize_usage_runs_the_engine() {
    let (env, mid, _r_sid, w_sid, fids) = build_env(&[("f", false, empty_spec())]);
    let f_fid = fids[0];
    let code = vec![Bytecode::Call(
        AttrId(0),
        Vec::new(),
        BytecodeOperation::BorrowGlobal(mid, w_sid, Vec::new()),
        Vec::new(),
    )];
    let data = target(mid.qualified(f_fid), code, None);
    let holder = FunctionTargetsHolder::new();
    let (summary, converged) = summarize_usage(&holder, &env, &data, 8);
    assert!(converged);
    assert!(summary.modified.direct.contains(&qid(mid, w_sid)));
}

#[test]
fn engine_propagates_over_a_looping_graph() {
    let (env, mid, r_sid, w_sid, _fids) = build_env(&[("f", false, empty_spec())]);
    let holder = FunctionTargetsHolder::new();
    let analysis = MemoryUsageAnalysis { cache: SummaryCache::new(&holder, &env) };
    let code = vec![
        Bytecode::Call(
            AttrId(0),
            Vec::new(),
            BytecodeOperation::MoveTo(mid, w_sid, Vec::new()),
            Vec::new(),
        ),
        Bytecode::Call(
            AttrId(1),
            Vec::new(),
            BytecodeOperation::GetGlobal(mid, r_sid, Vec::new()),
            Vec::new(),
        ),
    ];
    // Two blocks forming a loop: the entry runs the write, the second the
    // read and jumps back.
    let cfg = ControlFlowGraph {
        blocks: vec![
            BasicBlock { lower: 0, upper: 1, successors: vec![1] },
            BasicBlock { lower: 1, upper: 2, successors: vec![0] },
        ],
        entry: 0,
    };
    let (summary, converged) = analyze_function(&analysis, usage_analysis::usage::UsageState::new(), &code, &cfg, 16);
    assert!(converged);
    assert!(summary.modified.all.contains(&qid(mid, w_sid)));
    assert!(summary.accessed.all.contains(&qid(mid, r_sid)));
}

#[test]
fn operation_level_memory_fold() {
    let check_pure = |_m: ModuleId, _f: SpecFunId| true;
    assert!(!Operation::Exists(None).uses_memory(&check_pure));
    assert!(!Operation::Global(None).uses_memory(&check_pure));
    assert!(Operation::Add.uses_memory(&check_pure));
    assert!(Operation::Function(ModuleId(0), SpecFunId(0), None).uses_memory(&check_pure));
    let check_impure = |_m: ModuleId, _f: SpecFunId| false;
    assert!(!Operation::Function(ModuleId(0), SpecFunId(0), None).uses_memory(&check_impure));
}

#[test]
fn processor_name() {
    let p = UsageProcessor::new();
    assert_eq!(p.name(), "usage_analysis");
}
