//! The compositional summary cache: per (function, variant) targets with
//! their frozen usage summaries, and the cache through which a caller's
//! transfer function reads its callees' summaries.

use vstd::prelude::*;
use crate::bytecode::{Bytecode, ControlFlowGraph};
use crate::ids::FunId;
use crate::model::GlobalEnv;
use crate::ty::QualifiedId;
use crate::usage::UsageState;

verus! {

/// A named variant of a function's compiled form.
#[derive(Clone, Copy, Debug, PartialEq, Eq, Structural)]
pub enum FunctionVariant {
    /// The version of the function for use as callee.
    Baseline,
    /// The version instrumented for verification.
    Verification,
}

/// One analysis target: a function variant's code and control-flow graph,
/// and the usage summary once the analysis has produced it.
#[derive(Debug)]
pub struct FunctionData {
    pub fun_id: QualifiedId<FunId>,
    pub variant: FunctionVariant,
    pub code: Vec<Bytecode>,
    pub cfg: ControlFlowGraph,
    /// The frozen usage summary; absent until the analysis ran.
    pub annotation: Option<UsageState>,
}

impl FunctionData {
    /// Well-formedness: the graph fits the code and a present summary is
    /// well formed.
    pub open spec fn inv(&self) -> bool {
        &&& self.cfg.wf(self.code@.len() as int)
        &&& self.code@.len() <= 0x1_0000
        &&& match self.annotation {
            Option::Some(s) => s.inv(),
            Option::None => true,
        }
    }
}

/// Whether target `k` of `ts` is the entry of `(f, v)`.
pub open spec fn target_at(
    ts: Seq<FunctionData>,
    f: QualifiedId<FunId>,
    v: FunctionVariant,
    k: int,
) -> bool {
    0 <= k < ts.len() && ts[k].fun_id == f && ts[k].variant == v
}

/// Whether `ts` holds a target for `(f, v)`.
pub open spec fn has_target(ts: Seq<FunctionData>, f: QualifiedId<FunId>, v: FunctionVariant) -> bool {
    exists|k: int| target_at(ts, f, v, k)
}

/// The index of the target for `(f, v)`; meaningful under `has_target` and
/// the holder's uniqueness invariant.
pub open spec fn the_target(ts: Seq<FunctionData>, f: QualifiedId<FunId>, v: FunctionVariant) -> int {
    choose|k: int| target_at(ts, f, v, k)
}

/// Holds all analysis targets, keyed by function and variant.
#[derive(Debug)]
pub struct FunctionTargetsHolder {
    pub targets: Vec<FunctionData>,
}

impl FunctionTargetsHolder {
    /// Well-formedness: each target is well formed and no key occurs twice.
    pub open spec fn inv(&self) -> bool {
        &&& forall|k: int| 0 <= k < self.targets@.len() ==> (#[trigger] self.targets@[k]).inv()
        &&& forall|i: int, j: int|
            0 <= i < j < self.targets@.len() ==> !((#[trigger] self.targets@[i]).fun_id
                == (#[trigger] self.targets@[j]).fun_id && self.targets@[i].variant
                == self.targets@[j].variant)
    }

    /// An empty holder.
    pub fn new() -> (r: FunctionTargetsHolder)
        ensures
            r.inv(),
            r.targets@.len() == 0,
    {
        FunctionTargetsHolder { targets: Vec::new() }
    }

    /// Adds a target for a key not yet present.
    pub fn add_target(&mut self, data: FunctionData)
        requires
            old(self).inv(),
            data.inv(),
            !has_target(old(self).targets@, data.fun_id, data.variant),
        ensures
            final(self).inv(),
            final(self).targets@ == old(self).targets@.push(data),
    {
        proof {
            assert forall|j: int|
                0 <= j < self.targets@.len() implies !((#[trigger] self.targets@[j]).fun_id
                == data.fun_id && self.targets@[j].variant == data.variant) by {
                if self.targets@[j].fun_id == data.fun_id && self.targets@[j].variant
                    == data.variant {
                    assert(target_at(self.targets@, data.fun_id, data.variant, j));
                }
            }
        }
        self.targets.push(data);
    }

    /// The index of the target for `(f, v)`, if one exists.
    pub fn find(&self, f: QualifiedId<FunId>, v: FunctionVariant) -> (r: Option<usize>)
        ensures
            match r {
                Option::Some(k) => target_at(self.targets@, f, v, k as int),
                Option::None => !has_target(self.targets@, f, v),
            },
    {
        let n = self.targets.len();
        let mut i: usize = 0;
        while i < n
            invariant
                i <= n,
                n == self.targets@.len(),
                forall|j: int| 0 <= j < i ==> !target_at(self.targets@, f, v, j),
            decreases n - i,
        {
            let t = &self.targets[i];
            if t.fun_id == f && t.variant == v {
                return Option::Some(i);
            }
            i += 1;
        }
        proof {
            if has_target(self.targets@, f, v) {
                let k = choose|k: int| target_at(self.targets@, f, v, k);
            }
        }
        Option::None
    }
}

/// The cache through which the transfer function of one function reads the
/// frozen summaries of its callees, plus the global model.
#[derive(Clone, Copy)]
pub struct SummaryCache<'a> {
    pub targets: &'a FunctionTargetsHolder,
    pub env: &'a GlobalEnv,
}

/// The cached summary for `(f, v)`, if the target exists and was analyzed.
pub open spec fn spec_summary(
    ts: Seq<FunctionData>,
    f: QualifiedId<FunId>,
    v: FunctionVariant,
) -> Option<UsageState> {
    if has_target(ts, f, v) {
        ts[the_target(ts, f, v)].annotation
    } else {
        Option::None
    }
}

impl<'a> SummaryCache<'a> {
    /// A cache over the given targets and model.
    pub fn new(targets: &'a FunctionTargetsHolder, env: &'a GlobalEnv) -> (r: SummaryCache<'a>)
        ensures
            r.targets == targets,
            r.env == env,
    {
        SummaryCache { targets, env }
    }

    /// The frozen summary of `(f, v)`, or nothing when the function was not
    /// analyzed: the caller then conservatively adds no callee effects.
    pub fn get(&self, f: QualifiedId<FunId>, v: FunctionVariant) -> (r: Option<&UsageState>)
        requires
            self.targets.inv(),
        ensures
            match r {
                Option::Some(s) => spec_summary(self.targets.targets@, f, v) == Option::Some(*s)
                    && s.inv(),
                Option::None => spec_summary(self.targets.targets@, f, v) is None,
            },
    {
        match self.targets.find(f, v) {
            Option::Some(k) => {
                proof {
                    let ts = self.targets.targets@;
                    let k2 = the_target(ts, f, v);
                    assert(target_at(ts, f, v, k2));
                    assert(k2 == k as int);
                }
                match &self.targets.targets[k].annotation {
                    Option::Some(s) => Option::Some(s),
                    Option::None => Option::None,
                }
            },
            Option::None => Option::None,
        }
    }

    /// The global model.
    pub fn global_env(&self) -> (r: &'a GlobalEnv)
        ensures
            r == self.env,
    {
        self.env
    }
}

/// A compositional analysis turns the final per-function state of the
/// dataflow engine into the summary stored for callers.
pub trait CompositionalAnalysis<State: crate::domains::AbstractDomain> {
    /// Condenses the final state into the published summary.
    fn to_summary(&self, state: State) -> (r: State)
        requires
            state.inv(),
        ensures
            r.inv(),
    ;
}

} // verus!
