//! The dataflow engine: applies a transfer function over the instructions
//! of a control-flow graph, propagating states along edges and re-visiting
//! until nothing changes, and hands back the join of everything reached.
//!
//! Transfer functions carry their own mathematical description
//! (`spec_execute`); the engine's contract ties a converged run to it: the
//! per-block states it reached form a post-fixed point of the transfer over
//! the graph, seeded at the entry, and the returned summary covers every
//! block's exit state.

use vstd::prelude::*;
use crate::bytecode::{Bytecode, ControlFlowGraph};
use crate::domains::{AbstractDomain, JoinResult};
use crate::ids::CodeOffset;

verus! {

/// A transfer function: consumes one instruction at a code offset and moves
/// the state up the lattice accordingly. `spec_execute` is the mathematical
/// transfer the executable `execute` is held to; `spec_backward` says
/// whether the engine should run it against the instruction order.
pub trait TransferFunctions {
    type State: AbstractDomain;

    /// The instructions this transfer accepts. An instruction outside this
    /// set reaching the analysis is an internal invariant violation
    /// upstream.
    spec fn applicable(&self, instr: &Bytecode) -> bool;

    /// Whether the analysis runs backward.
    spec fn spec_backward(&self) -> bool;

    /// The effect of one instruction on a state's value.
    spec fn spec_execute(
        &self,
        s: <Self::State as View>::V,
        instr: Bytecode,
    ) -> <Self::State as View>::V;

    /// Whether the analysis runs backward.
    fn backward(&self) -> (r: bool)
        ensures
            r == self.spec_backward(),
    ;

    /// Applies one instruction's effect: exactly `spec_execute`, and
    /// monotone — no element ever leaves the state.
    fn execute(&self, state: &mut Self::State, instr: &Bytecode, offset: CodeOffset)
        requires
            old(state).inv(),
            self.applicable(instr),
        ensures
            final(state).inv(),
            old(state).leq(final(state)),
            final(state)@ == self.spec_execute(old(state)@, *instr),
    ;
}

/// Every instruction of the code is acceptable to the transfer.
pub open spec fn all_applicable<T: TransferFunctions>(xf: &T, code: Seq<Bytecode>) -> bool {
    forall|i: int| 0 <= i < code.len() ==> xf.applicable(#[trigger] &code[i])
}

/// All present states are well formed.
pub open spec fn states_inv<S: AbstractDomain>(states: Seq<Option<S>>) -> bool {
    forall|k: int|
        0 <= k < states.len() ==> match #[trigger] states[k] {
            Option::Some(s) => s.inv(),
            Option::None => true,
        }
}

/// The value reached by running the transfer over the instructions
/// `code[lower..upper)`, in the transfer's direction, from `s`.
pub open spec fn spec_block_exec<T: TransferFunctions>(
    xf: &T,
    code: Seq<Bytecode>,
    lower: int,
    upper: int,
    s: <T::State as View>::V,
) -> <T::State as View>::V
    decreases upper - lower,
{
    if lower >= upper {
        s
    } else if !xf.spec_backward() {
        spec_block_exec(xf, code, lower + 1, upper, xf.spec_execute(s, code[lower]))
    } else {
        spec_block_exec(xf, code, lower, upper - 1, xf.spec_execute(s, code[upper - 1]))
    }
}

/// One block of a converged run: its entry state has the block's exit state
/// (the transfer run over its instructions), the exit is covered by the
/// summary, and the exit flows into every successor's entry.
pub open spec fn block_done<T: TransferFunctions>(
    xf: &T,
    code: Seq<Bytecode>,
    cfg: &ControlFlowGraph,
    ss: Seq<Option<T::State>>,
    exits: Seq<Option<T::State>>,
    summary: T::State,
    b: int,
) -> bool {
    match (ss[b], exits[b]) {
        (Option::Some(en), Option::Some(ex)) => {
            &&& en.inv()
            &&& ex.inv()
            &&& ex@ == spec_block_exec(
                xf,
                code,
                cfg.blocks@[b].lower as int,
                cfg.blocks@[b].upper as int,
                en@,
            )
            &&& ex.leq(&summary)
            &&& forall|k: int|
                0 <= k < cfg.blocks@[b].successors@.len()
                    ==> match ss[#[trigger] cfg.blocks@[b].successors@[k] as int] {
                    Option::Some(sn) => ex.leq(&sn),
                    Option::None => false,
                }
        },
        (Option::None, Option::None) => true,
        _ => false,
    }
}

/// A converged run of the engine: a per-block state assignment that is
/// seeded at the entry and is a post-fixed point of the transfer over the
/// graph, with every reached block's exit covered by the summary.
pub open spec fn converged_run<T: TransferFunctions>(
    xf: &T,
    code: Seq<Bytecode>,
    cfg: &ControlFlowGraph,
    initial: T::State,
    summary: T::State,
    ss: Seq<Option<T::State>>,
    exits: Seq<Option<T::State>>,
) -> bool {
    &&& ss.len() == cfg.blocks@.len()
    &&& exits.len() == ss.len()
    &&& match ss[cfg.entry as int] {
        Option::Some(en) => initial.leq(&en),
        Option::None => false,
    }
    &&& forall|b: int| 0 <= b < ss.len() ==> block_done(xf, code, cfg, ss, exits, summary, b)
}

/// Runs the transfer function over the graph to a fixed point, starting
/// from `initial` at the entry block, for at most `fuel` rounds. Hands back
/// the join of every state reached, and whether a full round passed without
/// any state changing; in that case the states reached witness a converged
/// run covered by the returned summary.
pub fn analyze_function<T: TransferFunctions>(
    xf: &T,
    initial: T::State,
    code: &Vec<Bytecode>,
    cfg: &ControlFlowGraph,
    fuel: usize,
) -> (r: (T::State, bool))
    requires
        initial.inv(),
        cfg.wf(code@.len() as int),
        code@.len() <= 0x1_0000,
        all_applicable(xf, code@),
    ensures
        r.0.inv(),
        initial.leq(&r.0),
        r.1 ==> exists|ss: Seq<Option<T::State>>, exits: Seq<Option<T::State>>|
            converged_run(xf, code@, cfg, initial, r.0, ss, exits),
{
    let ghost init_v = initial;
    let nb = cfg.blocks.len();
    let mut states: Vec<Option<T::State>> = Vec::new();
    let mut i: usize = 0;
    while i < nb
        invariant
            i <= nb,
            states@.len() == i,
            forall|k: int| 0 <= k < i ==> (#[trigger] states@[k]) is None,
        decreases nb - i,
    {
        states.push(Option::None);
        i += 1;
    }
    let seed = initial.dup();
    let mut summary = initial;
    proof {
        assert(states_inv(states@));
        summary.lemma_leq_refl();
    }
    states[cfg.entry] = Option::Some(seed);
    let ghost mut pfp_ss: Seq<Option<T::State>> = Seq::empty();
    let ghost mut pfp_exits: Seq<Option<T::State>> = Seq::empty();
    let mut rounds: usize = 0;
    let mut converged = false;
    while rounds < fuel && !converged
        invariant
            nb == cfg.blocks@.len(),
            states@.len() == nb,
            states_inv(states@),
            summary.inv(),
            init_v.leq(&summary),
            cfg.wf(code@.len() as int),
            code@.len() <= 0x1_0000,
            all_applicable(xf, code@),
            match states@[cfg.entry as int] {
                Option::Some(en) => init_v.leq(&en),
                Option::None => false,
            },
            converged ==> converged_run(xf, code@, cfg, init_v, summary, pfp_ss, pfp_exits),
        decreases fuel - rounds,
    {
        let ghost snap = states@;
        let ghost mut exits: Seq<Option<T::State>> = Seq::new(nb as nat, |i: int| Option::None);
        let mut changed = false;
        let mut b: usize = 0;
        while b < nb
            invariant
                nb == cfg.blocks@.len(),
                states@.len() == nb,
                states_inv(states@),
                summary.inv(),
                init_v.leq(&summary),
                cfg.wf(code@.len() as int),
                code@.len() <= 0x1_0000,
                all_applicable(xf, code@),
                b <= nb,
                snap.len() == nb,
                exits.len() == nb,
                states_inv(snap),
                match states@[cfg.entry as int] {
                    Option::Some(en) => init_v.leq(&en),
                    Option::None => false,
                },
                !changed ==> states@ == snap,
                !changed ==> forall|bp: int|
                    0 <= bp < b ==> block_done(xf, code@, cfg, snap, exits, summary, bp),
                forall|bp: int| b <= bp < nb ==> (#[trigger] exits[bp]) is None,
            decreases nb - b,
        {
            let mut s_opt: Option<T::State> = Option::None;
            match &states[b] {
                Option::Some(st) => {
                    s_opt = Option::Some(st.dup());
                },
                Option::None => {},
            }
            match s_opt {
                Option::Some(mut s) => {
                    let ghost en_view = s@;
                    let lower = cfg.blocks[b].lower;
                    let upper = cfg.blocks[b].upper;
                    if !xf.backward() {
                        let mut off: usize = lower;
                        while off < upper
                            invariant
                                lower <= off,
                                upper <= code@.len(),
                                code@.len() <= 0x1_0000,
                                all_applicable(xf, code@),
                                s.inv(),
                                b < nb,
                                snap.len() == nb,
                                nb == cfg.blocks@.len(),
                                !changed ==> match snap[b as int] {
                                    Option::Some(en) => en_view == en@,
                                    Option::None => false,
                                },
                                !xf.spec_backward(),
                                spec_block_exec(xf, code@, off as int, upper as int, s@)
                                    == spec_block_exec(
                                    xf,
                                    code@,
                                    lower as int,
                                    upper as int,
                                    en_view,
                                ),
                            decreases upper - off,
                        {
                            xf.execute(&mut s, &code[off], off as CodeOffset);
                            off += 1;
                        }
                    } else {
                        let mut off: usize = upper;
                        while off > lower
                            invariant
                                lower <= off <= upper,
                                lower <= upper <= code@.len(),
                                code@.len() <= 0x1_0000,
                                all_applicable(xf, code@),
                                s.inv(),
                                b < nb,
                                snap.len() == nb,
                                nb == cfg.blocks@.len(),
                                !changed ==> match snap[b as int] {
                                    Option::Some(en) => en_view == en@,
                                    Option::None => false,
                                },
                                xf.spec_backward(),
                                spec_block_exec(xf, code@, lower as int, off as int, s@)
                                    == spec_block_exec(
                                    xf,
                                    code@,
                                    lower as int,
                                    upper as int,
                                    en_view,
                                ),
                            decreases off - lower,
                        {
                            off -= 1;
                            xf.execute(&mut s, &code[off], off as CodeOffset);
                        }
                    }
                    proof {
                        assert(s@ == spec_block_exec(
                            xf,
                            code@,
                            lower as int,
                            upper as int,
                            en_view,
                        ));
                    }
                    let nsucc = cfg.blocks[b].successors.len();
                    let mut k: usize = 0;
                    while k < nsucc
                        invariant
                            nb == cfg.blocks@.len(),
                            states@.len() == nb,
                            states_inv(states@),
                            s.inv(),
                            b < nb,
                            nsucc == cfg.blocks@[b as int].successors@.len(),
                            cfg.wf(code@.len() as int),
                            k <= nsucc,
                            snap.len() == nb,
                            match states@[cfg.entry as int] {
                                Option::Some(en) => init_v.leq(&en),
                                Option::None => false,
                            },
                            !changed ==> states@ == snap,
                            !changed ==> forall|bp: int|
                                0 <= bp < b ==> block_done(
                                    xf,
                                    code@,
                                    cfg,
                                    snap,
                                    exits,
                                    summary,
                                    bp,
                                ),
                            !changed ==> match snap[b as int] {
                                Option::Some(en) => en_view == en@,
                                Option::None => false,
                            },
                            !changed ==> forall|kp: int|
                                0 <= kp < k
                                    ==> match snap[
                                    #[trigger] cfg.blocks@[b as int].successors@[kp] as int] {
                                    Option::Some(sn) => s.leq(&sn),
                                    Option::None => false,
                                },
                        decreases nsucc - k,
                    {
                        let succ = cfg.blocks[b].successors[k];
                        let mut present = false;
                        match &states[succ] {
                            Option::Some(_) => {
                                present = true;
                            },
                            Option::None => {},
                        }
                        if present {
                            let ghost states_pre = states@;
                            let slot = &mut states[succ];
                            match slot {
                                Option::Some(st) => {
                                    let jr = st.join(&s);
                                    if jr == JoinResult::Changed {
                                        changed = true;
                                    }
                                    proof {
                                        if jr == JoinResult::Unchanged {
                                            assert(states@ =~= states_pre);
                                        }
                                        assert(states_inv(states@));
                                        match states_pre[cfg.entry as int] {
                                            Option::Some(en0) => {
                                                match states@[cfg.entry as int] {
                                                    Option::Some(en1) => {
                                                        if succ as int == cfg.entry as int {
                                                            assert(en0.leq(&en1));
                                                        } else {
                                                            assert(states@[cfg.entry as int]
                                                                == states_pre[cfg.entry as int]);
                                                            en0.lemma_leq_refl();
                                                            assert(en0.leq(&en1));
                                                        }
                                                        T::State::lemma_leq_trans(
                                                            &init_v,
                                                            &en0,
                                                            &en1,
                                                        );
                                                    },
                                                    Option::None => {},
                                                }
                                            },
                                            Option::None => {},
                                        }
                                    }
                                },
                                Option::None => {},
                            }
                        } else {
                            states[succ] = Option::Some(s.dup());
                            changed = true;
                            proof {
                                assert(states_inv(states@));
                            }
                        }
                        k += 1;
                    }
                    let ghost pre_sum = summary;
                    let _ = summary.join(&s);
                    proof {
                        T::State::lemma_leq_trans(&init_v, &pre_sum, &summary);
                        let ghost exits0 = exits;
                        exits = exits.update(b as int, Option::Some(s));
                        if !changed {
                            assert forall|bp: int| 0 <= bp < b + 1 implies block_done(
                                xf,
                                code@,
                                cfg,
                                snap,
                                exits,
                                summary,
                                bp,
                            ) by {
                                if bp < b {
                                    assert(block_done(xf, code@, cfg, snap, exits0, pre_sum, bp));
                                    assert(exits[bp] == exits0[bp]);
                                    match (snap[bp], exits0[bp]) {
                                        (Option::Some(en), Option::Some(ex)) => {
                                            T::State::lemma_leq_trans(&ex, &pre_sum, &summary);
                                        },
                                        _ => {},
                                    }
                                } else {
                                    assert(exits[bp] == Option::Some(s));
                                    match snap[b as int] {
                                        Option::Some(en) => {
                                            assert(en_view == en@);
                                            assert(s@ == spec_block_exec(
                                                xf,
                                                code@,
                                                cfg.blocks@[bp].lower as int,
                                                cfg.blocks@[bp].upper as int,
                                                en@,
                                            ));
                                            assert(s.leq(&summary));
                                        },
                                        Option::None => {
                                            assert(false);
                                        },
                                    }
                                }
                            }
                        }
                    }
                },
                Option::None => {
                    proof {
                        if !changed {
                            assert forall|bp: int| 0 <= bp < b + 1 implies block_done(
                                xf,
                                code@,
                                cfg,
                                snap,
                                exits,
                                summary,
                                bp,
                            ) by {
                                if bp == b {
                                    assert(snap[bp] is None);
                                    assert(exits[bp] is None);
                                }
                            }
                        }
                    }
                },
            }
            b += 1;
        }
        if !changed {
            converged = true;
            proof {
                pfp_ss = snap;
                pfp_exits = exits;
                assert(converged_run(xf, code@, cfg, init_v, summary, pfp_ss, pfp_exits));
            }
        }
        rounds += 1;
    }
    (summary, converged)
}

} // verus!
