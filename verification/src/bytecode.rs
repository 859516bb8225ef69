//! The bytecode shapes the analysis reads, and the control-flow graph that
//! drives the dataflow engine. Instructions the analysis does not inspect
//! are represented by their control shape (labels, jumps, branches,
//! returns) or by `Other`.

use vstd::prelude::*;
use crate::ast::Exp;
use crate::ids::{FunId, ModuleId, StructId, TempIndex};
use crate::ty::{QualifiedInstId, Type};

verus! {

/// Identifies an instruction attribute (source location etc.).
#[derive(Clone, Copy, Debug, PartialEq, Eq, Structural)]
pub struct AttrId(pub usize);

/// A branch label.
#[derive(Clone, Copy, Debug, PartialEq, Eq, Structural)]
pub struct Label(pub usize);

/// The kind of a specification pseudo-instruction.
#[derive(Clone, Copy, Debug, PartialEq, Eq, Structural)]
pub enum PropKind {
    Assert,
    Assume,
    Modifies,
}

/// A node in the borrow graph, as far as write-backs name one.
#[derive(Debug)]
pub enum BorrowNode {
    LocalRoot(TempIndex),
    GlobalRoot(QualifiedInstId),
    Reference(TempIndex),
}

/// An operation of a call instruction.
#[derive(Debug)]
pub enum BytecodeOperation {
    /// A call to another function, with its type instantiation.
    Function(ModuleId, FunId, Vec<Type>),
    /// The begin marker of an opaque call.
    OpaqueCallBegin(ModuleId, FunId, Vec<Type>),
    /// The end marker of an opaque call.
    OpaqueCallEnd(ModuleId, FunId, Vec<Type>),
    /// Moves a resource into global memory.
    MoveTo(ModuleId, StructId, Vec<Type>),
    /// Moves a resource out of global memory.
    MoveFrom(ModuleId, StructId, Vec<Type>),
    /// Borrows a resource in global memory.
    BorrowGlobal(ModuleId, StructId, Vec<Type>),
    /// Writes a borrowed value back to its source.
    WriteBack(BorrowNode),
    /// Tests existence of a resource in global memory.
    Exists(ModuleId, StructId, Vec<Type>),
    /// Reads a resource from global memory.
    GetGlobal(ModuleId, StructId, Vec<Type>),
    /// Any operation without memory effect for this analysis.
    Other,
}

/// A bytecode instruction.
#[derive(Debug)]
pub enum Bytecode {
    /// A call with destinations, operation and sources.
    Call(AttrId, Vec<TempIndex>, BytecodeOperation, Vec<TempIndex>),
    /// A specification pseudo-instruction carrying an expression.
    Prop(AttrId, PropKind, Exp),
    /// A label definition.
    Label(AttrId, Label),
    /// An unconditional jump.
    Jump(AttrId, Label),
    /// A conditional branch on a temporary.
    Branch(AttrId, Label, Label, TempIndex),
    /// A return.
    Ret(AttrId, Vec<TempIndex>),
    /// No operation.
    Nop(AttrId),
}

/// A basic block: the instruction range `[lower, upper)` and the indices of
/// the successor blocks.
#[derive(Debug)]
pub struct BasicBlock {
    pub lower: usize,
    pub upper: usize,
    pub successors: Vec<usize>,
}

/// A control-flow graph over an instruction vector.
#[derive(Debug)]
pub struct ControlFlowGraph {
    pub blocks: Vec<BasicBlock>,
    pub entry: usize,
}

impl ControlFlowGraph {
    /// Well-formedness against a code vector of length `code_len`: the
    /// entry names a block, each block's range lies within the code, and
    /// every successor names a block.
    pub open spec fn wf(&self, code_len: int) -> bool {
        &&& self.entry < self.blocks@.len()
        &&& forall|b: int|
            0 <= b < self.blocks@.len() ==> {
                &&& (#[trigger] self.blocks@[b]).lower <= self.blocks@[b].upper
                &&& self.blocks@[b].upper <= code_len
                &&& forall|k: int|
                    0 <= k < self.blocks@[b].successors@.len()
                        ==> (#[trigger] self.blocks@[b].successors@[k]) < self.blocks@.len()
            }
    }

    /// A graph with one block spanning the whole code and no edges: the
    /// shape of straight-line code.
    pub fn single_block(code_len: usize) -> (r: ControlFlowGraph)
        ensures
            r.wf(code_len as int),
            r.blocks@.len() == 1,
            r.entry == 0,
            r.blocks@[0].lower == 0,
            r.blocks@[0].upper == code_len,
            r.blocks@[0].successors@.len() == 0,
    {
        let blocks = vec![BasicBlock { lower: 0, upper: code_len, successors: Vec::new() }];
        ControlFlowGraph { blocks, entry: 0 }
    }
}

} // verus!
