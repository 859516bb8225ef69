//! Plain identifier types. Every entity of the model — modules, structs,
//! functions, specification functions, fields, expression nodes, symbols —
//! is addressed by a small index; the tables they index live in the global
//! model (see `model`).

use vstd::prelude::*;

verus! {

/// Identifies a module.
#[derive(Clone, Copy, Debug, PartialEq, Eq, Structural)]
pub struct ModuleId(pub usize);

/// Identifies a struct within its module.
#[derive(Clone, Copy, Debug, PartialEq, Eq, Structural)]
pub struct StructId(pub usize);

/// Identifies an ordinary (bytecode) function within its module.
#[derive(Clone, Copy, Debug, PartialEq, Eq, Structural)]
pub struct FunId(pub usize);

/// Identifies a specification function within its module.
#[derive(Clone, Copy, Debug, PartialEq, Eq, Structural)]
pub struct SpecFunId(pub usize);

/// Identifies a field of a struct.
#[derive(Clone, Copy, Debug, PartialEq, Eq, Structural)]
pub struct FieldId(pub usize);

/// Identifies an expression node. Node ids are globally unique and key the
/// attribute tables (type, instantiation, location) of the global model.
#[derive(Clone, Copy, Debug, PartialEq, Eq, Structural)]
pub struct NodeId(pub usize);

/// A globally unique id, used among others as a memory label which
/// disambiguates historical snapshots of the same memory.
#[derive(Clone, Copy, Debug, PartialEq, Eq, Structural)]
pub struct GlobalId(pub usize);

/// A label used for referring to a specific memory in `Global` and `Exists`
/// expressions.
pub type MemoryLabel = GlobalId;

/// An interned symbol (a name); the strings live in a symbol pool.
#[derive(Clone, Copy, Debug, PartialEq, Eq, Structural)]
pub struct Symbol(pub usize);

/// A type alias for temporaries. Those are locals used in bytecode.
pub type TempIndex = usize;

/// A code offset within a function's bytecode.
pub type CodeOffset = u16;

/// Identifies a schema within its module.
#[derive(Clone, Copy, Debug, PartialEq, Eq, Structural)]
pub struct SchemaId(pub usize);

/// A source location: a file and a byte span within it.
#[derive(Clone, Copy, Debug, PartialEq, Eq, Structural)]
pub struct Loc {
    pub file_id: u64,
    pub span_start: u64,
    pub span_end: u64,
}

} // verus!
