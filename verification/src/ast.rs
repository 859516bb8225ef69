//! The expression model: immutable, structurally shared formula trees.
//!
//! Expression data is held in an arena (`ExpArena`); an expression (`Exp`) is
//! a handle into it. Children of a node are handles of earlier arena entries,
//! so every tree is acyclic by construction. The arena interns: no two
//! entries hold equal data, hence equal handles mean equal trees and interning
//! the same data twice hands back the same handle.

use vstd::prelude::*;
use crate::ids::{
    CodeOffset, FieldId, FunId, GlobalId, Loc, MemoryLabel, ModuleId, NodeId, SchemaId, SpecFunId,
    StructId, Symbol, TempIndex,
};
use crate::ty::{QualifiedInstId, Type};
use vstd::string::StringSliceAdditionalSpecFns;

verus! {

/// A literal value.
#[derive(Debug, Clone)]
pub enum Value {
    /// An account address, 128 bits in this system.
    Address(u128),
    /// A number literal.
    Number(i128),
    /// A boolean literal.
    Bool(bool),
    /// A byte-array literal.
    ByteArray(Vec<u8>),
}

/// Equality of literal values.
pub open spec fn value_eq(a: Value, b: Value) -> bool {
    match (a, b) {
        (Value::Address(x), Value::Address(y)) => x == y,
        (Value::Number(x), Value::Number(y)) => x == y,
        (Value::Bool(x), Value::Bool(y)) => x == y,
        (Value::ByteArray(x), Value::ByteArray(y)) => x@ == y@,
        _ => false,
    }
}

impl Value {
    /// Decides `value_eq`.
    pub fn eq_value(&self, other: &Value) -> (r: bool)
        ensures
            r == value_eq(*self, *other),
    {
        match (self, other) {
            (Value::Address(x), Value::Address(y)) => x == y,
            (Value::Number(x), Value::Number(y)) => x == y,
            (Value::Bool(x), Value::Bool(y)) => x == y,
            (Value::ByteArray(x), Value::ByteArray(y)) => {
                if x.len() != y.len() {
                    proof {
                        assert(x@.len() != y@.len());
                    }
                    return false;
                }
                let mut i: usize = 0;
                while i < x.len()
                    invariant
                        i <= x@.len(),
                        x@.len() == y@.len(),
                        forall|k: int| 0 <= k < i ==> x@[k] == y@[k],
                        *self == Value::ByteArray(*x),
                        *other == Value::ByteArray(*y),
                    decreases x@.len() - i,
                {
                    if x[i] != y[i] {
                        proof {
                            assert(x@[i as int] != y@[i as int]);
                        }
                        return false;
                    }
                    i += 1;
                }
                proof {
                    assert(x@ =~= y@);
                }
                true
            }
            _ => false,
        }
    }
}

/// The kind of a quantifier.
#[derive(Clone, Copy, Debug, PartialEq, Eq, Structural)]
pub enum QuantKind {
    Forall,
    Exists,
    Choose,
    ChooseMin,
}

impl QuantKind {
    /// Returns true if this is a choice like Some or Min.
    pub fn is_choice(self) -> (r: bool)
        ensures
            r == (self == QuantKind::Choose || self == QuantKind::ChooseMin),
    {
        match self {
            QuantKind::Choose | QuantKind::ChooseMin => true,
            _ => false,
        }
    }
}

/// An operation: all builtin functions (operators, constants, memory
/// predicates, vector builtins, internal plumbing) as well as calls to
/// user-defined specification functions.
#[derive(Debug, Clone)]
pub enum Operation {
    /// A call to a specification function, optionally labelled with one
    /// memory label per memory the callee uses.
    Function(ModuleId, SpecFunId, Option<Vec<MemoryLabel>>),
    Pack(ModuleId, StructId),
    Tuple,
    Select(ModuleId, StructId, FieldId),
    UpdateField(ModuleId, StructId, FieldId),
    Result(usize),
    Index,
    Slice,
    // Binary operators
    Range,
    Add,
    Sub,
    Mul,
    Mod,
    Div,
    BitOr,
    BitAnd,
    Xor,
    Shl,
    Shr,
    Implies,
    Iff,
    And,
    Or,
    Eq,
    Identical,
    Neq,
    Lt,
    Gt,
    Le,
    Ge,
    // Unary operators
    Not,
    // Builtin functions
    Len,
    TypeValue,
    TypeDomain,
    ResourceDomain,
    /// A read of a global memory cell, optionally of a labelled snapshot.
    Global(Option<MemoryLabel>),
    /// An existence test on a global memory cell, optionally labelled.
    Exists(Option<MemoryLabel>),
    CanModify,
    Old,
    Trace,
    EmptyVec,
    SingleVec,
    UpdateVec,
    ConcatVec,
    IndexOfVec,
    ContainsVec,
    InRangeRange,
    InRangeVec,
    RangeVec,
    MaxU8,
    MaxU64,
    MaxU128,
    // Operations supporting the transformation and translation process
    AbortFlag,
    AbortCode,
    WellFormed,
    BoxValue,
    UnboxValue,
    EmptyEventStore,
    ExtendEventStore,
    EventStoreIncludes,
    EventStoreIncludedIn,
    // Operation with no effect
    NoOp,
}

/// Equality of optional label lists.
pub open spec fn labels_eq(a: Option<Vec<MemoryLabel>>, b: Option<Vec<MemoryLabel>>) -> bool {
    match (a, b) {
        (Option::None, Option::None) => true,
        (Option::Some(x), Option::Some(y)) => x@ == y@,
        _ => false,
    }
}

/// Equality of operations. All variants but `Function` hold plain values, so
/// value equality decides them; a `Function`'s label list is compared by
/// contents.
pub open spec fn oper_eq(a: Operation, b: Operation) -> bool {
    match (a, b) {
        (Operation::Function(m1, f1, l1), Operation::Function(m2, f2, l2)) => m1 == m2 && f1 == f2
            && labels_eq(l1, l2),
        (Operation::Function(_, _, _), _) => false,
        (_, Operation::Function(_, _, _)) => false,
        _ => a == b,
    }
}

/// A declaration of a local variable within an expression (a lambda or block
/// binder, or a quantifier's bound variable).
#[derive(Clone, Copy, Debug, PartialEq, Eq, Structural)]
pub struct LocalVarDecl {
    pub id: NodeId,
    pub name: Symbol,
    /// An optional binding expression (for block bindings).
    pub binding: Option<Exp>,
}

/// An expression: a handle into the arena that holds its data.
#[derive(Clone, Copy, Debug, PartialEq, Eq, Structural)]
pub struct Exp(pub usize);

/// The data of one expression node. Child expressions are handles to earlier
/// arena entries.
#[derive(Debug, Clone)]
pub enum ExpData {
    /// An invalid expression, used as a stub by producers that recover from
    /// errors. Consumers may assume it is absent in well-formed input.
    Invalid(NodeId),
    /// A literal value.
    Value(NodeId, Value),
    /// A reference to a local variable introduced by a specification
    /// construct, e.g. a quantifier.
    LocalVar(NodeId, Symbol),
    /// A reference to a temporary used in bytecode.
    Temporary(NodeId, TempIndex),
    /// A call to an operation.
    Call(NodeId, Operation, Vec<Exp>),
    /// An invocation of a function value, as a lambda.
    Invoke(NodeId, Exp, Vec<Exp>),
    /// A lambda.
    Lambda(NodeId, Vec<LocalVarDecl>, Exp),
    /// A quantified formula: kind, ranges of (binder, domain), trigger
    /// groups, optional `where` clause, body.
    Quant(NodeId, QuantKind, Vec<(LocalVarDecl, Exp)>, Vec<Vec<Exp>>, Option<Exp>, Exp),
    /// A block with variable bindings and a body.
    Block(NodeId, Vec<LocalVarDecl>, Exp),
    /// A conditional.
    IfElse(NodeId, Exp, Exp, Exp),
}

/// The contents of a sequence of trigger groups.
pub open spec fn triggers_view(ts: Seq<Vec<Exp>>) -> Seq<Seq<Exp>> {
    ts.map_values(|v: Vec<Exp>| v@)
}

/// Equality of expression data. Children are compared as handles: in an
/// interned arena, equal handles are equal trees.
pub open spec fn data_eq(a: ExpData, b: ExpData) -> bool {
    match (a, b) {
        (ExpData::Invalid(i1), ExpData::Invalid(i2)) => i1 == i2,
        (ExpData::Value(i1, v1), ExpData::Value(i2, v2)) => i1 == i2 && value_eq(v1, v2),
        (ExpData::LocalVar(i1, s1), ExpData::LocalVar(i2, s2)) => i1 == i2 && s1 == s2,
        (ExpData::Temporary(i1, t1), ExpData::Temporary(i2, t2)) => i1 == i2 && t1 == t2,
        (ExpData::Call(i1, o1, a1), ExpData::Call(i2, o2, a2)) => i1 == i2 && oper_eq(o1, o2)
            && a1@ == a2@,
        (ExpData::Invoke(i1, t1, a1), ExpData::Invoke(i2, t2, a2)) => i1 == i2 && t1 == t2 && a1@
            == a2@,
        (ExpData::Lambda(i1, d1, b1), ExpData::Lambda(i2, d2, b2)) => i1 == i2 && d1@ == d2@ && b1
            == b2,
        (
            ExpData::Quant(i1, k1, r1, t1, c1, b1),
            ExpData::Quant(i2, k2, r2, t2, c2, b2),
        ) => i1 == i2 && k1 == k2 && r1@ == r2@ && triggers_view(t1@) == triggers_view(t2@) && c1
            == c2 && b1 == b2,
        (ExpData::Block(i1, d1, b1), ExpData::Block(i2, d2, b2)) => i1 == i2 && d1@ == d2@ && b1
            == b2,
        (ExpData::IfElse(i1, c1, t1, e1), ExpData::IfElse(i2, c2, t2, e2)) => i1 == i2 && c1 == c2
            && t1 == t2 && e1 == e2,
        _ => false,
    }
}

/// Decides equality of optional memory labels.
fn label_opt_eq(a: Option<MemoryLabel>, b: Option<MemoryLabel>) -> (r: bool)
    ensures
        r == (a == b),
{
    match (a, b) {
        (Option::None, Option::None) => true,
        (Option::Some(x), Option::Some(y)) => x == y,
        _ => false,
    }
}

/// Decides equality of optional label lists.
fn labels_eq_exec(a: &Option<Vec<MemoryLabel>>, b: &Option<Vec<MemoryLabel>>) -> (r: bool)
    ensures
        r == labels_eq(*a, *b),
{
    match (a, b) {
        (Option::None, Option::None) => true,
        (Option::Some(x), Option::Some(y)) => {
            if x.len() != y.len() {
                proof {
                    assert(x@.len() != y@.len());
                }
                return false;
            }
            let mut i: usize = 0;
            while i < x.len()
                invariant
                    i <= x@.len(),
                    x@.len() == y@.len(),
                    forall|k: int| 0 <= k < i ==> x@[k] == y@[k],
                    *a == Option::Some(*x),
                    *b == Option::Some(*y),
                decreases x@.len() - i,
            {
                if x[i].0 != y[i].0 {
                    proof {
                        assert(x@[i as int] != y@[i as int]);
                    }
                    return false;
                }
                i += 1;
            }
            proof {
                assert(x@ =~= y@);
            }
            true
        }
        _ => false,
    }
}

impl Operation {
    /// Decides `oper_eq`.
    pub fn eq_oper(&self, other: &Operation) -> (r: bool)
        ensures
            r == oper_eq(*self, *other),
    {
        match (self, other) {
            (Operation::Function(m1, f1, l1), Operation::Function(m2, f2, l2)) => m1 == m2 && f1
                == f2 && labels_eq_exec(l1, l2),
            (Operation::Pack(m1, s1), Operation::Pack(m2, s2)) => m1 == m2 && s1 == s2,
            (Operation::Select(m1, s1, f1), Operation::Select(m2, s2, f2)) => m1 == m2 && s1 == s2
                && f1 == f2,
            (Operation::UpdateField(m1, s1, f1), Operation::UpdateField(m2, s2, f2)) => m1 == m2
                && s1 == s2 && f1 == f2,
            (Operation::Result(t1), Operation::Result(t2)) => t1 == t2,
            (Operation::Global(l1), Operation::Global(l2)) => label_opt_eq(*l1, *l2),
            (Operation::Exists(l1), Operation::Exists(l2)) => label_opt_eq(*l1, *l2),
            (Operation::Tuple, Operation::Tuple)
            | (Operation::Index, Operation::Index)
            | (Operation::Slice, Operation::Slice)
            | (Operation::Range, Operation::Range)
            | (Operation::Add, Operation::Add)
            | (Operation::Sub, Operation::Sub)
            | (Operation::Mul, Operation::Mul)
            | (Operation::Mod, Operation::Mod)
            | (Operation::Div, Operation::Div)
            | (Operation::BitOr, Operation::BitOr)
            | (Operation::BitAnd, Operation::BitAnd)
            | (Operation::Xor, Operation::Xor)
            | (Operation::Shl, Operation::Shl)
            | (Operation::Shr, Operation::Shr)
            | (Operation::Implies, Operation::Implies)
            | (Operation::Iff, Operation::Iff)
            | (Operation::And, Operation::And)
            | (Operation::Or, Operation::Or)
            | (Operation::Eq, Operation::Eq)
            | (Operation::Identical, Operation::Identical)
            | (Operation::Neq, Operation::Neq)
            | (Operation::Lt, Operation::Lt)
            | (Operation::Gt, Operation::Gt)
            | (Operation::Le, Operation::Le)
            | (Operation::Ge, Operation::Ge)
            | (Operation::Not, Operation::Not)
            | (Operation::Len, Operation::Len)
            | (Operation::TypeValue, Operation::TypeValue)
            | (Operation::TypeDomain, Operation::TypeDomain)
            | (Operation::ResourceDomain, Operation::ResourceDomain)
            | (Operation::CanModify, Operation::CanModify)
            | (Operation::Old, Operation::Old)
            | (Operation::Trace, Operation::Trace)
            | (Operation::EmptyVec, Operation::EmptyVec)
            | (Operation::SingleVec, Operation::SingleVec)
            | (Operation::UpdateVec, Operation::UpdateVec)
            | (Operation::ConcatVec, Operation::ConcatVec)
            | (Operation::IndexOfVec, Operation::IndexOfVec)
            | (Operation::ContainsVec, Operation::ContainsVec)
            | (Operation::InRangeRange, Operation::InRangeRange)
            | (Operation::InRangeVec, Operation::InRangeVec)
            | (Operation::RangeVec, Operation::RangeVec)
            | (Operation::MaxU8, Operation::MaxU8)
            | (Operation::MaxU64, Operation::MaxU64)
            | (Operation::MaxU128, Operation::MaxU128)
            | (Operation::AbortFlag, Operation::AbortFlag)
            | (Operation::AbortCode, Operation::AbortCode)
            | (Operation::WellFormed, Operation::WellFormed)
            | (Operation::BoxValue, Operation::BoxValue)
            | (Operation::UnboxValue, Operation::UnboxValue)
            | (Operation::EmptyEventStore, Operation::EmptyEventStore)
            | (Operation::ExtendEventStore, Operation::ExtendEventStore)
            | (Operation::EventStoreIncludes, Operation::EventStoreIncludes)
            | (Operation::EventStoreIncludedIn, Operation::EventStoreIncludedIn)
            | (Operation::NoOp, Operation::NoOp) => true,
            _ => false,
        }
    }
}

/// Decides equality of handle vectors.
fn exps_eq(a: &Vec<Exp>, b: &Vec<Exp>) -> (r: bool)
    ensures
        r == (a@ == b@),
{
    if a.len() != b.len() {
        proof {
            assert(a@.len() != b@.len());
        }
        return false;
    }
    let mut i: usize = 0;
    while i < a.len()
        invariant
            i <= a@.len(),
            a@.len() == b@.len(),
            forall|k: int| 0 <= k < i ==> a@[k] == b@[k],
        decreases a@.len() - i,
    {
        if a[i] != b[i] {
            proof {
                assert(a@[i as int] != b@[i as int]);
            }
            return false;
        }
        i += 1;
    }
    proof {
        assert(a@ =~= b@);
    }
    true
}

/// Decides equality of binder declaration vectors.
fn decls_eq(a: &Vec<LocalVarDecl>, b: &Vec<LocalVarDecl>) -> (r: bool)
    ensures
        r == (a@ == b@),
{
    if a.len() != b.len() {
        proof {
            assert(a@.len() != b@.len());
        }
        return false;
    }
    let mut i: usize = 0;
    while i < a.len()
        invariant
            i <= a@.len(),
            a@.len() == b@.len(),
            forall|k: int| 0 <= k < i ==> a@[k] == b@[k],
        decreases a@.len() - i,
    {
        if a[i] != b[i] {
            proof {
                assert(a@[i as int] != b@[i as int]);
            }
            return false;
        }
        i += 1;
    }
    proof {
        assert(a@ =~= b@);
    }
    true
}

/// Decides equality of quantifier range vectors.
fn ranges_eq(a: &Vec<(LocalVarDecl, Exp)>, b: &Vec<(LocalVarDecl, Exp)>) -> (r: bool)
    ensures
        r == (a@ == b@),
{
    if a.len() != b.len() {
        proof {
            assert(a@.len() != b@.len());
        }
        return false;
    }
    let mut i: usize = 0;
    while i < a.len()
        invariant
            i <= a@.len(),
            a@.len() == b@.len(),
            forall|k: int| 0 <= k < i ==> a@[k] == b@[k],
        decreases a@.len() - i,
    {
        let (d1, e1) = a[i];
        let (d2, e2) = b[i];
        if d1 != d2 || e1 != e2 {
            proof {
                assert(a@[i as int] != b@[i as int]);
            }
            return false;
        }
        proof {
            assert(a@[i as int] == b@[i as int]);
        }
        i += 1;
    }
    proof {
        assert(a@ =~= b@);
    }
    true
}

/// Decides equality of trigger groups by contents.
fn triggers_eq(a: &Vec<Vec<Exp>>, b: &Vec<Vec<Exp>>) -> (r: bool)
    ensures
        r == (triggers_view(a@) == triggers_view(b@)),
{
    if a.len() != b.len() {
        proof {
            assert(triggers_view(a@).len() != triggers_view(b@).len());
        }
        return false;
    }
    let mut i: usize = 0;
    while i < a.len()
        invariant
            i <= a@.len(),
            a@.len() == b@.len(),
            forall|k: int| 0 <= k < i ==> a@[k]@ == b@[k]@,
        decreases a@.len() - i,
    {
        if !exps_eq(&a[i], &b[i]) {
            proof {
                assert(triggers_view(a@)[i as int] != triggers_view(b@)[i as int]);
            }
            return false;
        }
        i += 1;
    }
    proof {
        assert(triggers_view(a@) =~= triggers_view(b@));
    }
    true
}

/// Decides equality of optional handles.
fn exp_opt_eq(a: Option<Exp>, b: Option<Exp>) -> (r: bool)
    ensures
        r == (a == b),
{
    match (a, b) {
        (Option::None, Option::None) => true,
        (Option::Some(x), Option::Some(y)) => x == y,
        _ => false,
    }
}

impl ExpData {
    /// Decides `data_eq`.
    pub fn eq_data(&self, other: &ExpData) -> (r: bool)
        ensures
            r == data_eq(*self, *other),
    {
        match (self, other) {
            (ExpData::Invalid(i1), ExpData::Invalid(i2)) => i1 == i2,
            (ExpData::Value(i1, v1), ExpData::Value(i2, v2)) => i1 == i2 && v1.eq_value(v2),
            (ExpData::LocalVar(i1, s1), ExpData::LocalVar(i2, s2)) => i1 == i2 && s1 == s2,
            (ExpData::Temporary(i1, t1), ExpData::Temporary(i2, t2)) => i1 == i2 && t1 == t2,
            (ExpData::Call(i1, o1, a1), ExpData::Call(i2, o2, a2)) => i1 == i2 && o1.eq_oper(o2)
                && exps_eq(a1, a2),
            (ExpData::Invoke(i1, t1, a1), ExpData::Invoke(i2, t2, a2)) => i1 == i2 && t1 == t2
                && exps_eq(a1, a2),
            (ExpData::Lambda(i1, d1, b1), ExpData::Lambda(i2, d2, b2)) => i1 == i2 && decls_eq(
                d1,
                d2,
            ) && b1 == b2,
            (
                ExpData::Quant(i1, k1, r1, t1, c1, b1),
                ExpData::Quant(i2, k2, r2, t2, c2, b2),
            ) => i1 == i2 && k1 == k2 && ranges_eq(r1, r2) && triggers_eq(t1, t2) && exp_opt_eq(
                *c1,
                *c2,
            ) && b1 == b2,
            (ExpData::Block(i1, d1, b1), ExpData::Block(i2, d2, b2)) => i1 == i2 && decls_eq(d1, d2)
                && b1 == b2,
            (ExpData::IfElse(i1, c1, t1, e1), ExpData::IfElse(i2, c2, t2, e2)) => i1 == i2 && c1
                == c2 && t1 == t2 && e1 == e2,
            _ => false,
        }
    }
}

/// `data_eq` is symmetric.
pub proof fn lemma_data_eq_sym(a: ExpData, b: ExpData)
    ensures
        data_eq(a, b) == data_eq(b, a),
{
}

/// The binding handles of a binder declaration list, bounded by `bound`.
pub open spec fn decls_bounded(ds: Seq<LocalVarDecl>, bound: int) -> bool {
    forall|k: int|
        0 <= k < ds.len() ==> match (#[trigger] ds[k]).binding {
            Option::Some(e) => e.0 < bound,
            Option::None => true,
        }
}

/// All handles in a handle list are below `bound`.
pub open spec fn exps_bounded(es: Seq<Exp>, bound: int) -> bool {
    forall|k: int| 0 <= k < es.len() ==> es[k].0 < bound
}

/// Every child handle of `d` is below `bound`. A node whose children are
/// below its own arena index can only form acyclic trees.
pub open spec fn children_bounded(d: ExpData, bound: int) -> bool {
    match d {
        ExpData::Invalid(_) => true,
        ExpData::Value(_, _) => true,
        ExpData::LocalVar(_, _) => true,
        ExpData::Temporary(_, _) => true,
        ExpData::Call(_, _, args) => exps_bounded(args@, bound),
        ExpData::Invoke(_, target, args) => target.0 < bound && exps_bounded(args@, bound),
        ExpData::Lambda(_, decls, body) => decls_bounded(decls@, bound) && body.0 < bound,
        ExpData::Quant(_, _, ranges, triggers, cond, body) => {
            &&& forall|k: int|
                0 <= k < ranges@.len() ==> {
                    &&& match ranges@[k].0.binding {
                        Option::Some(e) => e.0 < bound,
                        Option::None => true,
                    }
                    &&& ranges@[k].1.0 < bound
                }
            &&& forall|k: int|
                0 <= k < triggers@.len() ==> exps_bounded(triggers_view(triggers@)[k], bound)
            &&& match cond {
                Option::Some(e) => e.0 < bound,
                Option::None => true,
            }
            &&& body.0 < bound
        },
        ExpData::Block(_, decls, body) => decls_bounded(decls@, bound) && body.0 < bound,
        ExpData::IfElse(_, c, t, e) => c.0 < bound && t.0 < bound && e.0 < bound,
    }
}

/// The arena that holds all expression data. Interning keeps it canonical:
/// no two entries hold equal data.
#[derive(Debug)]
pub struct ExpArena {
    pub nodes: Vec<ExpData>,
}

impl ExpArena {
    /// Well-formedness: children point strictly downwards, and no two
    /// entries are equal.
    pub open spec fn wf(&self) -> bool {
        &&& forall|i: int|
            0 <= i < self.nodes@.len() ==> children_bounded(#[trigger] self.nodes@[i], i)
        &&& forall|i: int, j: int|
            0 <= i < j < self.nodes@.len() ==> !data_eq(self.nodes@[i], self.nodes@[j])
    }

    /// Whether `e` is a handle into this arena.
    pub open spec fn has(&self, e: Exp) -> bool {
        e.0 < self.nodes@.len()
    }

    /// The data of a handle.
    pub open spec fn spec_data_of(&self, e: Exp) -> ExpData {
        self.nodes@[e.0 as int]
    }

    /// An empty arena.
    pub fn new() -> (r: ExpArena)
        ensures
            r.wf(),
            r.nodes@.len() == 0,
    {
        ExpArena { nodes: Vec::new() }
    }

    /// The number of entries.
    pub fn len(&self) -> (r: usize)
        ensures
            r == self.nodes@.len(),
    {
        self.nodes.len()
    }

    /// Reads the data of a handle.
    pub fn data_of(&self, e: Exp) -> (r: &ExpData)
        requires
            self.has(e),
        ensures
            *r == self.spec_data_of(e),
    {
        &self.nodes[e.0]
    }

    /// Interns expression data: hands back the handle of an entry equal to
    /// `d`, adding one only if none exists. The arena never changes
    /// otherwise, so previously obtained handles stay valid.
    pub fn intern(&mut self, d: ExpData) -> (e: Exp)
        requires
            old(self).wf(),
            children_bounded(d, old(self).nodes@.len() as int),
        ensures
            final(self).wf(),
            final(self).has(e),
            data_eq(final(self).spec_data_of(e), d),
            old(self).nodes@.is_prefix_of(final(self).nodes@),
            final(self).nodes@.len() <= old(self).nodes@.len() + 1,
            final(self).nodes@.len() > old(self).nodes@.len() ==> final(self).nodes@ == old(
                self,
            ).nodes@.push(d),
            (exists|k: int|
                0 <= k < old(self).nodes@.len() && data_eq(old(self).nodes@[k], d))
                ==> final(self).nodes@ == old(self).nodes@,
    {
        let n = self.nodes.len();
        let mut k: usize = 0;
        while k < n
            invariant
                n == self.nodes@.len(),
                k <= n,
                self.wf(),
                forall|j: int| 0 <= j < k ==> !data_eq(self.nodes@[j], d),
            decreases n - k,
        {
            if self.nodes[k].eq_data(&d) {
                proof {
                    assert(old(self).nodes@.is_prefix_of(self.nodes@));
                }
                return Exp(k);
            }
            k += 1;
        }
        self.nodes.push(d);
        proof {
            let m = self.nodes@.len() - 1;
            assert(self.nodes@[m] == d);
            assert forall|i: int, j: int|
                0 <= i < j < self.nodes@.len() implies !data_eq(
                self.nodes@[i],
                self.nodes@[j],
            ) by {
                if j < m {
                    assert(!data_eq(old(self).nodes@[i], old(self).nodes@[j]));
                } else {
                    assert(!data_eq(self.nodes@[i], d));
                    lemma_data_eq_sym(self.nodes@[i], d);
                }
            }
            assert(old(self).nodes@.is_prefix_of(self.nodes@));
            lemma_data_eq_refl(d);
        }
        Exp(n)
    }
}

/// `data_eq` is reflexive.
pub proof fn lemma_data_eq_refl(a: ExpData)
    ensures
        data_eq(a, a),
{
}

impl ExpData {
    /// The node id of this expression data.
    pub open spec fn spec_node_id(&self) -> NodeId {
        match *self {
            ExpData::Invalid(id) => id,
            ExpData::Value(id, _) => id,
            ExpData::LocalVar(id, _) => id,
            ExpData::Temporary(id, _) => id,
            ExpData::Call(id, _, _) => id,
            ExpData::Invoke(id, _, _) => id,
            ExpData::Lambda(id, _, _) => id,
            ExpData::Quant(id, _, _, _, _, _) => id,
            ExpData::Block(id, _, _) => id,
            ExpData::IfElse(id, _, _, _) => id,
        }
    }

    /// Every node carries an id; this returns it.
    pub fn node_id(&self) -> (r: NodeId)
        ensures
            r == self.spec_node_id(),
    {
        match self {
            ExpData::Invalid(id) => *id,
            ExpData::Value(id, _) => *id,
            ExpData::LocalVar(id, _) => *id,
            ExpData::Temporary(id, _) => *id,
            ExpData::Call(id, _, _) => *id,
            ExpData::Invoke(id, _, _) => *id,
            ExpData::Lambda(id, _, _) => *id,
            ExpData::Quant(id, _, _, _, _, _) => *id,
            ExpData::Block(id, _, _) => *id,
            ExpData::IfElse(id, _, _, _) => *id,
        }
    }

    /// The arguments of a call. The caller must know the node is a call;
    /// anything else is an internal invariant violation upstream.
    pub fn call_args(&self) -> (r: &Vec<Exp>)
        requires
            self matches ExpData::Call(_, _, _),
        ensures
            *self matches ExpData::Call(_, _, args) && r@ == args@,
    {
        match self {
            ExpData::Call(_, _, args) => args,
            _ => {
                proof {
                    assert(false);
                }
                vstd::pervasive::unreached()
            }
        }
    }

    /// Interns this data in the arena, handing back its handle.
    pub fn into_exp(self, arena: &mut ExpArena) -> (e: Exp)
        requires
            old(arena).wf(),
            children_bounded(self, old(arena).nodes@.len() as int),
        ensures
            final(arena).wf(),
            final(arena).has(e),
            data_eq(final(arena).spec_data_of(e), self),
            old(arena).nodes@.is_prefix_of(final(arena).nodes@),
    {
        arena.intern(self)
    }

    /// In an interned arena, handle equality decides tree equality.
    pub fn ptr_eq(e1: Exp, e2: Exp) -> (r: bool)
        ensures
            r == (e1 == e2),
    {
        e1 == e2
    }
}

// =========================================================================
// Declarations, conditions and specifications

/// The visibility of a function.
#[derive(Clone, Copy, Debug, PartialEq, Eq, Structural)]
pub enum FunctionVisibility {
    Private,
    Public,
    Friend,
    Script,
}

/// A type parameter declaration, by name.
#[derive(Clone, Copy, Debug, PartialEq, Eq, Structural)]
pub struct TypeParameter(pub Symbol);

/// The kind tag of a condition.
#[derive(Debug, Clone)]
pub enum ConditionKind {
    LetPost(Symbol),
    LetPre(Symbol),
    Assert,
    Assume,
    Decreases,
    AbortsIf,
    AbortsWith,
    SucceedsIf,
    Modifies,
    Emits,
    Ensures,
    Requires,
    StructInvariant,
    FunctionInvariant,
    LoopInvariant,
    GlobalInvariant(Vec<Symbol>),
    GlobalInvariantUpdate(Vec<Symbol>),
    SchemaInvariant,
    Axiom(Vec<Symbol>),
    Update,
}

/// Equality of condition kinds; symbol lists are compared by contents.
pub open spec fn kind_eq(a: ConditionKind, b: ConditionKind) -> bool {
    match (a, b) {
        (ConditionKind::LetPost(s1), ConditionKind::LetPost(s2)) => s1 == s2,
        (ConditionKind::LetPre(s1), ConditionKind::LetPre(s2)) => s1 == s2,
        (ConditionKind::Assert, ConditionKind::Assert) => true,
        (ConditionKind::Assume, ConditionKind::Assume) => true,
        (ConditionKind::Decreases, ConditionKind::Decreases) => true,
        (ConditionKind::AbortsIf, ConditionKind::AbortsIf) => true,
        (ConditionKind::AbortsWith, ConditionKind::AbortsWith) => true,
        (ConditionKind::SucceedsIf, ConditionKind::SucceedsIf) => true,
        (ConditionKind::Modifies, ConditionKind::Modifies) => true,
        (ConditionKind::Emits, ConditionKind::Emits) => true,
        (ConditionKind::Ensures, ConditionKind::Ensures) => true,
        (ConditionKind::Requires, ConditionKind::Requires) => true,
        (ConditionKind::StructInvariant, ConditionKind::StructInvariant) => true,
        (ConditionKind::FunctionInvariant, ConditionKind::FunctionInvariant) => true,
        (ConditionKind::LoopInvariant, ConditionKind::LoopInvariant) => true,
        (ConditionKind::GlobalInvariant(p1), ConditionKind::GlobalInvariant(p2)) => p1@ == p2@,
        (
            ConditionKind::GlobalInvariantUpdate(p1),
            ConditionKind::GlobalInvariantUpdate(p2),
        ) => p1@ == p2@,
        (ConditionKind::SchemaInvariant, ConditionKind::SchemaInvariant) => true,
        (ConditionKind::Axiom(p1), ConditionKind::Axiom(p2)) => p1@ == p2@,
        (ConditionKind::Update, ConditionKind::Update) => true,
        _ => false,
    }
}

/// Decides equality of symbol vectors.
fn syms_eq(a: &Vec<Symbol>, b: &Vec<Symbol>) -> (r: bool)
    ensures
        r == (a@ == b@),
{
    if a.len() != b.len() {
        proof {
            assert(a@.len() != b@.len());
        }
        return false;
    }
    let mut i: usize = 0;
    while i < a.len()
        invariant
            i <= a@.len(),
            a@.len() == b@.len(),
            forall|k: int| 0 <= k < i ==> a@[k] == b@[k],
        decreases a@.len() - i,
    {
        if a[i] != b[i] {
            proof {
                assert(a@[i as int] != b@[i as int]);
            }
            return false;
        }
        i += 1;
    }
    proof {
        assert(a@ =~= b@);
    }
    true
}

impl ConditionKind {
    /// Decides `kind_eq`.
    pub fn eq_kind(&self, other: &ConditionKind) -> (r: bool)
        ensures
            r == kind_eq(*self, *other),
    {
        match (self, other) {
            (ConditionKind::LetPost(s1), ConditionKind::LetPost(s2)) => s1 == s2,
            (ConditionKind::LetPre(s1), ConditionKind::LetPre(s2)) => s1 == s2,
            (ConditionKind::Assert, ConditionKind::Assert) => true,
            (ConditionKind::Assume, ConditionKind::Assume) => true,
            (ConditionKind::Decreases, ConditionKind::Decreases) => true,
            (ConditionKind::AbortsIf, ConditionKind::AbortsIf) => true,
            (ConditionKind::AbortsWith, ConditionKind::AbortsWith) => true,
            (ConditionKind::SucceedsIf, ConditionKind::SucceedsIf) => true,
            (ConditionKind::Modifies, ConditionKind::Modifies) => true,
            (ConditionKind::Emits, ConditionKind::Emits) => true,
            (ConditionKind::Ensures, ConditionKind::Ensures) => true,
            (ConditionKind::Requires, ConditionKind::Requires) => true,
            (ConditionKind::StructInvariant, ConditionKind::StructInvariant) => true,
            (ConditionKind::FunctionInvariant, ConditionKind::FunctionInvariant) => true,
            (ConditionKind::LoopInvariant, ConditionKind::LoopInvariant) => true,
            (ConditionKind::GlobalInvariant(p1), ConditionKind::GlobalInvariant(p2)) => syms_eq(
                p1,
                p2,
            ),
            (
                ConditionKind::GlobalInvariantUpdate(p1),
                ConditionKind::GlobalInvariantUpdate(p2),
            ) => syms_eq(p1, p2),
            (ConditionKind::SchemaInvariant, ConditionKind::SchemaInvariant) => true,
            (ConditionKind::Axiom(p1), ConditionKind::Axiom(p2)) => syms_eq(p1, p2),
            (ConditionKind::Update, ConditionKind::Update) => true,
            _ => false,
        }
    }

    /// Returns true if this condition allows the `old(..)` expression.
    pub fn allows_old(&self) -> (r: bool)
        ensures
            r == (self matches ConditionKind::LetPost(_) || self matches ConditionKind::Assert
                || self matches ConditionKind::Assume || self matches ConditionKind::Emits
                || self matches ConditionKind::Ensures
                || self matches ConditionKind::LoopInvariant
                || self matches ConditionKind::GlobalInvariantUpdate(_)),
    {
        match self {
            ConditionKind::LetPost(_)
            | ConditionKind::Assert
            | ConditionKind::Assume
            | ConditionKind::Emits
            | ConditionKind::Ensures
            | ConditionKind::LoopInvariant
            | ConditionKind::GlobalInvariantUpdate(_) => true,
            _ => false,
        }
    }

    /// Returns true if this condition is allowed on a function declaration.
    pub fn allowed_on_fun_decl(&self, _visibility: FunctionVisibility) -> (r: bool)
        ensures
            r == (self matches ConditionKind::Requires || self matches ConditionKind::AbortsIf
                || self matches ConditionKind::AbortsWith
                || self matches ConditionKind::SucceedsIf || self matches ConditionKind::Emits
                || self matches ConditionKind::Ensures || self matches ConditionKind::Modifies
                || self matches ConditionKind::FunctionInvariant
                || self matches ConditionKind::LetPost(_)
                || self matches ConditionKind::LetPre(_)
                || self matches ConditionKind::Update),
    {
        match self {
            ConditionKind::Requires
            | ConditionKind::AbortsIf
            | ConditionKind::AbortsWith
            | ConditionKind::SucceedsIf
            | ConditionKind::Emits
            | ConditionKind::Ensures
            | ConditionKind::Modifies
            | ConditionKind::FunctionInvariant
            | ConditionKind::LetPost(_)
            | ConditionKind::LetPre(_)
            | ConditionKind::Update => true,
            _ => false,
        }
    }

    /// Returns true if this condition is allowed in a function body.
    pub fn allowed_on_fun_impl(&self) -> (r: bool)
        ensures
            r == (self matches ConditionKind::Assert || self matches ConditionKind::Assume
                || self matches ConditionKind::Decreases
                || self matches ConditionKind::LoopInvariant
                || self matches ConditionKind::LetPost(_)
                || self matches ConditionKind::LetPre(_)),
    {
        match self {
            ConditionKind::Assert
            | ConditionKind::Assume
            | ConditionKind::Decreases
            | ConditionKind::LoopInvariant
            | ConditionKind::LetPost(_)
            | ConditionKind::LetPre(_) => true,
            _ => false,
        }
    }

    /// Returns true if this condition is allowed on a struct.
    pub fn allowed_on_struct(&self) -> (r: bool)
        ensures
            r == (self matches ConditionKind::StructInvariant),
    {
        match self {
            ConditionKind::StructInvariant => true,
            _ => false,
        }
    }

    /// Returns true if this condition is allowed on a module.
    pub fn allowed_on_module(&self) -> (r: bool)
        ensures
            r == (self matches ConditionKind::GlobalInvariant(_)
                || self matches ConditionKind::GlobalInvariantUpdate(_)
                || self matches ConditionKind::Axiom(_)),
    {
        match self {
            ConditionKind::GlobalInvariant(_)
            | ConditionKind::GlobalInvariantUpdate(_)
            | ConditionKind::Axiom(_) => true,
            _ => false,
        }
    }
}

// =========================================================================
// Names

/// The numeric value of an ASCII hex digit, or 16 for any other byte.
pub open spec fn hex_digit_val(c: u8) -> int {
    if 0x30 <= c <= 0x39 {  // '0' ..= '9'
        c - 0x30
    } else if 0x61 <= c <= 0x66 {  // 'a' ..= 'f'
        c - 0x61 + 10
    } else if 0x41 <= c <= 0x46 {  // 'A' ..= 'F'
        c - 0x41 + 10
    } else {
        16
    }
}

/// Whether a byte is an ASCII hex digit.
pub open spec fn is_hex_digit(c: u8) -> bool {
    hex_digit_val(c) < 16
}

/// The value of a big-endian sequence of hex digits.
pub open spec fn hex_val(s: Seq<u8>) -> int
    decreases s,
{
    if s.len() == 0 {
        0
    } else {
        hex_val(s.drop_last()) * 16 + hex_digit_val(s.last())
    }
}

/// 16 to the power `n`.
pub open spec fn pow16(n: nat) -> int
    decreases n,
{
    if n == 0 {
        1
    } else {
        16 * pow16((n - 1) as nat)
    }
}

pub proof fn lemma_pow16_pos(n: nat)
    ensures
        pow16(n) >= 1,
    decreases n,
{
    if n > 0 {
        lemma_pow16_pos((n - 1) as nat);
    }
}

pub proof fn lemma_pow16_mono(a: nat, b: nat)
    requires
        a <= b,
    ensures
        pow16(a) <= pow16(b),
    decreases b,
{
    if a < b {
        lemma_pow16_mono(a, (b - 1) as nat);
        lemma_pow16_pos((b - 1) as nat);
    }
}

/// `pow16(32)` is one more than the largest `u128`.
pub proof fn lemma_pow16_32()
    ensures
        pow16(32) == 0x1_0000_0000_0000_0000_0000_0000_0000_0000,
{
    reveal_with_fuel(pow16, 33);
}

/// Represents a module name, consisting of an address and a name symbol.
/// Addresses are 128-bit in this system.
#[derive(Clone, Copy, Debug, PartialEq, Eq, Structural)]
pub struct ModuleName(pub u128, pub Symbol);

impl ModuleName {
    pub fn new(addr: u128, name: Symbol) -> (r: ModuleName)
        ensures
            r == ModuleName(addr, name),
    {
        ModuleName(addr, name)
    }

    /// Builds a module name from the big-endian bytes of an address.
    pub fn from_address_bytes_and_name(addr: &[u8; 16], name: Symbol) -> (r: ModuleName)
        ensures
            r.1 == name,
            r.0 == be_bytes_val(addr@),
    {
        let mut acc: u128 = 0;
        let mut i: usize = 0;
        proof {
            assert(addr@.subrange(0, 0) =~= Seq::<u8>::empty());
            lemma_pow256_16();
        }
        while i < 16
            invariant
                i <= 16,
                addr@.len() == 16,
                acc == be_bytes_val(addr@.subrange(0, i as int)),
                acc < pow256(i as nat),
            decreases 16 - i,
        {
            proof {
                lemma_pow256_mono(i as nat + 1, 16);
                lemma_pow256_16();
                assert(addr@.subrange(0, i + 1).drop_last() =~= addr@.subrange(0, i as int));
                assert(addr@.subrange(0, i + 1).last() == addr@[i as int]);
            }
            acc = acc * 256 + (addr[i] as u128);
            i += 1;
        }
        proof {
            assert(addr@.subrange(0, 16) =~= addr@);
        }
        ModuleName(acc, name)
    }

    /// Parses a hex address, with an optional `0x` prefix, into a module
    /// name. The address must be made of at most 32 hex digits and at least
    /// one.
    pub fn from_str(addr: &str, name: Symbol) -> (r: ModuleName)
        requires
            ({
                let digits = strip_0x(addr.spec_bytes());
                &&& digits.len() >= 1
                &&& digits.len() <= 32
                &&& forall|k: int| 0 <= k < digits.len() ==> is_hex_digit(#[trigger] digits[k])
            }),
        ensures
            r.1 == name,
            r.0 == hex_val(strip_0x(addr.spec_bytes())),
    {
        let bytes: &[u8] = addr.as_bytes();
        let ghost digits = strip_0x(bytes@);
        let mut start: usize = 0;
        if bytes.len() >= 2 {
            let b0: u8 = bytes[0];
            let b1: u8 = bytes[1];
            if b0 == 0x30 && b1 == 0x78 {  // "0x"
                start = 2;
            }
        }
        proof {
            assert(digits =~= bytes@.subrange(start as int, bytes@.len() as int));
        }
        let n = bytes.len();
        let mut acc: u128 = 0;
        let mut i: usize = start;
        proof {
            assert(digits.subrange(0, 0) =~= Seq::<u8>::empty());
            lemma_pow16_32();
        }
        while i < n
            invariant
                start <= i <= n,
                n == bytes@.len(),
                bytes@ == addr.spec_bytes(),
                digits == bytes@.subrange(start as int, n as int),
                digits.len() <= 32,
                forall|k: int| 0 <= k < digits.len() ==> is_hex_digit(#[trigger] digits[k]),
                acc == hex_val(digits.subrange(0, i - start)),
                acc < pow16((i - start) as nat),
            decreases n - i,
        {
            proof {
                lemma_pow16_mono((i - start) as nat + 1, 32);
                lemma_pow16_32();
                assert(digits.subrange(0, i - start + 1).drop_last() =~= digits.subrange(
                    0,
                    i - start,
                ));
                assert(digits.subrange(0, i - start + 1).last() == digits[i - start]);
                assert(digits[i - start] == bytes@[i as int]);
            }
            let c: u8 = bytes[i];
            let d: u8 = if 0x30 <= c && c <= 0x39 {
                c - 0x30
            } else if 0x61 <= c && c <= 0x66 {
                c - 0x61 + 10
            } else if 0x41 <= c && c <= 0x46 {
                c - 0x41 + 10
            } else {
                proof {
                    assert(is_hex_digit(digits[i - start]));
                }
                proof {
                    assert(false);
                }
                vstd::pervasive::unreached()
            };
            acc = acc * 16 + (d as u128);
            i += 1;
        }
        proof {
            assert(digits.subrange(0, n - start) =~= digits);
        }
        ModuleName(acc, name)
    }

    /// The address part of this module name.
    pub fn addr(&self) -> (r: u128)
        ensures
            r == self.0,
    {
        self.0
    }

    /// The name part of this module name.
    pub fn name(&self) -> (r: Symbol)
        ensures
            r == self.1,
    {
        self.1
    }

    /// Determines whether this is a script. Pseudo modules created from
    /// scripts use the maximum address, so that address decides.
    pub fn is_script(&self) -> (r: bool)
        ensures
            r == (self.0 == u128::MAX),
    {
        self.0 == u128::MAX
    }
}

/// The leading `0x`, if any, removed.
pub open spec fn strip_0x(s: Seq<u8>) -> Seq<u8> {
    if s.len() >= 2 && s[0] == 0x30 && s[1] == 0x78 {
        s.subrange(2, s.len() as int)
    } else {
        s
    }
}

/// The value of a big-endian byte sequence.
pub open spec fn be_bytes_val(s: Seq<u8>) -> int
    decreases s,
{
    if s.len() == 0 {
        0
    } else {
        be_bytes_val(s.drop_last()) * 256 + s.last()
    }
}

/// 256 to the power `n`.
pub open spec fn pow256(n: nat) -> int
    decreases n,
{
    if n == 0 {
        1
    } else {
        256 * pow256((n - 1) as nat)
    }
}

pub proof fn lemma_pow256_pos(n: nat)
    ensures
        pow256(n) >= 1,
    decreases n,
{
    if n > 0 {
        lemma_pow256_pos((n - 1) as nat);
    }
}

pub proof fn lemma_pow256_mono(a: nat, b: nat)
    requires
        a <= b,
    ensures
        pow256(a) <= pow256(b),
    decreases b,
{
    if a < b {
        lemma_pow256_mono(a, (b - 1) as nat);
        lemma_pow256_pos((b - 1) as nat);
    }
}

/// `pow256(16)` is one more than the largest `u128`.
pub proof fn lemma_pow256_16()
    ensures
        pow256(16) == 0x1_0000_0000_0000_0000_0000_0000_0000_0000,
{
    reveal_with_fuel(pow256, 17);
}

/// A symbol qualified by a module name.
#[derive(Clone, Copy, Debug, PartialEq, Eq, Structural)]
pub struct QualifiedSymbol {
    pub module_name: ModuleName,
    pub symbol: Symbol,
}

/// The value of a property stemming from a pragma.
#[derive(Debug, Clone)]
pub enum PropertyValue {
    Value(Value),
    Symbol(Symbol),
    QualifiedSymbol(QualifiedSymbol),
}

/// A set of properties stemming from pragmas, keyed by symbol.
pub type PropertyBag = Vec<(Symbol, PropertyValue)>;

/// A single specification condition: a kind, pragmas, a primary expression
/// and auxiliary expressions.
#[derive(Debug, Clone)]
pub struct Condition {
    pub loc: Loc,
    pub kind: ConditionKind,
    pub properties: PropertyBag,
    pub exp: Exp,
    pub additional_exps: Vec<Exp>,
}

impl Condition {
    /// All expressions in the condition: the primary one, then the
    /// additional ones.
    pub fn all_exps(&self) -> (r: Vec<Exp>)
        ensures
            r@ == seq![self.exp] + self.additional_exps@,
    {
        let mut r: Vec<Exp> = Vec::new();
        r.push(self.exp);
        let mut i: usize = 0;
        while i < self.additional_exps.len()
            invariant
                i <= self.additional_exps@.len(),
                r@.len() == 1 + i,
                r@[0] == self.exp,
                forall|k: int| 0 <= k < i ==> r@[k + 1] == self.additional_exps@[k],
            decreases self.additional_exps@.len() - i,
        {
            r.push(self.additional_exps[i]);
            i += 1;
        }
        proof {
            assert(r@ =~= seq![self.exp] + self.additional_exps@);
        }
        r
    }
}

/// Specification and properties associated with a language item: an ordered
/// collection of conditions, plus per-code-offset specifications for
/// conditions attached to interior program points.
#[derive(Debug)]
pub struct Spec {
    /// The location of this specification, if available.
    pub loc: Option<Loc>,
    /// The set of conditions associated with this item.
    pub conditions: Vec<Condition>,
    /// Any pragma properties associated with this item.
    pub properties: PropertyBag,
    /// If this is a function, specs associated with individual code points.
    pub on_impl: Vec<(CodeOffset, Spec)>,
}

impl Default for Spec {
    /// The empty specification.
    fn default() -> (r: Spec)
        ensures
            r.loc matches Option::None,
            r.conditions@ == Seq::<Condition>::empty(),
            r.properties@ == Seq::<(Symbol, PropertyValue)>::empty(),
            r.on_impl@ == Seq::<(CodeOffset, Spec)>::empty(),
    {
        let r = Spec { loc: Option::None, conditions: Vec::new(), properties: Vec::new(), on_impl: Vec::new() };
        proof {
            assert(r.conditions@ =~= Seq::<Condition>::empty());
            assert(r.properties@ =~= Seq::<(Symbol, PropertyValue)>::empty());
            assert(r.on_impl@ =~= Seq::<(CodeOffset, Spec)>::empty());
        }
        r
    }
}

impl Spec {
    /// Whether any condition is attached.
    pub fn has_conditions(&self) -> (r: bool)
        ensures
            r == (self.conditions@.len() > 0),
    {
        self.conditions.len() > 0
    }

    /// The positions of the conditions of the given kind, strictly
    /// increasing.
    pub fn filter_kind(&self, kind: &ConditionKind) -> (r: Vec<usize>)
        ensures
            forall|k: int|
                0 <= k < r@.len() ==> #[trigger] r@[k] < self.conditions@.len() && kind_eq(
                    self.conditions@[r@[k] as int].kind,
                    *kind,
                ),
            forall|i: int|
                0 <= i < self.conditions@.len() && kind_eq(self.conditions@[i].kind, *kind)
                    ==> r@.contains(i as usize),
            forall|a: int, b: int| 0 <= a < b < r@.len() ==> r@[a] < r@[b],
    {
        let mut r: Vec<usize> = Vec::new();
        let mut i: usize = 0;
        while i < self.conditions.len()
            invariant
                i <= self.conditions@.len(),
                forall|k: int|
                    0 <= k < r@.len() ==> #[trigger] r@[k] < i && kind_eq(
                        self.conditions@[r@[k] as int].kind,
                        *kind,
                    ),
                forall|j: int|
                    0 <= j < i && kind_eq(self.conditions@[j].kind, *kind) ==> r@.contains(
                        j as usize,
                    ),
                forall|a: int, b: int| 0 <= a < b < r@.len() ==> r@[a] < r@[b],
            decreases self.conditions@.len() - i,
        {
            let ghost r0 = r@;
            let matches_kind = self.conditions[i].kind.eq_kind(kind);
            if matches_kind {
                r.push(i);
            }
            proof {
                assert forall|j: int|
                    0 <= j < i + 1 && kind_eq(self.conditions@[j].kind, *kind) implies r@.contains(
                    j as usize,
                ) by {
                    if j < i {
                        let k = choose|k: int| 0 <= k < r0.len() && r0[k] == j as usize;
                        assert(r@[k] == j as usize);
                    } else {
                        assert(r@[r@.len() - 1] == j as usize);
                    }
                }
            }
            i += 1;
        }
        r
    }

    /// Whether any condition has the given kind.
    pub fn any_kind(&self, kind: &ConditionKind) -> (r: bool)
        ensures
            r == (exists|i: int|
                0 <= i < self.conditions@.len() && kind_eq(
                    #[trigger] self.conditions@[i].kind,
                    *kind,
                )),
    {
        let mut i: usize = 0;
        while i < self.conditions.len()
            invariant
                i <= self.conditions@.len(),
                forall|j: int| 0 <= j < i ==> !kind_eq(#[trigger] self.conditions@[j].kind, *kind),
            decreases self.conditions@.len() - i,
        {
            if self.conditions[i].kind.eq_kind(kind) {
                return true;
            }
            i += 1;
        }
        false
    }

    /// The positions of the axiom conditions, strictly increasing.
    pub fn filter_kind_axiom(&self) -> (r: Vec<usize>)
        ensures
            forall|k: int|
                0 <= k < r@.len() ==> #[trigger] r@[k] < self.conditions@.len()
                    && self.conditions@[r@[k] as int].kind matches ConditionKind::Axiom(_),
            forall|i: int|
                0 <= i < self.conditions@.len() && ((#[trigger] self.conditions@[i]).kind matches
                    ConditionKind::Axiom(_)) ==> r@.contains(i as usize),
            forall|a: int, b: int| 0 <= a < b < r@.len() ==> r@[a] < r@[b],
    {
        let mut r: Vec<usize> = Vec::new();
        let mut i: usize = 0;
        while i < self.conditions.len()
            invariant
                i <= self.conditions@.len(),
                forall|k: int|
                    0 <= k < r@.len() ==> #[trigger] r@[k] < i
                        && self.conditions@[r@[k] as int].kind matches ConditionKind::Axiom(_),
                forall|j: int|
                    0 <= j < i && ((#[trigger] self.conditions@[j]).kind matches
                        ConditionKind::Axiom(_)) ==> r@.contains(j as usize),
                forall|a: int, b: int| 0 <= a < b < r@.len() ==> r@[a] < r@[b],
            decreases self.conditions@.len() - i,
        {
            let ghost r0 = r@;
            let is_axiom = match &self.conditions[i].kind {
                ConditionKind::Axiom(_) => true,
                _ => false,
            };
            if is_axiom {
                r.push(i);
            }
            proof {
                assert forall|j: int|
                    0 <= j < i + 1 && ((#[trigger] self.conditions@[j]).kind matches
                        ConditionKind::Axiom(_)) implies r@.contains(j as usize) by {
                    if j < i {
                        let k = choose|k: int| 0 <= k < r0.len() && r0[k] == j as usize;
                        assert(r@[k] == j as usize);
                    } else {
                        assert(r@[r@.len() - 1] == j as usize);
                    }
                }
            }
            i += 1;
        }
        r
    }
}

/// A declaration of a specification variable.
#[derive(Debug)]
pub struct SpecVarDecl {
    pub loc: Loc,
    pub name: Symbol,
    pub type_params: Vec<(Symbol, Type)>,
    pub type_: Type,
    pub init: Option<Exp>,
}

/// A declaration of a specification function. `used_memory` lists the
/// memories the function's body touches, in a fixed order; a labelled call
/// site carries one label per entry of that list.
#[derive(Debug)]
pub struct SpecFunDecl {
    pub loc: Loc,
    pub name: Symbol,
    pub type_params: Vec<(Symbol, Type)>,
    pub params: Vec<(Symbol, Type)>,
    pub context_params: Option<Vec<(Symbol, bool)>>,
    pub result_type: Type,
    pub used_memory: Vec<QualifiedInstId>,
    pub uninterpreted: bool,
    pub is_move_fun: bool,
    pub is_native: bool,
    pub body: Option<Exp>,
}

/// Information about a specification block in the source, kept for
/// documentation generation.
#[derive(Debug, Clone)]
pub struct SpecBlockInfo {
    /// The location of the entire spec block.
    pub loc: Loc,
    /// The target of the spec block.
    pub target: SpecBlockTarget,
    /// The locations of all members of the spec block.
    pub member_locs: Vec<Loc>,
}

/// Describes the target of a spec block.
#[derive(Debug, Clone)]
pub enum SpecBlockTarget {
    Module,
    Struct(ModuleId, StructId),
    Function(ModuleId, FunId),
    FunctionCode(ModuleId, FunId, usize),
    Schema(ModuleId, SchemaId, Vec<TypeParameter>),
}

/// Describes a global invariant.
#[derive(Debug)]
pub struct GlobalInvariant {
    pub id: GlobalId,
    pub loc: Loc,
    pub kind: ConditionKind,
    pub mem_usage: Vec<QualifiedInstId>,
    pub declaring_module: ModuleId,
    pub properties: PropertyBag,
    pub cond: Exp,
}


/// Clones a label list.
fn clone_labels(ls: &Option<Vec<MemoryLabel>>) -> (r: Option<Vec<MemoryLabel>>)
    ensures
        labels_eq(*ls, r),
{
    match ls {
        Option::None => Option::None,
        Option::Some(v) => {
            let mut out: Vec<MemoryLabel> = Vec::new();
            let mut i: usize = 0;
            while i < v.len()
                invariant
                    i <= v@.len(),
                    out@.len() == i,
                    forall|k: int| 0 <= k < i ==> out@[k] == v@[k],
                decreases v@.len() - i,
            {
                out.push(v[i]);
                i += 1;
            }
            proof {
                assert(out@ =~= v@);
            }
            Option::Some(out)
        },
    }
}

impl Operation {
    /// Clones an operation; the copy is equal to the original.
    pub fn clone_oper(&self) -> (r: Operation)
        ensures
            oper_eq(*self, r),
            oper_eq(r, *self),
    {
        match self {
            Operation::Function(m, f, ls) => Operation::Function(*m, *f, clone_labels(ls)),
            Operation::Pack(m, s) => Operation::Pack(*m, *s),
            Operation::Tuple => Operation::Tuple,
            Operation::Select(m, s, f) => Operation::Select(*m, *s, *f),
            Operation::UpdateField(m, s, f) => Operation::UpdateField(*m, *s, *f),
            Operation::Result(t) => Operation::Result(*t),
            Operation::Index => Operation::Index,
            Operation::Slice => Operation::Slice,
            Operation::Range => Operation::Range,
            Operation::Add => Operation::Add,
            Operation::Sub => Operation::Sub,
            Operation::Mul => Operation::Mul,
            Operation::Mod => Operation::Mod,
            Operation::Div => Operation::Div,
            Operation::BitOr => Operation::BitOr,
            Operation::BitAnd => Operation::BitAnd,
            Operation::Xor => Operation::Xor,
            Operation::Shl => Operation::Shl,
            Operation::Shr => Operation::Shr,
            Operation::Implies => Operation::Implies,
            Operation::Iff => Operation::Iff,
            Operation::And => Operation::And,
            Operation::Or => Operation::Or,
            Operation::Eq => Operation::Eq,
            Operation::Identical => Operation::Identical,
            Operation::Neq => Operation::Neq,
            Operation::Lt => Operation::Lt,
            Operation::Gt => Operation::Gt,
            Operation::Le => Operation::Le,
            Operation::Ge => Operation::Ge,
            Operation::Not => Operation::Not,
            Operation::Len => Operation::Len,
            Operation::TypeValue => Operation::TypeValue,
            Operation::TypeDomain => Operation::TypeDomain,
            Operation::ResourceDomain => Operation::ResourceDomain,
            Operation::Global(l) => Operation::Global(*l),
            Operation::Exists(l) => Operation::Exists(*l),
            Operation::CanModify => Operation::CanModify,
            Operation::Old => Operation::Old,
            Operation::Trace => Operation::Trace,
            Operation::EmptyVec => Operation::EmptyVec,
            Operation::SingleVec => Operation::SingleVec,
            Operation::UpdateVec => Operation::UpdateVec,
            Operation::ConcatVec => Operation::ConcatVec,
            Operation::IndexOfVec => Operation::IndexOfVec,
            Operation::ContainsVec => Operation::ContainsVec,
            Operation::InRangeRange => Operation::InRangeRange,
            Operation::InRangeVec => Operation::InRangeVec,
            Operation::RangeVec => Operation::RangeVec,
            Operation::MaxU8 => Operation::MaxU8,
            Operation::MaxU64 => Operation::MaxU64,
            Operation::MaxU128 => Operation::MaxU128,
            Operation::AbortFlag => Operation::AbortFlag,
            Operation::AbortCode => Operation::AbortCode,
            Operation::WellFormed => Operation::WellFormed,
            Operation::BoxValue => Operation::BoxValue,
            Operation::UnboxValue => Operation::UnboxValue,
            Operation::EmptyEventStore => Operation::EmptyEventStore,
            Operation::ExtendEventStore => Operation::ExtendEventStore,
            Operation::EventStoreIncludes => Operation::EventStoreIncludes,
            Operation::EventStoreIncludedIn => Operation::EventStoreIncludedIn,
            Operation::NoOp => Operation::NoOp,
        }
    }
}

impl Value {
    /// Clones a value; the copy is equal to the original.
    pub fn clone_value(&self) -> (r: Value)
        ensures
            value_eq(*self, r),
            value_eq(r, *self),
    {
        match self {
            Value::Address(a) => Value::Address(*a),
            Value::Number(n) => Value::Number(*n),
            Value::Bool(b) => Value::Bool(*b),
            Value::ByteArray(bytes) => {
                let mut out: Vec<u8> = Vec::new();
                let mut i: usize = 0;
                while i < bytes.len()
                    invariant
                        i <= bytes@.len(),
                        out@.len() == i,
                        forall|k: int| 0 <= k < i ==> out@[k] == bytes@[k],
                    decreases bytes@.len() - i,
                {
                    out.push(bytes[i]);
                    i += 1;
                }
                proof {
                    assert(out@ =~= bytes@);
                }
                Value::ByteArray(out)
            },
        }
    }
}

/// Clones a handle vector.
pub fn clone_exps(es: &Vec<Exp>) -> (r: Vec<Exp>)
    ensures
        r@ == es@,
{
    let mut out: Vec<Exp> = Vec::new();
    let mut i: usize = 0;
    while i < es.len()
        invariant
            i <= es@.len(),
            out@.len() == i,
            forall|k: int| 0 <= k < i ==> out@[k] == es@[k],
        decreases es@.len() - i,
    {
        out.push(es[i]);
        i += 1;
    }
    proof {
        assert(out@ =~= es@);
    }
    out
}

/// Clones a binder declaration vector.
pub fn clone_decls(ds: &Vec<LocalVarDecl>) -> (r: Vec<LocalVarDecl>)
    ensures
        r@ == ds@,
{
    let mut out: Vec<LocalVarDecl> = Vec::new();
    let mut i: usize = 0;
    while i < ds.len()
        invariant
            i <= ds@.len(),
            out@.len() == i,
            forall|k: int| 0 <= k < i ==> out@[k] == ds@[k],
        decreases ds@.len() - i,
    {
        out.push(ds[i]);
        i += 1;
    }
    proof {
        assert(out@ =~= ds@);
    }
    out
}

/// Clones a quantifier range vector.
pub fn clone_ranges(rs: &Vec<(LocalVarDecl, Exp)>) -> (r: Vec<(LocalVarDecl, Exp)>)
    ensures
        r@ == rs@,
{
    let mut out: Vec<(LocalVarDecl, Exp)> = Vec::new();
    let mut i: usize = 0;
    while i < rs.len()
        invariant
            i <= rs@.len(),
            out@.len() == i,
            forall|k: int| 0 <= k < i ==> out@[k] == rs@[k],
        decreases rs@.len() - i,
    {
        out.push(rs[i]);
        i += 1;
    }
    proof {
        assert(out@ =~= rs@);
    }
    out
}

/// Clones trigger groups; the copy has the same contents.
pub fn clone_triggers(ts: &Vec<Vec<Exp>>) -> (r: Vec<Vec<Exp>>)
    ensures
        triggers_view(r@) == triggers_view(ts@),
{
    let mut out: Vec<Vec<Exp>> = Vec::new();
    let mut i: usize = 0;
    while i < ts.len()
        invariant
            i <= ts@.len(),
            out@.len() == i,
            forall|k: int| 0 <= k < i ==> (#[trigger] out@[k])@ == ts@[k]@,
        decreases ts@.len() - i,
    {
        out.push(clone_exps(&ts[i]));
        i += 1;
    }
    proof {
        assert(triggers_view(out@) =~= triggers_view(ts@));
    }
    out
}


impl ExpData {
    /// Clones expression data; the copy is equal to the original.
    pub fn clone_data(&self) -> (r: ExpData)
        ensures
            data_eq(*self, r),
            data_eq(r, *self),
    {
        match self {
            ExpData::Invalid(id) => ExpData::Invalid(*id),
            ExpData::Value(id, v) => ExpData::Value(*id, v.clone_value()),
            ExpData::LocalVar(id, s) => ExpData::LocalVar(*id, *s),
            ExpData::Temporary(id, t) => ExpData::Temporary(*id, *t),
            ExpData::Call(id, oper, args) => ExpData::Call(*id, oper.clone_oper(), clone_exps(args)),
            ExpData::Invoke(id, target, args) => ExpData::Invoke(*id, *target, clone_exps(args)),
            ExpData::Lambda(id, decls, body) => ExpData::Lambda(*id, clone_decls(decls), *body),
            ExpData::Quant(id, kind, ranges, triggers, cond, body) => ExpData::Quant(
                *id,
                *kind,
                clone_ranges(ranges),
                clone_triggers(triggers),
                *cond,
                *body,
            ),
            ExpData::Block(id, decls, body) => ExpData::Block(*id, clone_decls(decls), *body),
            ExpData::IfElse(id, c, t, e) => ExpData::IfElse(*id, *c, *t, *e),
        }
    }
}

} // verus!
