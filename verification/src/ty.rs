//! Types of the model, as far as the analysis reads them: primitives, type
//! parameters, instantiated struct types and references. The only operations
//! the analysis needs are substitution of type parameters (`instantiate`),
//! projection of a struct type, and the mutable-reference test.

use vstd::prelude::*;
use crate::ids::{ModuleId, StructId};

verus! {

/// A type of the analyzed language.
#[derive(Debug)]
pub enum Type {
    /// The boolean primitive.
    Bool,
    /// Any numeric primitive; the analysis never distinguishes widths.
    Num,
    /// A type parameter, referred to by its position.
    Param(u16),
    /// An instantiated struct type.
    Struct(ModuleId, StructId, Vec<Type>),
    /// A reference; the flag says whether it is mutable.
    Reference(bool, Box<Type>),
}

/// The mathematical value of a `Type`.
#[verifier::ext_equal]
pub enum TypeV {
    Bool,
    Num,
    Param(int),
    Struct(ModuleId, StructId, Seq<TypeV>),
    Reference(bool, Box<TypeV>),
}

impl View for Type {
    type V = TypeV;

    open spec fn view(&self) -> TypeV
        decreases self,
    {
        match self {
            Type::Bool => TypeV::Bool,
            Type::Num => TypeV::Num,
            Type::Param(i) => TypeV::Param(*i as int),
            Type::Struct(m, s, ts) => TypeV::Struct(*m, *s, view_types(ts@)),
            Type::Reference(is_mut, t) => TypeV::Reference(*is_mut, Box::new((**t)@)),
        }
    }
}

/// The values of a sequence of types.
pub open spec fn view_types(ts: Seq<Type>) -> Seq<TypeV>
    decreases ts,
{
    if ts.len() == 0 {
        Seq::empty()
    } else {
        view_types(ts.drop_last()).push(ts.last()@)
    }
}

/// Substitution of type parameters: every `Param(i)` with `i` in range is
/// replaced by `args[i]`; out-of-range parameters stay as they are.
pub open spec fn spec_instantiate(t: TypeV, args: Seq<TypeV>) -> TypeV
    decreases t,
{
    match t {
        TypeV::Bool => TypeV::Bool,
        TypeV::Num => TypeV::Num,
        TypeV::Param(i) => if 0 <= i < args.len() {
            args[i]
        } else {
            TypeV::Param(i)
        },
        TypeV::Struct(m, s, ts) => TypeV::Struct(m, s, spec_instantiate_all(ts, args)),
        TypeV::Reference(is_mut, t1) => TypeV::Reference(is_mut, Box::new(spec_instantiate(*t1, args))),
    }
}

/// `spec_instantiate` applied to each element of a sequence.
pub open spec fn spec_instantiate_all(ts: Seq<TypeV>, args: Seq<TypeV>) -> Seq<TypeV>
    decreases ts,
{
    if ts.len() == 0 {
        Seq::empty()
    } else {
        spec_instantiate_all(ts.drop_last(), args).push(spec_instantiate(ts.last(), args))
    }
}

pub broadcast proof fn lemma_spec_instantiate_all_len(ts: Seq<TypeV>, args: Seq<TypeV>)
    ensures
        (#[trigger] spec_instantiate_all(ts, args)).len() == ts.len(),
    decreases ts,
{
    if ts.len() > 0 {
        lemma_spec_instantiate_all_len(ts.drop_last(), args);
        assert(spec_instantiate_all(ts, args) == spec_instantiate_all(ts.drop_last(), args).push(
            spec_instantiate(ts.last(), args),
        ));
    } else {
        assert(spec_instantiate_all(ts, args) == Seq::<TypeV>::empty());
    }
}

pub broadcast proof fn lemma_spec_instantiate_all_index(ts: Seq<TypeV>, args: Seq<TypeV>, i: int)
    requires
        0 <= i < ts.len(),
    ensures
        #[trigger] spec_instantiate_all(ts, args)[i] == spec_instantiate(ts[i], args),
    decreases ts,
{
    lemma_spec_instantiate_all_len(ts, args);
    lemma_spec_instantiate_all_len(ts.drop_last(), args);
    assert(spec_instantiate_all(ts, args) == spec_instantiate_all(ts.drop_last(), args).push(
        spec_instantiate(ts.last(), args),
    ));
    if i < ts.len() - 1 {
        lemma_spec_instantiate_all_index(ts.drop_last(), args, i);
        assert(ts.drop_last()[i] == ts[i]);
    } else {
        assert(ts.last() == ts[i]);
    }
}

impl Type {
    /// Whether this type is a mutable reference.
    pub fn is_mutable_reference(&self) -> (r: bool)
        ensures
            r == self@ matches TypeV::Reference(true, _),
    {
        match self {
            Type::Reference(true, _) => true,
            _ => false,
        }
    }

    /// Projects an instantiated struct type to its parts. The caller must
    /// know that the type is a struct type; anything else is an internal
    /// invariant violation upstream.
    pub fn require_struct(&self) -> (r: (ModuleId, StructId, &Vec<Type>))
        requires
            self@ matches TypeV::Struct(_, _, _),
        ensures
            self@ == TypeV::Struct(r.0, r.1, view_types(r.2@)),
    {
        match self {
            Type::Struct(m, s, ts) => (*m, *s, ts),
            _ => {
                proof {
                    assert(false);
                }
                vstd::pervasive::unreached()
            }
        }
    }

    /// Substitutes type parameters in this type by the given arguments.
    pub fn instantiate(&self, args: &Vec<Type>) -> (r: Type)
        ensures
            r@ == spec_instantiate(self@, view_types(args@)),
        decreases *self,
    {
        match self {
            Type::Bool => Type::Bool,
            Type::Num => Type::Num,
            Type::Param(i) => {
                let idx: usize = *i as usize;
                if idx < args.len() {
                    proof {
                        broadcast use lemma_view_types_len, lemma_view_types_index;
                    }
                    args[idx].clone()
                } else {
                    proof {
                        broadcast use lemma_view_types_len;
                    }
                    Type::Param(*i)
                }
            }
            Type::Struct(m, s, ts) => {
                let mut new_ts: Vec<Type> = Vec::new();
                let mut i: usize = 0;
                while i < ts.len()
                    invariant
                        i <= ts@.len(),
                        new_ts@.len() == i,
                        forall|k: int| 0 <= k < i ==> new_ts@[k]@ == spec_instantiate(
                            ts@[k]@,
                            view_types(args@),
                        ),
                        *self == Type::Struct(*m, *s, *ts),
                    decreases ts@.len() - i,
                {
                    proof {
                        assert(decreases_to!(*self => (*self)->Struct_2));
                        assert((*self)->Struct_2 == *ts);
                        assert(decreases_to!(*ts => ts@));
                        assert(decreases_to!(ts@ => ts@[i as int]));
                        assert(decreases_to!(*self => ts@[i as int]));
                    }
                    let t2 = ts[i].instantiate(args);
                    new_ts.push(t2);
                    i += 1;
                }
                proof {
                    broadcast use lemma_view_types_len, lemma_view_types_index;
                    broadcast use lemma_spec_instantiate_all_len, lemma_spec_instantiate_all_index;

                    assert(view_types(new_ts@) =~= spec_instantiate_all(
                        view_types(ts@),
                        view_types(args@),
                    ));
                }
                Type::Struct(*m, *s, new_ts)
            }
            Type::Reference(is_mut, t) => Type::Reference(*is_mut, Box::new((**t).instantiate(args))),
        }
    }

    /// Structural equality of two types, decided at the level of their
    /// mathematical values.
    pub fn type_eq(&self, other: &Type) -> (r: bool)
        ensures
            r == (self@ == other@),
        decreases *self,
    {
        match (self, other) {
            (Type::Bool, Type::Bool) => true,
            (Type::Num, Type::Num) => true,
            (Type::Param(i), Type::Param(j)) => i == j,
            (Type::Struct(m1, s1, ts1), Type::Struct(m2, s2, ts2)) => {
                proof {
                    broadcast use lemma_view_types_len, lemma_view_types_index;
                }
                if m1.0 != m2.0 || s1.0 != s2.0 || ts1.len() != ts2.len() {
                    false
                } else {
                    let mut i: usize = 0;
                    let mut all_eq = true;
                    while i < ts1.len()
                        invariant
                            i <= ts1@.len(),
                            ts1@.len() == ts2@.len(),
                            all_eq == (forall|k: int| 0 <= k < i ==> ts1@[k]@ == ts2@[k]@),
                            *self == Type::Struct(*m1, *s1, *ts1),
                        decreases ts1@.len() - i,
                    {
                        proof {
                            assert(decreases_to!(*self => (*self)->Struct_2));
                            assert((*self)->Struct_2 == *ts1);
                            assert(decreases_to!(*ts1 => ts1@));
                            assert(decreases_to!(ts1@ => ts1@[i as int]));
                            assert(decreases_to!(*self => ts1@[i as int]));
                        }
                        let e = ts1[i].type_eq(&ts2[i]);
                        all_eq = all_eq && e;
                        i += 1;
                    }
                    proof {
                        broadcast use lemma_view_types_len, lemma_view_types_index;

                        if all_eq {
                            assert(view_types(ts1@) =~= view_types(ts2@));
                        } else {
                            let k = choose|k: int|
                                0 <= k < ts1@.len() && !(ts1@[k]@ == ts2@[k]@);
                            assert(view_types(ts1@)[k] != view_types(ts2@)[k]);
                        }
                    }
                    all_eq
                }
            }
            (Type::Reference(a1, t1), Type::Reference(a2, t2)) => {
                if a1 != a2 {
                    false
                } else {
                    (**t1).type_eq(&**t2)
                }
            }
            _ => false,
        }
    }
}

impl Clone for Type {
    fn clone(&self) -> (r: Self)
        ensures
            r@ == self@,
        decreases self,
    {
        match self {
            Type::Bool => Type::Bool,
            Type::Num => Type::Num,
            Type::Param(i) => Type::Param(*i),
            Type::Struct(m, s, ts) => {
                let mut new_ts: Vec<Type> = Vec::new();
                let mut i: usize = 0;
                while i < ts.len()
                    invariant
                        i <= ts@.len(),
                        new_ts@.len() == i,
                        forall|k: int| 0 <= k < i ==> new_ts@[k]@ == ts@[k]@,
                        *self == Type::Struct(*m, *s, *ts),
                    decreases ts@.len() - i,
                {
                    proof {
                        assert(decreases_to!(*self => (*self)->Struct_2));
                        assert((*self)->Struct_2 == *ts);
                        assert(decreases_to!(*ts => ts@));
                        assert(decreases_to!(ts@ => ts@[i as int]));
                        assert(decreases_to!(*self => ts@[i as int]));
                    }
                    let t2 = ts[i].clone();
                    new_ts.push(t2);
                    i += 1;
                }
                proof {
                    lemma_view_types_eq(new_ts@, ts@);
                }
                Type::Struct(*m, *s, new_ts)
            }
            Type::Reference(is_mut, t) => Type::Reference(*is_mut, Box::new((**t).clone())),
        }
    }
}

/// Two type sequences whose elements have equal values have equal value
/// sequences.
pub proof fn lemma_view_types_eq(a: Seq<Type>, b: Seq<Type>)
    requires
        a.len() == b.len(),
        forall|k: int| 0 <= k < a.len() ==> a[k]@ == b[k]@,
    ensures
        view_types(a) == view_types(b),
{
    broadcast use lemma_view_types_len, lemma_view_types_index;

    assert(view_types(a) =~= view_types(b));
}

pub broadcast proof fn lemma_view_types_len(ts: Seq<Type>)
    ensures
        (#[trigger] view_types(ts)).len() == ts.len(),
    decreases ts,
{
    if ts.len() > 0 {
        lemma_view_types_len(ts.drop_last());
        assert(view_types(ts) == view_types(ts.drop_last()).push(ts.last()@));
    } else {
        assert(view_types(ts) == Seq::<TypeV>::empty());
    }
}

pub broadcast proof fn lemma_view_types_index(ts: Seq<Type>, i: int)
    requires
        0 <= i < ts.len(),
    ensures
        #[trigger] view_types(ts)[i] == ts[i]@,
    decreases ts,
{
    lemma_view_types_len(ts);
    lemma_view_types_len(ts.drop_last());
    assert(view_types(ts) == view_types(ts.drop_last()).push(ts.last()@));
    if i < ts.len() - 1 {
        lemma_view_types_index(ts.drop_last(), i);
        assert(ts.drop_last()[i] == ts[i]);
    } else {
        assert(ts.last() == ts[i]);
    }
}

/// A struct reference without an instantiation.
#[derive(Clone, Copy, Debug, PartialEq, Eq, Structural)]
pub struct QualifiedId<Id> {
    pub module_id: ModuleId,
    pub id: Id,
}

/// An instantiated struct reference: the unit the memory-usage sets hold.
#[derive(Debug)]
pub struct QualifiedInstId {
    pub module_id: ModuleId,
    pub inst: Vec<Type>,
    pub id: StructId,
}

/// The mathematical value of a `QualifiedInstId`.
#[verifier::ext_equal]
pub struct QualifiedInstIdV {
    pub module_id: ModuleId,
    pub inst: Seq<TypeV>,
    pub id: StructId,
}

impl View for QualifiedInstId {
    type V = QualifiedInstIdV;

    open spec fn view(&self) -> QualifiedInstIdV {
        QualifiedInstIdV { module_id: self.module_id, inst: view_types(self.inst@), id: self.id }
    }
}

impl Clone for QualifiedInstId {
    fn clone(&self) -> (r: Self)
        ensures
            r@ == self@,
    {
        let mut inst: Vec<Type> = Vec::new();
        let mut i: usize = 0;
        while i < self.inst.len()
            invariant
                i <= self.inst@.len(),
                inst@.len() == i,
                forall|k: int| 0 <= k < i ==> inst@[k]@ == self.inst@[k]@,
            decreases self.inst@.len() - i,
        {
            inst.push(self.inst[i].clone());
            i += 1;
        }
        proof {
            lemma_view_types_eq(inst@, self.inst@);
        }
        QualifiedInstId { module_id: self.module_id, inst, id: self.id }
    }
}

/// `spec_instantiate_all` lifted to a qualified instantiated id.
pub open spec fn spec_instantiate_qid(q: QualifiedInstIdV, args: Seq<TypeV>) -> QualifiedInstIdV {
    QualifiedInstIdV {
        module_id: q.module_id,
        inst: spec_instantiate_all(q.inst, args),
        id: q.id,
    }
}

impl QualifiedInstId {
    /// Substitutes type parameters in this id's instantiation.
    pub fn instantiate_ref(&self, args: &Vec<Type>) -> (r: QualifiedInstId)
        ensures
            r@ == spec_instantiate_qid(self@, view_types(args@)),
    {
        let mut inst: Vec<Type> = Vec::new();
        let mut i: usize = 0;
        while i < self.inst.len()
            invariant
                i <= self.inst@.len(),
                inst@.len() == i,
                forall|k: int| 0 <= k < i ==> inst@[k]@ == spec_instantiate(
                    self.inst@[k]@,
                    view_types(args@),
                ),
            decreases self.inst@.len() - i,
        {
            inst.push(self.inst[i].instantiate(args));
            i += 1;
        }
        proof {
            broadcast use lemma_view_types_len, lemma_view_types_index;
            broadcast use lemma_spec_instantiate_all_len, lemma_spec_instantiate_all_index;

            assert(view_types(inst@) =~= spec_instantiate_all(
                view_types(self.inst@),
                view_types(args@),
            ));
        }
        QualifiedInstId { module_id: self.module_id, inst, id: self.id }
    }

    /// Drops the instantiation, leaving the plain struct reference.
    pub fn to_qualified_id(&self) -> (r: QualifiedId<StructId>)
        ensures
            r.module_id == self@.module_id,
            r.id == self@.id,
    {
        QualifiedId { module_id: self.module_id, id: self.id }
    }

    /// Structural equality, decided at the level of mathematical values.
    pub fn qid_eq(&self, other: &QualifiedInstId) -> (r: bool)
        ensures
            r == (self@ == other@),
    {
        proof {
            broadcast use lemma_view_types_len, lemma_view_types_index;
        }
        if self.module_id.0 != other.module_id.0 || self.id.0 != other.id.0
            || self.inst.len() != other.inst.len() {
            return false;
        }
        let mut i: usize = 0;
        let mut all_eq = true;
        while i < self.inst.len()
            invariant
                i <= self.inst@.len(),
                self.inst@.len() == other.inst@.len(),
                all_eq == (forall|k: int| 0 <= k < i ==> self.inst@[k]@ == other.inst@[k]@),
            decreases self.inst@.len() - i,
        {
            let e = self.inst[i].type_eq(&other.inst[i]);
            all_eq = all_eq && e;
            i += 1;
        }
        proof {
            broadcast use lemma_view_types_len, lemma_view_types_index;

            if all_eq {
                assert(view_types(self.inst@) =~= view_types(other.inst@));
                assert(self@ =~= other@);
            } else {
                let k = choose|k: int|
                    0 <= k < self.inst@.len() && !(self.inst@[k]@ == other.inst@[k]@);
                assert(view_types(self.inst@)[k] != view_types(other.inst@)[k]);
            }
        }
        all_eq
    }
}

impl ModuleId {
    /// Pairs this module with a member id.
    pub fn qualified<Id>(self, id: Id) -> (r: QualifiedId<Id>)
        ensures
            r.module_id == self,
            r.id == id,
    {
        QualifiedId { module_id: self, id }
    }

    /// Pairs this module with a struct id and an instantiation.
    pub fn qualified_inst(self, id: StructId, inst: Vec<Type>) -> (r: QualifiedInstId)
        ensures
            r@ == (QualifiedInstIdV { module_id: self, inst: view_types(inst@), id }),
    {
        QualifiedInstId { module_id: self, inst, id }
    }
}

} // verus!
