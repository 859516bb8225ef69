//! The global model: the expression arena, the per-node attribute tables
//! (type, instantiation, location), the module table with structs, functions
//! and specification functions, and the symbol pool.
//!
//! The model plays the role of the surrounding program database: producers
//! fill it, the analyses read it. Its well-formedness predicate states
//! exactly what the analyses assume of their input; every constructor
//! establishes it and every mutator preserves it.

use vstd::prelude::*;
use crate::ast::{children_bounded, ExpArena, Exp, ExpData, Operation, Spec, SpecFunDecl};
use crate::ids::{FunId, Loc, ModuleId, NodeId, SpecFunId, StructId, Symbol};
use crate::ty::{Type, TypeV};

verus! {

broadcast use vstd::string::group_string_axioms;

/// A struct's metadata, as far as the analysis reads it.
#[derive(Debug)]
pub struct StructData {
    pub name: Symbol,
    /// The names of the struct's fields, by field id.
    pub field_names: Vec<Symbol>,
}

/// A bytecode function's metadata, as far as the analysis reads it.
#[derive(Debug)]
pub struct FunctionData {
    pub name: Symbol,
    /// The function's declared specification.
    pub spec: Spec,
    /// Whether checking of global invariants is delegated to this function:
    /// its callers then see its memory effects as their own.
    pub delegated_invariants: bool,
}

/// A module: name, structs, bytecode functions and specification functions.
#[derive(Debug)]
pub struct ModuleData {
    pub name: crate::ast::ModuleName,
    pub structs: Vec<StructData>,
    pub functions: Vec<FunctionData>,
    pub spec_funs: Vec<SpecFunDecl>,
}

/// The pool of interned name strings.
#[derive(Debug)]
pub struct SymbolPool {
    pub strings: Vec<String>,
}

impl ModuleData {
    /// The declaration of a specification function of this module.
    pub fn get_spec_fun(&self, fid: SpecFunId) -> (r: &SpecFunDecl)
        requires
            fid.0 < self.spec_funs@.len(),
        ensures
            *r == self.spec_funs@[fid.0 as int],
    {
        &self.spec_funs[fid.0]
    }

    /// The metadata of a struct of this module.
    pub fn get_struct(&self, sid: StructId) -> (r: &StructData)
        requires
            sid.0 < self.structs@.len(),
        ensures
            *r == self.structs@[sid.0 as int],
    {
        &self.structs[sid.0]
    }

    /// The metadata of a bytecode function of this module.
    pub fn get_function(&self, fid: FunId) -> (r: &FunctionData)
        requires
            fid.0 < self.functions@.len(),
        ensures
            *r == self.functions@[fid.0 as int],
    {
        &self.functions[fid.0]
    }
}

impl SymbolPool {
    pub fn new() -> (r: SymbolPool)
        ensures
            r.strings@.len() == 0,
    {
        SymbolPool { strings: Vec::new() }
    }

    /// Interns a string, handing back its symbol. The same string interns
    /// to the same symbol.
    pub fn make(&mut self, s: &str) -> (r: Symbol)
        ensures
            final(self).strings@.len() >= old(self).strings@.len(),
            old(self).strings@.is_prefix_of(final(self).strings@),
            r.0 < final(self).strings@.len(),
            final(self).strings@[r.0 as int]@ == s@,
    {
        let owned: String = s.to_owned();
        let n = self.strings.len();
        let mut i: usize = 0;
        while i < n
            invariant
                n == self.strings@.len(),
                i <= n,
                owned@ == s@,
            decreases n - i,
        {
            if self.strings[i].eq(&owned) {
                return Symbol(i);
            }
            i += 1;
        }
        self.strings.push(owned);
        Symbol(n)
    }

    /// The string of a symbol.
    pub fn string(&self, s: Symbol) -> (r: &String)
        requires
            s.0 < self.strings@.len(),
        ensures
            r@ == self.strings@[s.0 as int]@,
    {
        &self.strings[s.0]
    }
}

/// Whether a name carries the reserved ghost-memory prefix, `Ghost$`. A
/// struct whose name starts with it models verification-only state.
pub open spec fn is_ghost_name(chars: Seq<char>) -> bool {
    chars.len() >= 6 && chars[0] == 'G' && chars[1] == 'h' && chars[2] == 'o' && chars[3] == 's'
        && chars[4] == 't' && chars[5] == '$'
}

/// The global model.
#[derive(Debug)]
pub struct GlobalEnv {
    /// The arena holding all expression data.
    pub exp_arena: ExpArena,
    /// The type of each node.
    pub node_types: Vec<Type>,
    /// The type instantiation of each node, if one was set.
    pub node_insts: Vec<Option<Vec<Type>>>,
    /// The source location of each node.
    pub node_locs: Vec<Loc>,
    /// The modules of the program.
    pub modules: Vec<ModuleData>,
    /// The interned name strings.
    pub symbol_pool: SymbolPool,
}

impl GlobalEnv {
    /// The number of allocated nodes.
    pub open spec fn num_nodes(&self) -> int {
        self.node_types@.len() as int
    }

    /// Whether `id` is an allocated node.
    pub open spec fn has_node(&self, id: NodeId) -> bool {
        id.0 < self.num_nodes()
    }

    /// The instantiation recorded for a node, or the empty one.
    pub open spec fn spec_node_inst(&self, id: NodeId) -> Seq<TypeV> {
        match self.node_insts@[id.0 as int] {
            Option::Some(ts) => crate::ty::view_types(ts@),
            Option::None => Seq::empty(),
        }
    }

    /// The value of the type recorded for a node.
    pub open spec fn spec_node_type(&self, id: NodeId) -> TypeV {
        self.node_types@[id.0 as int]@
    }

    /// Whether a module id is valid.
    pub open spec fn has_module(&self, mid: ModuleId) -> bool {
        mid.0 < self.modules@.len()
    }

    /// Whether a specification function id is valid within a module.
    pub open spec fn has_spec_fun(&self, mid: ModuleId, fid: SpecFunId) -> bool {
        self.has_module(mid) && fid.0 < self.modules@[mid.0 as int].spec_funs@.len()
    }

    /// Whether a struct id is valid within a module.
    pub open spec fn has_struct(&self, mid: ModuleId, sid: StructId) -> bool {
        self.has_module(mid) && sid.0 < self.modules@[mid.0 as int].structs@.len()
    }

    /// Whether a function id is valid within a module.
    pub open spec fn has_fun(&self, mid: ModuleId, fid: FunId) -> bool {
        self.has_module(mid) && fid.0 < self.modules@[mid.0 as int].functions@.len()
    }

    /// The declaration of a specification function.
    pub open spec fn spec_fun_of(&self, mid: ModuleId, fid: SpecFunId) -> &SpecFunDecl {
        &self.modules@[mid.0 as int].spec_funs@[fid.0 as int]
    }

    /// What the analyses assume of one expression node's data: node ids are
    /// allocated; a memory operation's node carries a struct type as the
    /// head of its instantiation; a specification-function call refers to a
    /// declared function, and its labels, if any, match that function's
    /// used-memory list.
    pub open spec fn wf_entry(&self, d: ExpData) -> bool {
        &&& self.has_node(d.spec_node_id())
        &&& match d {
            ExpData::Call(id, oper, _) => match oper {
                Operation::Exists(_) | Operation::Global(_) => {
                    &&& self.spec_node_inst(id).len() >= 1
                    &&& self.spec_node_inst(id)[0] matches TypeV::Struct(mid, sid, _)
                    &&& {
                        let m = self.spec_node_inst(id)[0];
                        match m {
                            TypeV::Struct(mid, sid, _) => self.has_struct(mid, sid),
                            _ => true,
                        }
                    }
                },
                Operation::Function(mid, fid, labels) => {
                    &&& self.has_spec_fun(mid, fid)
                    &&& match labels {
                        Option::Some(ls) => ls@.len() == self.spec_fun_of(
                            mid,
                            fid,
                        ).used_memory@.len(),
                        Option::None => true,
                    }
                },
                _ => true,
            },
            _ => true,
        }
    }

    /// Whether every node type that is a struct type refers, at its head,
    /// to a declared struct whose name symbol is in the pool. Analyses that
    /// inspect node types by struct (ghost-memory extraction, declared-spec
    /// usage) assume it.
    pub open spec fn wf_struct_types(&self) -> bool {
        forall|i: int|
            0 <= i < self.num_nodes() ==> match #[trigger] self.node_types@[i]@ {
                TypeV::Struct(mid, sid, _) => self.has_struct(mid, sid)
                    && self.modules@[mid.0 as int].structs@[sid.0 as int].name.0
                    < self.symbol_pool.strings@.len(),
                _ => true,
            }
    }

    /// Well-formedness of the whole model.
    pub open spec fn wf(&self) -> bool {
        &&& self.exp_arena.wf()
        &&& self.node_insts@.len() == self.num_nodes()
        &&& self.node_locs@.len() == self.num_nodes()
        &&& forall|i: int|
            0 <= i < self.exp_arena.nodes@.len() ==> self.wf_entry(
                #[trigger] self.exp_arena.nodes@[i],
            )
    }

    /// An empty model.
    pub fn new() -> (r: GlobalEnv)
        ensures
            r.wf(),
            r.exp_arena.nodes@.len() == 0,
            r.num_nodes() == 0,
            r.modules@.len() == 0,
    {
        GlobalEnv {
            exp_arena: ExpArena::new(),
            node_types: Vec::new(),
            node_insts: Vec::new(),
            node_locs: Vec::new(),
            modules: Vec::new(),
            symbol_pool: SymbolPool::new(),
        }
    }

    /// Adds a module, handing back its id.
    pub fn add_module(&mut self, name: crate::ast::ModuleName) -> (r: ModuleId)
        requires
            old(self).wf(),
        ensures
            final(self).wf(),
            r.0 == old(self).modules@.len(),
            final(self).modules@.len() == old(self).modules@.len() + 1,
            final(self).exp_arena.nodes@ == old(self).exp_arena.nodes@,
            final(self).node_types@ == old(self).node_types@,
            final(self).node_insts@ == old(self).node_insts@,
            final(self).has_module(r),
            forall|mid: ModuleId, fid: SpecFunId|
                old(self).has_spec_fun(mid, fid) ==> final(self).has_spec_fun(mid, fid)
                    && final(self).spec_fun_of(mid, fid) == old(self).spec_fun_of(mid, fid),
            forall|mid: ModuleId, sid: StructId|
                old(self).has_struct(mid, sid) ==> final(self).has_struct(mid, sid),
    {
        let r = ModuleId(self.modules.len());
        self.modules.push(
            ModuleData { name, structs: Vec::new(), functions: Vec::new(), spec_funs: Vec::new() },
        );
        proof {
            assert forall|i: int|
                0 <= i < self.exp_arena.nodes@.len() implies self.wf_entry(
                #[trigger] self.exp_arena.nodes@[i],
            ) by {
                assert(old(self).wf_entry(self.exp_arena.nodes@[i]));
            }
        }
        r
    }

    /// Allocates a fresh node with a type and location.
    pub fn new_node(&mut self, loc: Loc, ty: Type) -> (r: NodeId)
        requires
            old(self).wf(),
        ensures
            final(self).wf(),
            r.0 == old(self).num_nodes(),
            final(self).num_nodes() == old(self).num_nodes() + 1,
            final(self).has_node(r),
            final(self).exp_arena.nodes@ == old(self).exp_arena.nodes@,
            final(self).modules@ == old(self).modules@,
            final(self).node_types@ == old(self).node_types@.push(ty),
            final(self).node_insts@ == old(self).node_insts@.push(Option::None),
            final(self).spec_node_type(r) == ty@,
            final(self).spec_node_inst(r) == Seq::<TypeV>::empty(),
            forall|id: NodeId| old(self).has_node(id) ==> final(self).has_node(id)
                && final(self).spec_node_type(id) == old(self).spec_node_type(id)
                && final(self).spec_node_inst(id) == old(self).spec_node_inst(id),
    {
        let r = NodeId(self.node_types.len());
        self.node_types.push(ty);
        self.node_insts.push(Option::None);
        self.node_locs.push(loc);
        proof {
            assert forall|i: int|
                0 <= i < self.exp_arena.nodes@.len() implies self.wf_entry(
                #[trigger] self.exp_arena.nodes@[i],
            ) by {
                assert(old(self).wf_entry(self.exp_arena.nodes@[i]));
            }
        }
        r
    }

    /// Whether some memory operation node in the arena carries this id.
    pub open spec fn has_memory_call_with(&self, id: NodeId) -> bool {
        exists|i: int|
            0 <= i < self.exp_arena.nodes@.len() && match #[trigger] self.exp_arena.nodes@[i] {
                ExpData::Call(id2, oper, _) => id2 == id && (oper matches Operation::Exists(_)
                    || oper matches Operation::Global(_)),
                _ => false,
            }
    }

    /// Whether some specification-function call node in the arena carries
    /// this id.
    pub open spec fn has_labelled_fun_call_with(&self, id: NodeId) -> bool {
        exists|i: int|
            0 <= i < self.exp_arena.nodes@.len() && match #[trigger] self.exp_arena.nodes@[i] {
                ExpData::Call(id2, oper, _) => id2 == id && (oper matches Operation::Function(
                    _,
                    _,
                    _,
                )),
                _ => false,
            }
    }

    /// Sets the instantiation of a node. A node already used by a memory
    /// operation must keep an instantiation headed by a declared struct
    /// type.
    pub fn set_node_instantiation(&mut self, id: NodeId, inst: Vec<Type>) -> (r: ())
        requires
            old(self).wf(),
            old(self).has_node(id),
            !old(self).has_memory_call_with(id) || (crate::ty::view_types(inst@).len() >= 1 && {
                let m = crate::ty::view_types(inst@)[0];
                match m {
                    TypeV::Struct(mid, sid, _) => old(self).has_struct(mid, sid),
                    _ => false,
                }
            }),
        ensures
            final(self).wf(),
            final(self).exp_arena.nodes@ == old(self).exp_arena.nodes@,
            final(self).modules@ == old(self).modules@,
            final(self).num_nodes() == old(self).num_nodes(),
            final(self).spec_node_inst(id) == crate::ty::view_types(inst@),
            forall|id2: NodeId|
                old(self).has_node(id2) && id2 != id ==> final(self).spec_node_inst(id2) == old(
                    self,
                ).spec_node_inst(id2),
            forall|id2: NodeId|
                old(self).has_node(id2) ==> final(self).spec_node_type(id2) == old(
                    self,
                ).spec_node_type(id2),
    {
        self.node_insts.set(id.0, Option::Some(inst));
        proof {
            assert forall|i: int|
                0 <= i < self.exp_arena.nodes@.len() implies self.wf_entry(
                #[trigger] self.exp_arena.nodes@[i],
            ) by {
                let d = self.exp_arena.nodes@[i];
                assert(old(self).wf_entry(d));
                match d {
                    ExpData::Call(id2, oper, _) => {
                        if id2 == id {
                            match oper {
                                Operation::Exists(_) | Operation::Global(_) => {
                                    assert(old(self).has_memory_call_with(id));
                                },
                                _ => {},
                            }
                        }
                    },
                    _ => {},
                }
            }
        }
    }

    /// Interns expression data, handing back its handle. The data must be
    /// well formed for this model.
    pub fn add_exp(&mut self, d: ExpData) -> (e: Exp)
        requires
            old(self).wf(),
            children_bounded(d, old(self).exp_arena.nodes@.len() as int),
            old(self).wf_entry(d),
        ensures
            final(self).wf(),
            final(self).exp_arena.has(e),
            crate::ast::data_eq(final(self).exp_arena.spec_data_of(e), d),
            old(self).exp_arena.nodes@.is_prefix_of(final(self).exp_arena.nodes@),
            final(self).num_nodes() == old(self).num_nodes(),
            final(self).modules@ == old(self).modules@,
            final(self).node_types@ == old(self).node_types@,
            final(self).node_insts@ == old(self).node_insts@,
            forall|i: int|
                0 <= i < old(self).exp_arena.nodes@.len() ==> final(self).exp_arena.nodes@[i]
                    == old(self).exp_arena.nodes@[i],
    {
        let e = self.exp_arena.intern(d);
        proof {
            assert forall|i: int|
                0 <= i < self.exp_arena.nodes@.len() implies self.wf_entry(
                #[trigger] self.exp_arena.nodes@[i],
            ) by {
                assert(old(self).exp_arena.nodes@.is_prefix_of(self.exp_arena.nodes@));
                if i < old(self).exp_arena.nodes@.len() {
                    assert(self.exp_arena.nodes@[i] == old(self).exp_arena.nodes@[i]);
                    assert(old(self).wf_entry(self.exp_arena.nodes@[i]));
                } else {
                    assert(self.exp_arena.nodes@ == old(self).exp_arena.nodes@.push(d));
                    assert(self.exp_arena.nodes@[i] == d);
                    assert(old(self).wf_entry(d));
                }
            }
        }
        e
    }

    /// The type recorded for a node.
    pub fn get_node_type(&self, id: NodeId) -> (r: &Type)
        requires
            self.wf(),
            self.has_node(id),
        ensures
            r@ == self.spec_node_type(id),
    {
        &self.node_types[id.0]
    }

    /// The location recorded for a node.
    pub fn get_node_loc(&self, id: NodeId) -> (r: Loc)
        requires
            self.wf(),
            self.has_node(id),
        ensures
            r == self.node_locs@[id.0 as int],
    {
        self.node_locs[id.0]
    }

    /// The instantiation recorded for a node, if one was set.
    pub fn get_node_instantiation_opt(&self, id: NodeId) -> (r: &Option<Vec<Type>>)
        requires
            self.wf(),
            self.has_node(id),
        ensures
            *r == self.node_insts@[id.0 as int],
            match r {
                Option::Some(ts) => self.spec_node_inst(id) == crate::ty::view_types(ts@),
                Option::None => self.spec_node_inst(id) == Seq::<TypeV>::empty(),
            },
    {
        &self.node_insts[id.0]
    }

    /// Adds a struct to a module, handing back its id.
    pub fn add_struct(&mut self, mid: ModuleId, name: Symbol, field_names: Vec<Symbol>) -> (r: StructId)
        requires
            old(self).wf(),
            old(self).has_module(mid),
        ensures
            final(self).wf(),
            r.0 == old(self).modules@[mid.0 as int].structs@.len(),
            final(self).has_struct(mid, r),
            final(self).exp_arena.nodes@ == old(self).exp_arena.nodes@,
            final(self).node_types@ == old(self).node_types@,
            final(self).node_insts@ == old(self).node_insts@,
            final(self).symbol_pool.strings@ == old(self).symbol_pool.strings@,
            final(self).modules@.len() == old(self).modules@.len(),
            forall|m: int|
                0 <= m < old(self).modules@.len() && m != mid.0 ==> final(self).modules@[m] == old(
                    self,
                ).modules@[m],
            final(self).modules@[mid.0 as int].structs@ == old(
                self,
            ).modules@[mid.0 as int].structs@.push(StructData { name, field_names }),
            final(self).modules@[mid.0 as int].name == old(self).modules@[mid.0 as int].name,
            final(self).modules@[mid.0 as int].functions@ == old(
                self,
            ).modules@[mid.0 as int].functions@,
            final(self).modules@[mid.0 as int].spec_funs@ == old(
                self,
            ).modules@[mid.0 as int].spec_funs@,
            final(self).modules@[mid.0 as int].structs@[r.0 as int].name == name,
    {
        let r = StructId(self.modules[mid.0].structs.len());
        self.modules[mid.0].structs.push(StructData { name, field_names });
        proof {
            assert forall|i: int|
                0 <= i < self.exp_arena.nodes@.len() implies self.wf_entry(
                #[trigger] self.exp_arena.nodes@[i],
            ) by {
                assert(old(self).wf_entry(self.exp_arena.nodes@[i]));
            }
        }
        r
    }

    /// Adds a bytecode function to a module, handing back its id.
    pub fn add_function(&mut self, mid: ModuleId, name: Symbol, delegated_invariants: bool, spec: Spec) -> (r: FunId)
        requires
            old(self).wf(),
            old(self).has_module(mid),
        ensures
            final(self).wf(),
            r.0 == old(self).modules@[mid.0 as int].functions@.len(),
            final(self).has_fun(mid, r),
            final(self).exp_arena.nodes@ == old(self).exp_arena.nodes@,
            final(self).node_types@ == old(self).node_types@,
            final(self).node_insts@ == old(self).node_insts@,
            final(self).symbol_pool.strings@ == old(self).symbol_pool.strings@,
            final(self).modules@.len() == old(self).modules@.len(),
            forall|m: int|
                0 <= m < old(self).modules@.len() && m != mid.0 ==> final(self).modules@[m] == old(
                    self,
                ).modules@[m],
            final(self).modules@[mid.0 as int].structs@ == old(
                self,
            ).modules@[mid.0 as int].structs@,
            final(self).modules@[mid.0 as int].name == old(self).modules@[mid.0 as int].name,
            final(self).modules@[mid.0 as int].spec_funs@ == old(
                self,
            ).modules@[mid.0 as int].spec_funs@,
            final(self).modules@[mid.0 as int].functions@.len() == old(
                self,
            ).modules@[mid.0 as int].functions@.len() + 1,
            final(self).modules@[mid.0 as int].functions@[r.0 as int].name == name,
            final(self).modules@[mid.0 as int].functions@[r.0 as int].delegated_invariants
                == delegated_invariants,
            final(self).modules@[mid.0 as int].functions@[r.0 as int].spec == spec,
            forall|k: int|
                0 <= k < old(self).modules@[mid.0 as int].functions@.len() ==> final(self).modules@[mid.0 as int].functions@[k] == old(
                    self,
                ).modules@[mid.0 as int].functions@[k],
    {
        let r = FunId(self.modules[mid.0].functions.len());
        self.modules[mid.0].functions.push(
            FunctionData { name, spec, delegated_invariants },
        );
        proof {
            assert forall|i: int|
                0 <= i < self.exp_arena.nodes@.len() implies self.wf_entry(
                #[trigger] self.exp_arena.nodes@[i],
            ) by {
                assert(old(self).wf_entry(self.exp_arena.nodes@[i]));
            }
        }
        r
    }

    /// Adds a specification function to a module, handing back its id.
    pub fn add_spec_fun(&mut self, mid: ModuleId, decl: SpecFunDecl) -> (r: SpecFunId)
        requires
            old(self).wf(),
            old(self).has_module(mid),
        ensures
            final(self).wf(),
            r.0 == old(self).modules@[mid.0 as int].spec_funs@.len(),
            final(self).has_spec_fun(mid, r),
            final(self).exp_arena.nodes@ == old(self).exp_arena.nodes@,
            final(self).node_types@ == old(self).node_types@,
            final(self).node_insts@ == old(self).node_insts@,
            final(self).symbol_pool.strings@ == old(self).symbol_pool.strings@,
            final(self).modules@.len() == old(self).modules@.len(),
            forall|m: int|
                0 <= m < old(self).modules@.len() && m != mid.0 ==> final(self).modules@[m] == old(
                    self,
                ).modules@[m],
            final(self).modules@[mid.0 as int].structs@ == old(
                self,
            ).modules@[mid.0 as int].structs@,
            final(self).modules@[mid.0 as int].name == old(self).modules@[mid.0 as int].name,
            final(self).modules@[mid.0 as int].functions@ == old(
                self,
            ).modules@[mid.0 as int].functions@,
            final(self).modules@[mid.0 as int].spec_funs@ == old(
                self,
            ).modules@[mid.0 as int].spec_funs@.push(decl),
            forall|m2: ModuleId, f2: SpecFunId|
                old(self).has_spec_fun(m2, f2) ==> final(self).has_spec_fun(m2, f2) && final(self).spec_fun_of(m2, f2) == old(self).spec_fun_of(m2, f2),
    {
        let r = SpecFunId(self.modules[mid.0].spec_funs.len());
        self.modules[mid.0].spec_funs.push(decl);
        proof {
            assert forall|i: int|
                0 <= i < self.exp_arena.nodes@.len() implies self.wf_entry(
                #[trigger] self.exp_arena.nodes@[i],
            ) by {
                assert(old(self).wf_entry(self.exp_arena.nodes@[i]));
            }
        }
        r
    }

    /// The module of an id.
    pub fn get_module(&self, mid: ModuleId) -> (r: &ModuleData)
        requires
            self.wf(),
            self.has_module(mid),
        ensures
            *r == self.modules@[mid.0 as int],
    {
        &self.modules[mid.0]
    }

    /// Whether checking of global invariants is delegated to this function.
    pub fn is_invariant_checking_delegated(&self, mid: ModuleId, fid: FunId) -> (r: bool)
        requires
            self.wf(),
            self.has_fun(mid, fid),
        ensures
            r == self.modules@[mid.0 as int].functions@[fid.0 as int].delegated_invariants,
    {
        self.modules[mid.0].functions[fid.0].delegated_invariants
    }


    /// Whether the node's instantiation is headed by a declared struct
    /// type, as the memory operations require of their nodes.
    pub open spec fn inst_head_ok(&self, id: NodeId) -> bool {
        &&& self.spec_node_inst(id).len() >= 1
        &&& match self.spec_node_inst(id)[0] {
            TypeV::Struct(m, s, _) => self.has_struct(m, s),
            _ => false,
        }
    }

    /// Instantiates the type and instantiation of a node with the given
    /// type arguments, allocating a fresh node for the result. Hands back
    /// nothing when the arguments are empty or nothing would change, so a
    /// rewrite can keep the node. Usable as the node-id hook of the rewrite
    /// engine to apply a type instantiation.
    pub fn instantiate_node(&mut self, id: NodeId, targs: &Vec<Type>) -> (r: Option<NodeId>)
        requires
            old(self).wf(),
            old(self).has_node(id),
        ensures
            final(self).wf(),
            final(self).exp_arena.nodes@ == old(self).exp_arena.nodes@,
            final(self).modules@ == old(self).modules@,
            final(self).num_nodes() >= old(self).num_nodes(),
            forall|id0: NodeId|
                old(self).has_node(id0) ==> final(self).has_node(id0) && final(self).spec_node_type(id0) == old(self).spec_node_type(id0) && final(self).spec_node_inst(id0) == old(self).spec_node_inst(id0),
            match r {
                Option::Some(id2) => {
                    &&& final(self).has_node(id2)
                    &&& !old(self).has_node(id2)
                    &&& final(self).spec_node_type(id2) == crate::ty::spec_instantiate(
                        old(self).spec_node_type(id),
                        crate::ty::view_types(targs@),
                    )
                    &&& final(self).spec_node_inst(id2) == crate::ty::spec_instantiate_all(
                        old(self).spec_node_inst(id),
                        crate::ty::view_types(targs@),
                    )
                    &&& (old(self).inst_head_ok(id) ==> final(self).inst_head_ok(id2))
                },
                Option::None => final(self).num_nodes() == old(self).num_nodes() && final(self).node_insts@ == old(self).node_insts@ && final(self).node_types@ == old(
                    self,
                ).node_types@,
            },
    {
        proof {
            broadcast use crate::ty::lemma_view_types_len, crate::ty::lemma_view_types_index;
            broadcast use crate::ty::lemma_spec_instantiate_all_len,
                crate::ty::lemma_spec_instantiate_all_index;
        }
        if targs.len() == 0 {
            return Option::None;
        }
        let new_ty = self.node_types[id.0].instantiate(targs);
        let ty_changed = !self.node_types[id.0].type_eq(&new_ty);
        let mut inst_changed = false;
        let new_inst: Option<Vec<Type>> = match &self.node_insts[id.0] {
            Option::Some(ts) => {
                let mut inst2: Vec<Type> = Vec::new();
                let mut i: usize = 0;
                while i < ts.len()
                    invariant
                        i <= ts@.len(),
                        inst2@.len() == i,
                        forall|k: int|
                            0 <= k < i ==> inst2@[k]@ == crate::ty::spec_instantiate(
                                ts@[k]@,
                                crate::ty::view_types(targs@),
                            ),
                    decreases ts@.len() - i,
                {
                    inst2.push(ts[i].instantiate(targs));
                    i += 1;
                }
                proof {
                    broadcast use crate::ty::lemma_view_types_len,
                        crate::ty::lemma_view_types_index;
                    broadcast use crate::ty::lemma_spec_instantiate_all_len,
                        crate::ty::lemma_spec_instantiate_all_index;

                    assert(crate::ty::view_types(inst2@) =~= crate::ty::spec_instantiate_all(
                        crate::ty::view_types(ts@),
                        crate::ty::view_types(targs@),
                    ));
                }
                inst_changed = !types_eq(ts, &inst2);
                Option::Some(inst2)
            },
            Option::None => Option::None,
        };
        if !ty_changed && !inst_changed {
            proof {
                match old(self).node_insts@[id.0 as int] {
                    Option::Some(ts) => {
                        assert(crate::ty::spec_instantiate_all(
                            old(self).spec_node_inst(id),
                            crate::ty::view_types(targs@),
                        ) =~= old(self).spec_node_inst(id));
                    },
                    Option::None => {},
                }
            }
            return Option::None;
        }
        let loc = self.node_locs[id.0];
        let id2 = self.new_node(loc, new_ty);
        match new_inst {
            Option::Some(inst2) => {
                proof {
                    assert(!self.has_memory_call_with(id2)) by {
                        if self.has_memory_call_with(id2) {
                            let i = choose|i: int|
                                0 <= i < self.exp_arena.nodes@.len() && match #[trigger] self.exp_arena.nodes@[i] {
                                    ExpData::Call(idx, oper, _) => idx == id2 && (oper matches
                                        Operation::Exists(_) || oper matches Operation::Global(_)),
                                    _ => false,
                                };
                            assert(old(self).wf_entry(old(self).exp_arena.nodes@[i]));
                        }
                    }
                }
                self.set_node_instantiation(id2, inst2);
            },
            Option::None => {
                proof {
                    match old(self).node_insts@[id.0 as int] {
                        Option::Some(_) => {
                            assert(false);
                        },
                        Option::None => {
                            assert(old(self).spec_node_inst(id) =~= Seq::<TypeV>::empty());
                            assert(crate::ty::spec_instantiate_all(
                                Seq::<TypeV>::empty(),
                                crate::ty::view_types(targs@),
                            ) =~= Seq::<TypeV>::empty());
                        },
                    }
                }
            },
        }
        proof {
            if old(self).inst_head_ok(id) {
                assert(self.spec_node_inst(id2)[0] == crate::ty::spec_instantiate(
                    old(self).spec_node_inst(id)[0],
                    crate::ty::view_types(targs@),
                ));
            }
        }
        Option::Some(id2)
    }

    /// Whether the struct's name carries the reserved ghost-memory prefix.
    pub fn is_ghost_memory_struct(&self, mid: ModuleId, sid: StructId) -> (r: bool)
        requires
            self.wf(),
            self.has_struct(mid, sid),
            ({
                let name = self.modules@[mid.0 as int].structs@[sid.0 as int].name;
                name.0 < self.symbol_pool.strings@.len()
            }),
        ensures
            ({
                let name = self.modules@[mid.0 as int].structs@[sid.0 as int].name;
                r == is_ghost_name(self.symbol_pool.strings@[name.0 as int]@)
            }),
    {
        let name = self.modules[mid.0].structs[sid.0].name;
        let s = self.symbol_pool.string(name);
        let r = str_starts_with(s.as_str(), "Ghost$");
        proof {
            reveal_strlit("Ghost$");
            let sv = self.symbol_pool.strings@[name.0 as int]@;
            if r {
                assert(sv.subrange(0, 6) == "Ghost$"@);
                assert(sv[0] == "Ghost$"@[0] && sv[1] == "Ghost$"@[1] && sv[2] == "Ghost$"@[2]
                    && sv[3] == "Ghost$"@[3] && sv[4] == "Ghost$"@[4] && sv[5] == "Ghost$"@[5]);
            } else {
                if is_ghost_name(sv) {
                    assert(sv.subrange(0, 6) =~= "Ghost$"@);
                }
            }
        }
        r
    }
}

/// Relies on str::starts_with: true exactly when the pattern is a prefix of
/// the string.
#[verifier::external_body]
fn str_starts_with(s: &str, prefix: &str) -> (r: bool)
    ensures
        r == (s@.len() >= prefix@.len() && s@.subrange(0, prefix@.len() as int) == prefix@),
{
    s.starts_with(prefix)
}


/// Decides whether two type vectors have equal values.
fn types_eq(a: &Vec<Type>, b: &Vec<Type>) -> (r: bool)
    ensures
        r == (crate::ty::view_types(a@) == crate::ty::view_types(b@)),
{
    proof {
        broadcast use crate::ty::lemma_view_types_len, crate::ty::lemma_view_types_index;
    }
    if a.len() != b.len() {
        return false;
    }
    let mut i: usize = 0;
    let mut all_eq = true;
    while i < a.len()
        invariant
            i <= a@.len(),
            a@.len() == b@.len(),
            all_eq == (forall|k: int| 0 <= k < i ==> a@[k]@ == b@[k]@),
        decreases a@.len() - i,
    {
        let e = a[i].type_eq(&b[i]);
        all_eq = all_eq && e;
        i += 1;
    }
    proof {
        broadcast use crate::ty::lemma_view_types_len, crate::ty::lemma_view_types_index;

        if all_eq {
            assert(crate::ty::view_types(a@) =~= crate::ty::view_types(b@));
        } else {
            let k = choose|k: int| 0 <= k < a@.len() && !(a@[k]@ == b@[k]@);
            assert(crate::ty::view_types(a@)[k] != crate::ty::view_types(b@)[k]);
        }
    }
    all_eq
}


/// One model state extends another: the arena only grew, every node kept
/// its type and instantiation, and the modules are unchanged.
pub open spec fn env_extends(post: GlobalEnv, pre: GlobalEnv) -> bool {
    &&& pre.exp_arena.nodes@.is_prefix_of(post.exp_arena.nodes@)
    &&& post.num_nodes() >= pre.num_nodes()
    &&& post.modules@ == pre.modules@
    &&& forall|id: NodeId| pre.has_node(id) ==> post.has_node(id)
    &&& forall|id: NodeId|
        pre.has_node(id) ==> #[trigger] post.spec_node_type(id) == pre.spec_node_type(id)
    &&& forall|id: NodeId|
        pre.has_node(id) ==> #[trigger] post.spec_node_inst(id) == pre.spec_node_inst(id)
}

/// `env_extends` is reflexive.
pub proof fn lemma_env_extends_refl(a: GlobalEnv)
    ensures
        env_extends(a, a),
{
    assert(a.exp_arena.nodes@ =~= a.exp_arena.nodes@.subrange(
        0,
        a.exp_arena.nodes@.len() as int,
    ));
}

/// `env_extends` is transitive.
pub proof fn lemma_env_extends_trans(a: GlobalEnv, b: GlobalEnv, c: GlobalEnv)
    requires
        env_extends(b, a),
        env_extends(c, b),
    ensures
        env_extends(c, a),
{
    assert(a.exp_arena.nodes@.is_prefix_of(c.exp_arena.nodes@)) by {
        let la = a.exp_arena.nodes@.len() as int;
        assert forall|i: int| 0 <= i < la implies a.exp_arena.nodes@[i] == c.exp_arena.nodes@[i]
            by {
            assert(a.exp_arena.nodes@[i] == b.exp_arena.nodes@[i]);
            assert(b.exp_arena.nodes@[i] == c.exp_arena.nodes@[i]);
        }
        assert(a.exp_arena.nodes@ =~= c.exp_arena.nodes@.subrange(0, la));
    }
    assert forall|id: NodeId| a.has_node(id) implies #[trigger] c.spec_node_type(id)
        == a.spec_node_type(id) by {
        assert(b.spec_node_type(id) == a.spec_node_type(id));
        assert(c.spec_node_type(id) == b.spec_node_type(id));
    }
    assert forall|id: NodeId| a.has_node(id) implies #[trigger] c.spec_node_inst(id)
        == a.spec_node_inst(id) by {
        assert(b.spec_node_inst(id) == a.spec_node_inst(id));
        assert(c.spec_node_inst(id) == b.spec_node_inst(id));
    }
    assert forall|id: NodeId| a.has_node(id) implies c.has_node(id) by {
        assert(b.has_node(id));
    }
}

} // verus!
