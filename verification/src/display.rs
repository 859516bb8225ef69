//! Human-readable rendering of the model's values: numbers, names, types,
//! operations, expressions, conditions and the usage-analysis dump. The
//! format is for diagnostics, not a stable machine format; each renderer's
//! contract states the produced character sequence exactly.

use vstd::prelude::*;
use vstd::string::StringExecFns;
use crate::ast::{
    children_bounded, triggers_view, Condition, ConditionKind, Exp, ExpData, LocalVarDecl,
    ModuleName, Operation, QuantKind, QualifiedSymbol, Spec, Value,
};
use crate::compositional::{FunctionData, FunctionTargetsHolder, FunctionVariant};
use crate::domains::SetDomain;
use crate::traversal::{lemma_children_bounded, seq_bounded, spec_children};
use crate::ty::{view_types, QualifiedInstId};
use crate::usage::MemoryUsage;
use crate::ids::{FieldId, MemoryLabel, ModuleId, NodeId, SpecFunId, StructId, Symbol};
use crate::model::{GlobalEnv, SymbolPool};
use crate::ty::{Type, TypeV};

verus! {

/// The decimal digit character of `d`.
pub open spec fn dec_digit(d: int) -> char {
    if d == 0 {
        '0'
    } else if d == 1 {
        '1'
    } else if d == 2 {
        '2'
    } else if d == 3 {
        '3'
    } else if d == 4 {
        '4'
    } else if d == 5 {
        '5'
    } else if d == 6 {
        '6'
    } else if d == 7 {
        '7'
    } else if d == 8 {
        '8'
    } else {
        '9'
    }
}

/// The decimal rendering of `n`, without leading zeros.
pub open spec fn spec_dec(n: nat) -> Seq<char>
    decreases n,
{
    if n < 10 {
        seq![dec_digit(n as int)]
    } else {
        spec_dec(n / 10).push(dec_digit((n % 10) as int))
    }
}

/// The lower-case hex digit character of `d`.
pub open spec fn hex_digit_chr(d: int) -> char {
    if d < 10 {
        dec_digit(d)
    } else if d == 10 {
        'a'
    } else if d == 11 {
        'b'
    } else if d == 12 {
        'c'
    } else if d == 13 {
        'd'
    } else if d == 14 {
        'e'
    } else {
        'f'
    }
}

/// The lower-case hex rendering of `n`, without leading zeros.
pub open spec fn spec_hex(n: nat) -> Seq<char>
    decreases n,
{
    if n < 16 {
        seq![hex_digit_chr(n as int)]
    } else {
        spec_hex(n / 16).push(hex_digit_chr((n % 16) as int))
    }
}

/// One decimal digit as a string.
fn dec_digit_str(d: u128) -> (r: &'static str)
    requires
        d < 10,
    ensures
        r@ == seq![dec_digit(d as int)],
{
    let r: &'static str = match d {
        0 => "0",
        1 => "1",
        2 => "2",
        3 => "3",
        4 => "4",
        5 => "5",
        6 => "6",
        7 => "7",
        8 => "8",
        _ => "9",
    };
    proof {
        reveal_strlit("0");
        reveal_strlit("1");
        reveal_strlit("2");
        reveal_strlit("3");
        reveal_strlit("4");
        reveal_strlit("5");
        reveal_strlit("6");
        reveal_strlit("7");
        reveal_strlit("8");
        reveal_strlit("9");
        assert(r@ =~= seq![dec_digit(d as int)]);
    }
    r
}

/// One hex digit as a string.
fn hex_digit_str(d: u128) -> (r: &'static str)
    requires
        d < 16,
    ensures
        r@ == seq![hex_digit_chr(d as int)],
{
    if d < 10 {
        dec_digit_str(d)
    } else {
        let r: &'static str = match d {
            10 => "a",
            11 => "b",
            12 => "c",
            13 => "d",
            14 => "e",
            _ => "f",
        };
        proof {
            reveal_strlit("a");
            reveal_strlit("b");
            reveal_strlit("c");
            reveal_strlit("d");
            reveal_strlit("e");
            reveal_strlit("f");
            assert(r@ =~= seq![hex_digit_chr(d as int)]);
        }
        r
    }
}

/// Renders a number in decimal.
pub fn dec_str(n: u128) -> (r: String)
    ensures
        r@ == spec_dec(n as nat),
    decreases n,
{
    if n < 10 {
        dec_digit_str(n).to_owned()
    } else {
        let mut s = dec_str(n / 10);
        s.append(dec_digit_str(n % 10));
        proof {
            assert(s@ =~= spec_dec(n as nat));
        }
        s
    }
}

/// Renders a number in lower-case hex.
pub fn hex_str(n: u128) -> (r: String)
    ensures
        r@ == spec_hex(n as nat),
    decreases n,
{
    if n < 16 {
        hex_digit_str(n).to_owned()
    } else {
        let mut s = hex_str(n / 16);
        s.append(hex_digit_str(n % 16));
        proof {
            assert(s@ =~= spec_hex(n as nat));
        }
        s
    }
}

/// The signed decimal rendering of `v`.
pub open spec fn spec_int_dec(v: int) -> Seq<char> {
    if v >= 0 {
        spec_dec(v as nat)
    } else {
        seq!['-'] + spec_dec((-v) as nat)
    }
}

/// Renders a signed number in decimal.
pub fn int_dec_str(v: i128) -> (r: String)
    ensures
        r@ == spec_int_dec(v as int),
{
    if v >= 0 {
        dec_str(v as u128)
    } else {
        let mag: u128 = ((-(v + 1)) as u128) + 1;
        proof {
            assert(mag as int == -(v as int));
        }
        let mut s = "-".to_owned();
        proof {
            reveal_strlit("-");
            assert(s@ =~= seq!['-']);
        }
        let rest = dec_str(mag);
        s.append(rest.as_str());
        proof {
            assert(s@ =~= spec_int_dec(v as int));
        }
        s
    }
}

/// The characters of a symbol's name, as the pool holds them.
pub open spec fn sym_chars(pool: SymbolPool, s: Symbol) -> Seq<char> {
    pool.strings@[s.0 as int]@
}

/// Whether a symbol is in the pool.
pub open spec fn sym_in_pool(pool: SymbolPool, s: Symbol) -> bool {
    s.0 < pool.strings@.len()
}

/// The rendering of a module name: the address part, for a non-script
/// module when asked for, then the plain name.
pub open spec fn spec_module_name(pool: SymbolPool, mn: ModuleName, with_address: bool) -> Seq<
    char,
> {
    let name = sym_chars(pool, mn.1);
    if with_address && mn.0 != u128::MAX {
        seq!['0', 'x'] + spec_hex(mn.0 as nat) + seq![':', ':'] + name
    } else {
        name
    }
}

/// A module name prepared for rendering.
pub struct ModuleNameDisplay<'a> {
    pub name: &'a ModuleName,
    pub pool: &'a SymbolPool,
    pub with_address: bool,
}

impl ModuleName {
    /// Prepares this name for rendering, excluding the address.
    pub fn display<'a>(&'a self, pool: &'a SymbolPool) -> (r: ModuleNameDisplay<'a>)
        ensures
            r.name == self,
            r.pool == pool,
            r.with_address == false,
    {
        ModuleNameDisplay { name: self, pool, with_address: false }
    }

    /// Prepares this name for rendering, including the address.
    pub fn display_full<'a>(&'a self, pool: &'a SymbolPool) -> (r: ModuleNameDisplay<'a>)
        ensures
            r.name == self,
            r.pool == pool,
            r.with_address == true,
    {
        ModuleNameDisplay { name: self, pool, with_address: true }
    }
}

impl<'a> ModuleNameDisplay<'a> {
    /// Renders the module name. A script's pseudo module shows no address.
    pub fn render(&self) -> (r: String)
        requires
            sym_in_pool(*self.pool, self.name.1),
        ensures
            r@ == spec_module_name(*self.pool, *self.name, self.with_address),
    {
        let mut s = String::new();
        if self.with_address && !self.name.is_script() {
            s.append("0x");
            let hx = hex_str(self.name.0);
            s.append(hx.as_str());
            s.append("::");
            proof {
                reveal_strlit("0x");
                reveal_strlit("::");
            }
        }
        let nm = self.pool.string(self.name.1);
        s.append(nm.as_str());
        proof {
            assert(s@ =~= spec_module_name(*self.pool, *self.name, self.with_address));
        }
        s
    }
}

/// The rendering of a qualified symbol.
pub open spec fn spec_qualified_symbol(
    pool: SymbolPool,
    qs: QualifiedSymbol,
    with_module: bool,
    with_address: bool,
) -> Seq<char> {
    if with_module {
        spec_module_name(pool, qs.module_name, with_address) + seq![':', ':'] + sym_chars(
            pool,
            qs.symbol,
        )
    } else {
        sym_chars(pool, qs.symbol)
    }
}

/// A qualified symbol prepared for rendering.
pub struct QualifiedSymbolDisplay<'a> {
    pub sym: &'a QualifiedSymbol,
    pub pool: &'a SymbolPool,
    pub with_module: bool,
    pub with_address: bool,
}

impl QualifiedSymbol {
    /// Prepares for rendering with the module name, without the address.
    pub fn display<'a>(&'a self, pool: &'a SymbolPool) -> (r: QualifiedSymbolDisplay<'a>)
        ensures
            r.sym == self,
            r.pool == pool,
            r.with_module == true,
            r.with_address == false,
    {
        QualifiedSymbolDisplay { sym: self, pool, with_module: true, with_address: false }
    }

    /// Prepares for rendering without the module name.
    pub fn display_simple<'a>(&'a self, pool: &'a SymbolPool) -> (r: QualifiedSymbolDisplay<'a>)
        ensures
            r.sym == self,
            r.pool == pool,
            r.with_module == false,
            r.with_address == false,
    {
        QualifiedSymbolDisplay { sym: self, pool, with_module: false, with_address: false }
    }

    /// Prepares for rendering with the module name and the address.
    pub fn display_full<'a>(&'a self, pool: &'a SymbolPool) -> (r: QualifiedSymbolDisplay<'a>)
        ensures
            r.sym == self,
            r.pool == pool,
            r.with_module == true,
            r.with_address == true,
    {
        QualifiedSymbolDisplay { sym: self, pool, with_module: true, with_address: true }
    }
}

impl<'a> QualifiedSymbolDisplay<'a> {
    /// Renders the qualified symbol.
    pub fn render(&self) -> (r: String)
        requires
            sym_in_pool(*self.pool, self.sym.symbol),
            self.with_module ==> sym_in_pool(*self.pool, self.sym.module_name.1),
        ensures
            r@ == spec_qualified_symbol(
                *self.pool,
                *self.sym,
                self.with_module,
                self.with_address,
            ),
    {
        let mut s = String::new();
        if self.with_module {
            let md = if self.with_address {
                self.sym.module_name.display_full(self.pool)
            } else {
                self.sym.module_name.display(self.pool)
            };
            let ms = md.render();
            s.append(ms.as_str());
            s.append("::");
            proof {
                reveal_strlit("::");
            }
        }
        let nm = self.pool.string(self.sym.symbol);
        s.append(nm.as_str());
        proof {
            assert(s@ =~= spec_qualified_symbol(
                *self.pool,
                *self.sym,
                self.with_module,
                self.with_address,
            ));
        }
        s
    }
}

/// The rendering of a memory label.
pub open spec fn spec_label(l: MemoryLabel) -> Seq<char> {
    seq!['@'] + spec_dec(l.0 as nat)
}

/// Renders a memory label.
pub fn label_str(l: MemoryLabel) -> (r: String)
    ensures
        r@ == spec_label(l),
{
    let mut s = "@".to_owned();
    proof {
        reveal_strlit("@");
        assert(s@ =~= seq!['@']);
    }
    let d = dec_str(l.0 as u128);
    s.append(d.as_str());
    proof {
        assert(s@ =~= spec_label(l));
    }
    s
}

/// The rendering of a literal value: addresses in hex, numbers in decimal,
/// booleans as words, byte arrays in bracketed list form.
pub open spec fn spec_value(v: Value) -> Seq<char> {
    match v {
        Value::Address(a) => spec_hex(a as nat),
        Value::Number(n) => spec_int_dec(n as int),
        Value::Bool(b) => if b {
            seq!['t', 'r', 'u', 'e']
        } else {
            seq!['f', 'a', 'l', 's', 'e']
        },
        Value::ByteArray(bytes) => seq!['['] + spec_byte_list(bytes@) + seq![']'],
    }
}

/// A comma-separated byte list.
pub open spec fn spec_byte_list(bs: Seq<u8>) -> Seq<char>
    decreases bs,
{
    if bs.len() == 0 {
        Seq::empty()
    } else if bs.len() == 1 {
        spec_dec(bs[0] as nat)
    } else {
        spec_byte_list(bs.drop_last()) + seq![',', ' '] + spec_dec(bs.last() as nat)
    }
}

impl Value {
    /// Renders this value.
    pub fn render(&self) -> (r: String)
        ensures
            r@ == spec_value(*self),
    {
        match self {
            Value::Address(a) => hex_str(*a),
            Value::Number(n) => int_dec_str(*n),
            Value::Bool(b) => {
                let r = if *b {
                    "true".to_owned()
                } else {
                    "false".to_owned()
                };
                proof {
                    reveal_strlit("true");
                    reveal_strlit("false");
                    assert(r@ =~= spec_value(*self));
                }
                r
            },
            Value::ByteArray(bytes) => {
                let mut s = "[".to_owned();
                proof {
                    reveal_strlit("[");
                    assert(s@ =~= seq!['[']);
                    assert(bytes@.subrange(0, 0) =~= Seq::<u8>::empty());
                }
                let mut i: usize = 0;
                while i < bytes.len()
                    invariant
                        i <= bytes@.len(),
                        s@ == seq!['['] + spec_byte_list(bytes@.subrange(0, i as int)),
                    decreases bytes@.len() - i,
                {
                    proof {
                        assert(bytes@.subrange(0, i + 1).drop_last() =~= bytes@.subrange(
                            0,
                            i as int,
                        ));
                        assert(bytes@.subrange(0, i + 1).last() == bytes@[i as int]);
                    }
                    if i > 0 {
                        s.append(", ");
                        proof {
                            reveal_strlit(", ");
                        }
                    }
                    let d = dec_str(bytes[i] as u128);
                    s.append(d.as_str());
                    proof {
                        assert(s@ =~= seq!['['] + spec_byte_list(bytes@.subrange(0, i + 1)));
                    }
                    i += 1;
                }
                s.append("]");
                proof {
                    reveal_strlit("]");
                    assert(bytes@.subrange(0, bytes@.len() as int) =~= bytes@);
                    assert(s@ =~= spec_value(*self));
                }
                s
            },
        }
    }
}


// =========================================================================
// Types

/// Whether every name a type rendering reads is available: struct
/// references declared, their module and struct names in the pool.
pub open spec fn wf_type_names(env: GlobalEnv, t: TypeV) -> bool
    decreases t, 0int,
{
    match t {
        TypeV::Struct(m, s, ts) => {
            &&& env.has_struct(m, s)
            &&& sym_in_pool(env.symbol_pool, env.modules@[m.0 as int].name.1)
            &&& sym_in_pool(env.symbol_pool, env.modules@[m.0 as int].structs@[s.0 as int].name)
            &&& wf_type_names_list(env, ts)
        },
        TypeV::Reference(_, t1) => wf_type_names(env, *t1),
        _ => true,
    }
}

/// `wf_type_names` over a type list.
pub open spec fn wf_type_names_list(env: GlobalEnv, ts: Seq<TypeV>) -> bool
    decreases ts, 1int,
{
    if ts.len() == 0 {
        true
    } else {
        wf_type_names_list(env, ts.drop_last()) && wf_type_names(env, ts.last())
    }
}

/// The rendering of a type: primitives by name, parameters by position,
/// struct types as module::name with their instantiation, references with
/// their mutability.
pub open spec fn spec_type(env: GlobalEnv, t: TypeV) -> Seq<char>
    decreases t, 0int,
{
    match t {
        TypeV::Bool => seq!['b', 'o', 'o', 'l'],
        TypeV::Num => seq!['n', 'u', 'm'],
        TypeV::Param(i) => seq!['#'] + if i >= 0 {
            spec_dec(i as nat)
        } else {
            Seq::empty()
        },
        TypeV::Struct(m, s, ts) => sym_chars(env.symbol_pool, env.modules@[m.0 as int].name.1)
            + seq![':', ':'] + sym_chars(
            env.symbol_pool,
            env.modules@[m.0 as int].structs@[s.0 as int].name,
        ) + if ts.len() > 0 {
            seq!['<'] + spec_type_list(env, ts) + seq!['>']
        } else {
            Seq::empty()
        },
        TypeV::Reference(is_mut, t1) => seq!['&'] + (if is_mut {
            seq!['m', 'u', 't', ' ']
        } else {
            Seq::empty()
        }) + spec_type(env, *t1),
    }
}

/// A comma-separated type list.
pub open spec fn spec_type_list(env: GlobalEnv, ts: Seq<TypeV>) -> Seq<char>
    decreases ts, 1int,
{
    if ts.len() == 0 {
        Seq::empty()
    } else if ts.len() == 1 {
        spec_type(env, ts[0])
    } else {
        spec_type_list(env, ts.drop_last()) + seq![',', ' '] + spec_type(env, ts.last())
    }
}

impl GlobalEnv {
    /// Renders a type.
    pub fn render_type(&self, t: &Type) -> (r: String)
        requires
            wf_type_names(*self, t@),
        ensures
            r@ == spec_type(*self, t@),
        decreases *t,
    {
        match t {
            Type::Bool => {
                let r = "bool".to_owned();
                proof {
                    reveal_strlit("bool");
                    assert(r@ =~= spec_type(*self, t@));
                }
                r
            },
            Type::Num => {
                let r = "num".to_owned();
                proof {
                    reveal_strlit("num");
                    assert(r@ =~= spec_type(*self, t@));
                }
                r
            },
            Type::Param(i) => {
                let mut s = "#".to_owned();
                proof {
                    reveal_strlit("#");
                    assert(s@ =~= seq!['#']);
                }
                let d = dec_str(*i as u128);
                s.append(d.as_str());
                proof {
                    assert(s@ =~= spec_type(*self, t@));
                }
                s
            },
            Type::Struct(m, sid, ts) => {
                proof {
                    crate::ty::lemma_view_types_len(ts@);
                }
                let mut s = String::new();
                let mname = self.symbol_pool.string(self.modules[m.0].name.1);
                s.append(mname.as_str());
                s.append("::");
                let sname = self.symbol_pool.string(self.modules[m.0].structs[sid.0].name);
                s.append(sname.as_str());
                proof {
                    reveal_strlit("::");
                }
                if ts.len() > 0 {
                    s.append("<");
                    let ghost tsv = crate::ty::view_types(ts@);
                    let mut i: usize = 0;
                    let mut parts = String::new();
                    while i < ts.len()
                        invariant
                            i <= ts@.len(),
                            tsv == crate::ty::view_types(ts@),
                            tsv.len() == ts@.len(),
                            wf_type_names_list(*self, tsv),
                            parts@ == spec_type_list(*self, tsv.subrange(0, i as int)),
                            *t == Type::Struct(*m, *sid, *ts),
                        decreases ts@.len() - i,
                    {
                        proof {
                            crate::ty::lemma_view_types_index(ts@, i as int);
                            assert(tsv.subrange(0, i + 1).drop_last() =~= tsv.subrange(
                                0,
                                i as int,
                            ));
                            assert(tsv.subrange(0, i + 1).last() == tsv[i as int]);
                            lemma_wf_type_names_elem(*self, tsv, i as int);
                            assert(decreases_to!(*t => (*t)->Struct_2));
                            assert((*t)->Struct_2 == *ts);
                            assert(decreases_to!(*ts => ts@));
                            assert(decreases_to!(ts@ => ts@[i as int]));
                            assert(decreases_to!(*t => ts@[i as int]));
                        }
                        if i > 0 {
                            parts.append(", ");
                            proof {
                                reveal_strlit(", ");
                            }
                        }
                        let p = self.render_type(&ts[i]);
                        parts.append(p.as_str());
                        proof {
                            assert(parts@ =~= spec_type_list(*self, tsv.subrange(0, i + 1)));
                        }
                        i += 1;
                    }
                    proof {
                        assert(tsv.subrange(0, tsv.len() as int) =~= tsv);
                    }
                    s.append(parts.as_str());
                    s.append(">");
                    proof {
                        reveal_strlit("<");
                        reveal_strlit(">");
                    }
                }
                proof {
                    assert(s@ =~= spec_type(*self, t@));
                }
                s
            },
            Type::Reference(is_mut, t1) => {
                let mut s = "&".to_owned();
                proof {
                    reveal_strlit("&");
                    assert(s@ =~= seq!['&']);
                }
                if *is_mut {
                    s.append("mut ");
                    proof {
                        reveal_strlit("mut ");
                    }
                }
                let inner = self.render_type(&**t1);
                s.append(inner.as_str());
                proof {
                    assert(s@ =~= spec_type(*self, t@));
                }
                s
            },
        }
    }
}

/// An element of a name-wise well-formed type list is itself well formed.
pub proof fn lemma_wf_type_names_elem(env: GlobalEnv, ts: Seq<TypeV>, i: int)
    requires
        wf_type_names_list(env, ts),
        0 <= i < ts.len(),
    ensures
        wf_type_names(env, ts[i]),
    decreases ts.len(),
{
    if i == ts.len() - 1 {
        assert(ts.last() == ts[i]);
    } else {
        lemma_wf_type_names_elem(env, ts.drop_last(), i);
        assert(ts.drop_last()[i] == ts[i]);
    }
}

// =========================================================================
// Kinds

/// The rendering of a quantifier kind.
pub open spec fn spec_quant_kind(k: QuantKind) -> Seq<char> {
    match k {
        QuantKind::Forall => seq!['f', 'o', 'r', 'a', 'l', 'l'],
        QuantKind::Exists => seq!['e', 'x', 'i', 's', 't', 's'],
        QuantKind::Choose => seq!['c', 'h', 'o', 'o', 's', 'e'],
        QuantKind::ChooseMin => seq!['c', 'h', 'o', 'o', 's', 'e', ' ', 'm', 'i', 'n'],
    }
}

impl QuantKind {
    /// Renders this quantifier kind.
    pub fn render(&self) -> (r: String)
        ensures
            r@ == spec_quant_kind(*self),
    {
        let r = match self {
            QuantKind::Forall => "forall".to_owned(),
            QuantKind::Exists => "exists".to_owned(),
            QuantKind::Choose => "choose".to_owned(),
            QuantKind::ChooseMin => "choose min".to_owned(),
        };
        proof {
            reveal_strlit("forall");
            reveal_strlit("exists");
            reveal_strlit("choose");
            reveal_strlit("choose min");
            assert(r@ =~= spec_quant_kind(*self));
        }
        r
    }
}

/// The positional type parameters `<#0, ..., #n-1>`, or nothing when there
/// are none.
pub open spec fn spec_ty_params(n: nat) -> Seq<char> {
    if n == 0 {
        Seq::empty()
    } else {
        seq!['<'] + spec_ty_param_list(n) + seq!['>']
    }
}

/// `#0, ..., #n-1`.
pub open spec fn spec_ty_param_list(n: nat) -> Seq<char>
    decreases n,
{
    if n == 0 {
        Seq::empty()
    } else if n == 1 {
        seq!['#'] + spec_dec(0)
    } else {
        spec_ty_param_list((n - 1) as nat) + seq![',', ' '] + seq!['#'] + spec_dec((n - 1) as nat)
    }
}

/// Renders `<#0, ..., #n-1>`, or nothing for zero parameters.
fn ty_params_str(n: usize) -> (r: String)
    ensures
        r@ == spec_ty_params(n as nat),
{
    let mut s = String::new();
    if n == 0 {
        proof {
            assert(s@ =~= spec_ty_params(n as nat));
        }
        return s;
    }
    s.append("<");
    let mut i: usize = 0;
    let mut parts = String::new();
    while i < n
        invariant
            i <= n,
            parts@ == spec_ty_param_list(i as nat),
        decreases n - i,
    {
        if i > 0 {
            parts.append(", ");
            proof {
                reveal_strlit(", ");
            }
        }
        parts.append("#");
        let d = dec_str(i as u128);
        parts.append(d.as_str());
        proof {
            reveal_strlit("#");
            assert(parts@ =~= spec_ty_param_list((i + 1) as nat));
        }
        i += 1;
    }
    s.append(parts.as_str());
    s.append(">");
    proof {
        reveal_strlit("<");
        reveal_strlit(">");
        assert(s@ =~= spec_ty_params(n as nat));
    }
    s
}

/// The rendering of a condition kind: its keyword, with positional type
/// parameters for the parameterized invariant forms. Let bindings show
/// their symbol's number.
pub open spec fn spec_cond_kind(k: ConditionKind) -> Seq<char> {
    match k {
        ConditionKind::LetPost(sym) => seq!['l', 'e', 't', '('] + spec_dec(sym.0 as nat) + seq![
            ')',
        ],
        ConditionKind::LetPre(sym) => seq!['l', 'e', 't', ' ', 'o', 'l', 'd', '('] + spec_dec(
            sym.0 as nat,
        ) + seq![')'],
        ConditionKind::Assert => seq!['a', 's', 's', 'e', 'r', 't'],
        ConditionKind::Assume => seq!['a', 's', 's', 'u', 'm', 'e'],
        ConditionKind::Decreases => seq!['d', 'e', 'c', 'r', 'e', 'a', 's', 'e', 's'],
        ConditionKind::AbortsIf => seq!['a', 'b', 'o', 'r', 't', 's', '_', 'i', 'f'],
        ConditionKind::AbortsWith => seq!['a', 'b', 'o', 'r', 't', 's', '_', 'w', 'i', 't', 'h'],
        ConditionKind::SucceedsIf => seq!['s', 'u', 'c', 'c', 'e', 'e', 'd', 's', '_', 'i', 'f'],
        ConditionKind::Modifies => seq!['m', 'o', 'd', 'i', 'f', 'i', 'e', 's'],
        ConditionKind::Emits => seq!['e', 'm', 'i', 't', 's'],
        ConditionKind::Ensures => seq!['e', 'n', 's', 'u', 'r', 'e', 's'],
        ConditionKind::Requires => seq!['r', 'e', 'q', 'u', 'i', 'r', 'e', 's'],
        ConditionKind::StructInvariant => seq!['i', 'n', 'v', 'a', 'r', 'i', 'a', 'n', 't'],
        ConditionKind::FunctionInvariant => seq!['i', 'n', 'v', 'a', 'r', 'i', 'a', 'n', 't'],
        ConditionKind::LoopInvariant => seq!['i', 'n', 'v', 'a', 'r', 'i', 'a', 'n', 't'],
        ConditionKind::GlobalInvariant(ps) => seq!['i', 'n', 'v', 'a', 'r', 'i', 'a', 'n', 't']
            + spec_ty_params(ps@.len()),
        ConditionKind::GlobalInvariantUpdate(ps) => seq![
            'i', 'n', 'v', 'a', 'r', 'i', 'a', 'n', 't',
        ] + spec_ty_params(ps@.len()) + seq![' ', 'u', 'p', 'd', 'a', 't', 'e'],
        ConditionKind::SchemaInvariant => seq!['i', 'n', 'v', 'a', 'r', 'i', 'a', 'n', 't'],
        ConditionKind::Axiom(ps) => seq!['a', 'x', 'i', 'o', 'm'] + spec_ty_params(ps@.len()),
        ConditionKind::Update => seq!['u', 'p', 'd', 'a', 't', 'e'],
    }
}

impl ConditionKind {
    /// Renders this condition kind.
    pub fn render(&self) -> (r: String)
        ensures
            r@ == spec_cond_kind(*self),
    {
        proof {
            reveal_strlit("let(");
            reveal_strlit("let old(");
            reveal_strlit(")");
            reveal_strlit("assert");
            reveal_strlit("assume");
            reveal_strlit("decreases");
            reveal_strlit("aborts_if");
            reveal_strlit("aborts_with");
            reveal_strlit("succeeds_if");
            reveal_strlit("modifies");
            reveal_strlit("emits");
            reveal_strlit("ensures");
            reveal_strlit("requires");
            reveal_strlit("invariant");
            reveal_strlit(" update");
            reveal_strlit("axiom");
            reveal_strlit("update");
        }
        match self {
            ConditionKind::LetPost(sym) => {
                let mut s = "let(".to_owned();
                let d = dec_str(sym.0 as u128);
                s.append(d.as_str());
                s.append(")");
                proof {
                    assert(s@ =~= spec_cond_kind(*self));
                }
                s
            },
            ConditionKind::LetPre(sym) => {
                let mut s = "let old(".to_owned();
                let d = dec_str(sym.0 as u128);
                s.append(d.as_str());
                s.append(")");
                proof {
                    assert(s@ =~= spec_cond_kind(*self));
                }
                s
            },
            ConditionKind::Assert => {
                let s = "assert".to_owned();
                proof {
                    assert(s@ =~= spec_cond_kind(*self));
                }
                s
            },
            ConditionKind::Assume => {
                let s = "assume".to_owned();
                proof {
                    assert(s@ =~= spec_cond_kind(*self));
                }
                s
            },
            ConditionKind::Decreases => {
                let s = "decreases".to_owned();
                proof {
                    assert(s@ =~= spec_cond_kind(*self));
                }
                s
            },
            ConditionKind::AbortsIf => {
                let s = "aborts_if".to_owned();
                proof {
                    assert(s@ =~= spec_cond_kind(*self));
                }
                s
            },
            ConditionKind::AbortsWith => {
                let s = "aborts_with".to_owned();
                proof {
                    assert(s@ =~= spec_cond_kind(*self));
                }
                s
            },
            ConditionKind::SucceedsIf => {
                let s = "succeeds_if".to_owned();
                proof {
                    assert(s@ =~= spec_cond_kind(*self));
                }
                s
            },
            ConditionKind::Modifies => {
                let s = "modifies".to_owned();
                proof {
                    assert(s@ =~= spec_cond_kind(*self));
                }
                s
            },
            ConditionKind::Emits => {
                let s = "emits".to_owned();
                proof {
                    assert(s@ =~= spec_cond_kind(*self));
                }
                s
            },
            ConditionKind::Ensures => {
                let s = "ensures".to_owned();
                proof {
                    assert(s@ =~= spec_cond_kind(*self));
                }
                s
            },
            ConditionKind::Requires => {
                let s = "requires".to_owned();
                proof {
                    assert(s@ =~= spec_cond_kind(*self));
                }
                s
            },
            ConditionKind::StructInvariant
                | ConditionKind::FunctionInvariant
                | ConditionKind::LoopInvariant
                | ConditionKind::SchemaInvariant => {
                let s = "invariant".to_owned();
                proof {
                    assert(s@ =~= spec_cond_kind(*self));
                }
                s
            },
            ConditionKind::GlobalInvariant(ps) => {
                let mut s = "invariant".to_owned();
                let p = ty_params_str(ps.len());
                s.append(p.as_str());
                proof {
                    assert(s@ =~= spec_cond_kind(*self));
                }
                s
            },
            ConditionKind::GlobalInvariantUpdate(ps) => {
                let mut s = "invariant".to_owned();
                let p = ty_params_str(ps.len());
                s.append(p.as_str());
                s.append(" update");
                proof {
                    assert(s@ =~= spec_cond_kind(*self));
                }
                s
            },
            ConditionKind::Axiom(ps) => {
                let mut s = "axiom".to_owned();
                let p = ty_params_str(ps.len());
                s.append(p.as_str());
                proof {
                    assert(s@ =~= spec_cond_kind(*self));
                }
                s
            },
            ConditionKind::Update => {
                let s = "update".to_owned();
                proof {
                    assert(s@ =~= spec_cond_kind(*self));
                }
                s
            },
        }
    }
}


// =========================================================================
// Operations

/// The debug-style name of an operation without a special rendering.
pub open spec fn spec_oper_tag(oper: Operation) -> Seq<char> {
    match oper {
        Operation::Tuple => seq!['T', 'u', 'p', 'l', 'e'],
        Operation::Index => seq!['I', 'n', 'd', 'e', 'x'],
        Operation::Slice => seq!['S', 'l', 'i', 'c', 'e'],
        Operation::Range => seq!['R', 'a', 'n', 'g', 'e'],
        Operation::Add => seq!['A', 'd', 'd'],
        Operation::Sub => seq!['S', 'u', 'b'],
        Operation::Mul => seq!['M', 'u', 'l'],
        Operation::Mod => seq!['M', 'o', 'd'],
        Operation::Div => seq!['D', 'i', 'v'],
        Operation::BitOr => seq!['B', 'i', 't', 'O', 'r'],
        Operation::BitAnd => seq!['B', 'i', 't', 'A', 'n', 'd'],
        Operation::Xor => seq!['X', 'o', 'r'],
        Operation::Shl => seq!['S', 'h', 'l'],
        Operation::Shr => seq!['S', 'h', 'r'],
        Operation::Implies => seq!['I', 'm', 'p', 'l', 'i', 'e', 's'],
        Operation::Iff => seq!['I', 'f', 'f'],
        Operation::And => seq!['A', 'n', 'd'],
        Operation::Or => seq!['O', 'r'],
        Operation::Eq => seq!['E', 'q'],
        Operation::Identical => seq!['I', 'd', 'e', 'n', 't', 'i', 'c', 'a', 'l'],
        Operation::Neq => seq!['N', 'e', 'q'],
        Operation::Lt => seq!['L', 't'],
        Operation::Gt => seq!['G', 't'],
        Operation::Le => seq!['L', 'e'],
        Operation::Ge => seq!['G', 'e'],
        Operation::Not => seq!['N', 'o', 't'],
        Operation::Len => seq!['L', 'e', 'n'],
        Operation::TypeValue => seq!['T', 'y', 'p', 'e', 'V', 'a', 'l', 'u', 'e'],
        Operation::TypeDomain => seq!['T', 'y', 'p', 'e', 'D', 'o', 'm', 'a', 'i', 'n'],
        Operation::ResourceDomain => seq![
            'R', 'e', 's', 'o', 'u', 'r', 'c', 'e', 'D', 'o', 'm', 'a', 'i', 'n',
        ],
        Operation::CanModify => seq!['C', 'a', 'n', 'M', 'o', 'd', 'i', 'f', 'y'],
        Operation::Old => seq!['O', 'l', 'd'],
        Operation::Trace => seq!['T', 'r', 'a', 'c', 'e'],
        Operation::EmptyVec => seq!['E', 'm', 'p', 't', 'y', 'V', 'e', 'c'],
        Operation::SingleVec => seq!['S', 'i', 'n', 'g', 'l', 'e', 'V', 'e', 'c'],
        Operation::UpdateVec => seq!['U', 'p', 'd', 'a', 't', 'e', 'V', 'e', 'c'],
        Operation::ConcatVec => seq!['C', 'o', 'n', 'c', 'a', 't', 'V', 'e', 'c'],
        Operation::IndexOfVec => seq!['I', 'n', 'd', 'e', 'x', 'O', 'f', 'V', 'e', 'c'],
        Operation::ContainsVec => seq!['C', 'o', 'n', 't', 'a', 'i', 'n', 's', 'V', 'e', 'c'],
        Operation::InRangeRange => seq!['I', 'n', 'R', 'a', 'n', 'g', 'e', 'R', 'a', 'n', 'g', 'e'],
        Operation::InRangeVec => seq!['I', 'n', 'R', 'a', 'n', 'g', 'e', 'V', 'e', 'c'],
        Operation::RangeVec => seq!['R', 'a', 'n', 'g', 'e', 'V', 'e', 'c'],
        Operation::MaxU8 => seq!['M', 'a', 'x', 'U', '8'],
        Operation::MaxU64 => seq!['M', 'a', 'x', 'U', '6', '4'],
        Operation::MaxU128 => seq!['M', 'a', 'x', 'U', '1', '2', '8'],
        Operation::AbortFlag => seq!['A', 'b', 'o', 'r', 't', 'F', 'l', 'a', 'g'],
        Operation::AbortCode => seq!['A', 'b', 'o', 'r', 't', 'C', 'o', 'd', 'e'],
        Operation::WellFormed => seq!['W', 'e', 'l', 'l', 'F', 'o', 'r', 'm', 'e', 'd'],
        Operation::BoxValue => seq!['B', 'o', 'x', 'V', 'a', 'l', 'u', 'e'],
        Operation::UnboxValue => seq!['U', 'n', 'b', 'o', 'x', 'V', 'a', 'l', 'u', 'e'],
        Operation::EmptyEventStore => seq![
            'E', 'm', 'p', 't', 'y', 'E', 'v', 'e', 'n', 't', 'S', 't', 'o', 'r', 'e',
        ],
        Operation::ExtendEventStore => seq![
            'E', 'x', 't', 'e', 'n', 'd', 'E', 'v', 'e', 'n', 't', 'S', 't', 'o', 'r', 'e',
        ],
        Operation::EventStoreIncludes => seq![
            'E', 'v', 'e', 'n', 't', 'S', 't', 'o', 'r', 'e', 'I', 'n', 'c', 'l', 'u', 'd', 'e',
            's',
        ],
        Operation::EventStoreIncludedIn => seq![
            'E', 'v', 'e', 'n', 't', 'S', 't', 'o', 'r', 'e', 'I', 'n', 'c', 'l', 'u', 'd', 'e',
            'd', 'I', 'n',
        ],
        Operation::NoOp => seq!['N', 'o', 'O', 'p'],
        _ => Seq::empty(),
    }
}

/// Renders the debug-style name of an operation without a special form.
fn oper_tag_str(oper: &Operation) -> (r: String)
    requires
        !(oper matches Operation::Function(_, _, _)),
        !(oper matches Operation::Global(_)),
        !(oper matches Operation::Exists(_)),
        !(oper matches Operation::Pack(_, _)),
        !(oper matches Operation::Select(_, _, _)),
        !(oper matches Operation::UpdateField(_, _, _)),
        !(oper matches Operation::Result(_)),
    ensures
        r@ == spec_oper_tag(*oper),
{
    let lit: &'static str = match oper {
        Operation::Tuple => "Tuple",
        Operation::Index => "Index",
        Operation::Slice => "Slice",
        Operation::Range => "Range",
        Operation::Add => "Add",
        Operation::Sub => "Sub",
        Operation::Mul => "Mul",
        Operation::Mod => "Mod",
        Operation::Div => "Div",
        Operation::BitOr => "BitOr",
        Operation::BitAnd => "BitAnd",
        Operation::Xor => "Xor",
        Operation::Shl => "Shl",
        Operation::Shr => "Shr",
        Operation::Implies => "Implies",
        Operation::Iff => "Iff",
        Operation::And => "And",
        Operation::Or => "Or",
        Operation::Eq => "Eq",
        Operation::Identical => "Identical",
        Operation::Neq => "Neq",
        Operation::Lt => "Lt",
        Operation::Gt => "Gt",
        Operation::Le => "Le",
        Operation::Ge => "Ge",
        Operation::Not => "Not",
        Operation::Len => "Len",
        Operation::TypeValue => "TypeValue",
        Operation::TypeDomain => "TypeDomain",
        Operation::ResourceDomain => "ResourceDomain",
        Operation::CanModify => "CanModify",
        Operation::Old => "Old",
        Operation::Trace => "Trace",
        Operation::EmptyVec => "EmptyVec",
        Operation::SingleVec => "SingleVec",
        Operation::UpdateVec => "UpdateVec",
        Operation::ConcatVec => "ConcatVec",
        Operation::IndexOfVec => "IndexOfVec",
        Operation::ContainsVec => "ContainsVec",
        Operation::InRangeRange => "InRangeRange",
        Operation::InRangeVec => "InRangeVec",
        Operation::RangeVec => "RangeVec",
        Operation::MaxU8 => "MaxU8",
        Operation::MaxU64 => "MaxU64",
        Operation::MaxU128 => "MaxU128",
        Operation::AbortFlag => "AbortFlag",
        Operation::AbortCode => "AbortCode",
        Operation::WellFormed => "WellFormed",
        Operation::BoxValue => "BoxValue",
        Operation::UnboxValue => "UnboxValue",
        Operation::EmptyEventStore => "EmptyEventStore",
        Operation::ExtendEventStore => "ExtendEventStore",
        Operation::EventStoreIncludes => "EventStoreIncludes",
        Operation::EventStoreIncludedIn => "EventStoreIncludedIn",
        _ => "NoOp",
    };
    proof {
        reveal_strlit("Tuple");
        reveal_strlit("Index");
        reveal_strlit("Slice");
        reveal_strlit("Range");
        reveal_strlit("Add");
        reveal_strlit("Sub");
        reveal_strlit("Mul");
        reveal_strlit("Mod");
        reveal_strlit("Div");
        reveal_strlit("BitOr");
        reveal_strlit("BitAnd");
        reveal_strlit("Xor");
        reveal_strlit("Shl");
        reveal_strlit("Shr");
        reveal_strlit("Implies");
        reveal_strlit("Iff");
        reveal_strlit("And");
        reveal_strlit("Or");
        reveal_strlit("Eq");
        reveal_strlit("Identical");
        reveal_strlit("Neq");
        reveal_strlit("Lt");
        reveal_strlit("Gt");
        reveal_strlit("Le");
        reveal_strlit("Ge");
        reveal_strlit("Not");
        reveal_strlit("Len");
        reveal_strlit("TypeValue");
        reveal_strlit("TypeDomain");
        reveal_strlit("ResourceDomain");
        reveal_strlit("CanModify");
        reveal_strlit("Old");
        reveal_strlit("Trace");
        reveal_strlit("EmptyVec");
        reveal_strlit("SingleVec");
        reveal_strlit("UpdateVec");
        reveal_strlit("ConcatVec");
        reveal_strlit("IndexOfVec");
        reveal_strlit("ContainsVec");
        reveal_strlit("InRangeRange");
        reveal_strlit("InRangeVec");
        reveal_strlit("RangeVec");
        reveal_strlit("MaxU8");
        reveal_strlit("MaxU64");
        reveal_strlit("MaxU128");
        reveal_strlit("AbortFlag");
        reveal_strlit("AbortCode");
        reveal_strlit("WellFormed");
        reveal_strlit("BoxValue");
        reveal_strlit("UnboxValue");
        reveal_strlit("EmptyEventStore");
        reveal_strlit("ExtendEventStore");
        reveal_strlit("EventStoreIncludes");
        reveal_strlit("EventStoreIncludedIn");
        reveal_strlit("NoOp");
        assert(lit@ =~= spec_oper_tag(*oper));
    }
    lit.to_owned()
}

/// The rendering of a specification function's qualified name.
pub open spec fn spec_fun_name(env: GlobalEnv, mid: ModuleId, fid: SpecFunId) -> Seq<char> {
    sym_chars(env.symbol_pool, env.modules@[mid.0 as int].name.1) + seq![':', ':'] + sym_chars(
        env.symbol_pool,
        env.modules@[mid.0 as int].spec_funs@[fid.0 as int].name,
    )
}

/// The rendering of a struct's qualified name.
pub open spec fn spec_struct_name(env: GlobalEnv, mid: ModuleId, sid: StructId) -> Seq<char> {
    sym_chars(env.symbol_pool, env.modules@[mid.0 as int].name.1) + seq![':', ':'] + sym_chars(
        env.symbol_pool,
        env.modules@[mid.0 as int].structs@[sid.0 as int].name,
    )
}

/// The rendering of a field's qualified name.
pub open spec fn spec_field_name(env: GlobalEnv, mid: ModuleId, sid: StructId, fid: FieldId) -> Seq<
    char,
> {
    spec_struct_name(env, mid, sid) + seq!['.'] + sym_chars(
        env.symbol_pool,
        env.modules@[mid.0 as int].structs@[sid.0 as int].field_names@[fid.0 as int],
    )
}

/// A comma-separated label list.
pub open spec fn spec_label_list(ls: Seq<MemoryLabel>) -> Seq<char>
    decreases ls,
{
    if ls.len() == 0 {
        Seq::empty()
    } else if ls.len() == 1 {
        spec_label(ls[0])
    } else {
        spec_label_list(ls.drop_last()) + seq![',', ' '] + spec_label(ls.last())
    }
}

/// What an operation rendering reads: the names it shows and, through its
/// node, the instantiation types.
pub open spec fn wf_oper_names(env: GlobalEnv, oper: Operation, node_id: NodeId) -> bool {
    &&& env.has_node(node_id)
    &&& wf_type_names_list(env, env.spec_node_inst(node_id))
    &&& match oper {
        Operation::Function(m, f, _) => env.has_spec_fun(m, f) && sym_in_pool(
            env.symbol_pool,
            env.modules@[m.0 as int].name.1,
        ) && sym_in_pool(env.symbol_pool, env.modules@[m.0 as int].spec_funs@[f.0 as int].name),
        Operation::Pack(m, s) => env.has_struct(m, s) && sym_in_pool(
            env.symbol_pool,
            env.modules@[m.0 as int].name.1,
        ) && sym_in_pool(env.symbol_pool, env.modules@[m.0 as int].structs@[s.0 as int].name),
        Operation::Select(m, s, f) | Operation::UpdateField(m, s, f) => env.has_struct(m, s)
            && sym_in_pool(env.symbol_pool, env.modules@[m.0 as int].name.1) && sym_in_pool(
            env.symbol_pool,
            env.modules@[m.0 as int].structs@[s.0 as int].name,
        ) && f.0 < env.modules@[m.0 as int].structs@[s.0 as int].field_names@.len() && sym_in_pool(
            env.symbol_pool,
            env.modules@[m.0 as int].structs@[s.0 as int].field_names@[f.0 as int],
        ),
        _ => true,
    }
}

/// The rendering of an operation: its head form, then the node's type
/// instantiation when one is recorded.
pub open spec fn spec_oper(env: GlobalEnv, oper: Operation, node_id: NodeId) -> Seq<char> {
    let main = match oper {
        Operation::Function(m, f, labels) => spec_fun_name(env, m, f) + match labels {
            Option::Some(ls) => seq!['['] + spec_label_list(ls@) + seq![']'],
            Option::None => Seq::empty(),
        },
        Operation::Global(label) => seq!['g', 'l', 'o', 'b', 'a', 'l'] + match label {
            Option::Some(l) => seq!['['] + spec_label(l) + seq![']'],
            Option::None => Seq::empty(),
        },
        Operation::Exists(label) => seq!['e', 'x', 'i', 's', 't', 's'] + match label {
            Option::Some(l) => seq!['['] + spec_label(l) + seq![']'],
            Option::None => Seq::empty(),
        },
        Operation::Pack(m, s) => seq!['p', 'a', 'c', 'k', ' '] + spec_struct_name(env, m, s),
        Operation::Select(m, s, f) => seq!['s', 'e', 'l', 'e', 'c', 't', ' '] + spec_field_name(
            env,
            m,
            s,
            f,
        ),
        Operation::UpdateField(m, s, f) => seq!['u', 'p', 'd', 'a', 't', 'e', ' ']
            + spec_field_name(env, m, s, f),
        Operation::Result(i) => seq!['r', 'e', 's', 'u', 'l', 't'] + spec_dec(i as nat),
        _ => spec_oper_tag(oper),
    };
    let inst = env.spec_node_inst(node_id);
    main + if inst.len() > 0 {
        seq!['<'] + spec_type_list(env, inst) + seq!['>']
    } else {
        Seq::empty()
    }
}

/// An operation prepared for rendering.
pub struct OperationDisplay<'a> {
    pub env: &'a GlobalEnv,
    pub node_id: NodeId,
    pub oper: &'a Operation,
}

impl Operation {
    /// Prepares this operation for rendering at a node.
    pub fn display<'a>(&'a self, env: &'a GlobalEnv, node_id: NodeId) -> (r: OperationDisplay<'a>)
        ensures
            r.env == env,
            r.node_id == node_id,
            r.oper == self,
    {
        OperationDisplay { env, oper: self, node_id }
    }
}

impl<'a> OperationDisplay<'a> {
    /// The qualified name of a specification function.
    pub fn fun_str(&self, mid: &ModuleId, fid: &SpecFunId) -> (r: String)
        requires
            self.env.wf(),
            self.env.has_spec_fun(*mid, *fid),
            sym_in_pool(self.env.symbol_pool, self.env.modules@[mid.0 as int].name.1),
            sym_in_pool(
                self.env.symbol_pool,
                self.env.modules@[mid.0 as int].spec_funs@[fid.0 as int].name,
            ),
        ensures
            r@ == spec_fun_name(*self.env, *mid, *fid),
    {
        let mut s = String::new();
        let mname = self.env.symbol_pool.string(self.env.modules[mid.0].name.1);
        s.append(mname.as_str());
        s.append("::");
        let fname = self.env.symbol_pool.string(self.env.modules[mid.0].spec_funs[fid.0].name);
        s.append(fname.as_str());
        proof {
            reveal_strlit("::");
            assert(s@ =~= spec_fun_name(*self.env, *mid, *fid));
        }
        s
    }

    /// The qualified name of a struct.
    pub fn struct_str(&self, mid: &ModuleId, sid: &StructId) -> (r: String)
        requires
            self.env.wf(),
            self.env.has_struct(*mid, *sid),
            sym_in_pool(self.env.symbol_pool, self.env.modules@[mid.0 as int].name.1),
            sym_in_pool(
                self.env.symbol_pool,
                self.env.modules@[mid.0 as int].structs@[sid.0 as int].name,
            ),
        ensures
            r@ == spec_struct_name(*self.env, *mid, *sid),
    {
        let mut s = String::new();
        let mname = self.env.symbol_pool.string(self.env.modules[mid.0].name.1);
        s.append(mname.as_str());
        s.append("::");
        let sname = self.env.symbol_pool.string(self.env.modules[mid.0].structs[sid.0].name);
        s.append(sname.as_str());
        proof {
            reveal_strlit("::");
            assert(s@ =~= spec_struct_name(*self.env, *mid, *sid));
        }
        s
    }

    /// The qualified name of a field.
    pub fn field_str(&self, mid: &ModuleId, sid: &StructId, fid: &FieldId) -> (r: String)
        requires
            self.env.wf(),
            self.env.has_struct(*mid, *sid),
            sym_in_pool(self.env.symbol_pool, self.env.modules@[mid.0 as int].name.1),
            sym_in_pool(
                self.env.symbol_pool,
                self.env.modules@[mid.0 as int].structs@[sid.0 as int].name,
            ),
            fid.0 < self.env.modules@[mid.0 as int].structs@[sid.0 as int].field_names@.len(),
            sym_in_pool(
                self.env.symbol_pool,
                self.env.modules@[mid.0 as int].structs@[sid.0 as int].field_names@[fid.0 as int],
            ),
        ensures
            r@ == spec_field_name(*self.env, *mid, *sid, *fid),
    {
        let mut s = self.struct_str(mid, sid);
        s.append(".");
        let fname = self.env.symbol_pool.string(
            self.env.modules[mid.0].structs[sid.0].field_names[fid.0],
        );
        s.append(fname.as_str());
        proof {
            reveal_strlit(".");
            assert(s@ =~= spec_field_name(*self.env, *mid, *sid, *fid));
        }
        s
    }

    /// Renders the operation.
    pub fn render(&self) -> (r: String)
        requires
            self.env.wf(),
            wf_oper_names(*self.env, *self.oper, self.node_id),
        ensures
            r@ == spec_oper(*self.env, *self.oper, self.node_id),
    {
        let mut s: String = match self.oper {
            Operation::Function(m, f, labels) => {
                let mut s = self.fun_str(m, f);
                match labels {
                    Option::Some(ls) => {
                        s.append("[");
                        let ghost lsv = ls@;
                        let mut parts = String::new();
                        let mut i: usize = 0;
                        while i < ls.len()
                            invariant
                                i <= lsv.len(),
                                ls@ == lsv,
                                parts@ == spec_label_list(lsv.subrange(0, i as int)),
                            decreases lsv.len() - i,
                        {
                            proof {
                                assert(lsv.subrange(0, i + 1).drop_last() =~= lsv.subrange(
                                    0,
                                    i as int,
                                ));
                                assert(lsv.subrange(0, i + 1).last() == lsv[i as int]);
                            }
                            if i > 0 {
                                parts.append(", ");
                                proof {
                                    reveal_strlit(", ");
                                }
                            }
                            let l = label_str(ls[i]);
                            parts.append(l.as_str());
                            proof {
                                assert(parts@ =~= spec_label_list(lsv.subrange(0, i + 1)));
                            }
                            i += 1;
                        }
                        proof {
                            assert(lsv.subrange(0, lsv.len() as int) =~= lsv);
                        }
                        s.append(parts.as_str());
                        s.append("]");
                        proof {
                            reveal_strlit("[");
                            reveal_strlit("]");
                        }
                    },
                    Option::None => {},
                }
                s
            },
            Operation::Global(label) => {
                let mut s = "global".to_owned();
                proof {
                    reveal_strlit("global");
                }
                match label {
                    Option::Some(l) => {
                        s.append("[");
                        let ls = label_str(*l);
                        s.append(ls.as_str());
                        s.append("]");
                        proof {
                            reveal_strlit("[");
                            reveal_strlit("]");
                        }
                    },
                    Option::None => {},
                }
                s
            },
            Operation::Exists(label) => {
                let mut s = "exists".to_owned();
                proof {
                    reveal_strlit("exists");
                }
                match label {
                    Option::Some(l) => {
                        s.append("[");
                        let ls = label_str(*l);
                        s.append(ls.as_str());
                        s.append("]");
                        proof {
                            reveal_strlit("[");
                            reveal_strlit("]");
                        }
                    },
                    Option::None => {},
                }
                s
            },
            Operation::Pack(m, sid) => {
                let mut s = "pack ".to_owned();
                proof {
                    reveal_strlit("pack ");
                }
                let n = self.struct_str(m, sid);
                s.append(n.as_str());
                s
            },
            Operation::Select(m, sid, f) => {
                let mut s = "select ".to_owned();
                proof {
                    reveal_strlit("select ");
                }
                let n = self.field_str(m, sid, f);
                s.append(n.as_str());
                s
            },
            Operation::UpdateField(m, sid, f) => {
                let mut s = "update ".to_owned();
                proof {
                    reveal_strlit("update ");
                }
                let n = self.field_str(m, sid, f);
                s.append(n.as_str());
                s
            },
            Operation::Result(i) => {
                let mut s = "result".to_owned();
                proof {
                    reveal_strlit("result");
                }
                let d = dec_str(*i as u128);
                s.append(d.as_str());
                s
            },
            _ => oper_tag_str(self.oper),
        };
        let inst_opt = self.env.get_node_instantiation_opt(self.node_id);
        match inst_opt {
            Option::Some(ts) => {
                if ts.len() > 0 {
                    proof {
                        crate::ty::lemma_view_types_len(ts@);
                    }
                    s.append("<");
                    let ghost tsv = self.env.spec_node_inst(self.node_id);
                    let mut parts = String::new();
                    let mut i: usize = 0;
                    while i < ts.len()
                        invariant
                            i <= ts@.len(),
                            tsv == crate::ty::view_types(ts@),
                            tsv.len() == ts@.len(),
                            self.env.wf(),
                            wf_type_names_list(*self.env, tsv),
                            parts@ == spec_type_list(*self.env, tsv.subrange(0, i as int)),
                        decreases ts@.len() - i,
                    {
                        proof {
                            crate::ty::lemma_view_types_index(ts@, i as int);
                            assert(tsv.subrange(0, i + 1).drop_last() =~= tsv.subrange(
                                0,
                                i as int,
                            ));
                            assert(tsv.subrange(0, i + 1).last() == tsv[i as int]);
                            lemma_wf_type_names_elem(*self.env, tsv, i as int);
                        }
                        if i > 0 {
                            parts.append(", ");
                            proof {
                                reveal_strlit(", ");
                            }
                        }
                        let p = self.env.render_type(&ts[i]);
                        parts.append(p.as_str());
                        proof {
                            assert(parts@ =~= spec_type_list(*self.env, tsv.subrange(0, i + 1)));
                        }
                        i += 1;
                    }
                    proof {
                        assert(tsv.subrange(0, tsv.len() as int) =~= tsv);
                    }
                    s.append(parts.as_str());
                    s.append(">");
                    proof {
                        reveal_strlit("<");
                        reveal_strlit(">");
                    }
                }
            },
            Option::None => {},
        }
        proof {
            assert(s@ =~= spec_oper(*self.env, *self.oper, self.node_id));
        }
        s
    }
}


// =========================================================================
// Expressions

/// What an expression rendering reads from one node: local-variable and
/// binder names in the pool, and operation names.
pub open spec fn entry_names_ok(env: GlobalEnv, d: ExpData) -> bool {
    match d {
        ExpData::LocalVar(_, s) => sym_in_pool(env.symbol_pool, s),
        ExpData::Call(id, oper, _) => wf_oper_names(env, oper, id),
        ExpData::Lambda(_, decls, _) => forall|k: int|
            0 <= k < decls@.len() ==> sym_in_pool(env.symbol_pool, (#[trigger] decls@[k]).name),
        ExpData::Block(_, decls, _) => forall|k: int|
            0 <= k < decls@.len() ==> sym_in_pool(env.symbol_pool, (#[trigger] decls@[k]).name),
        ExpData::Quant(_, _, ranges, _, _, _) => forall|k: int|
            0 <= k < ranges@.len() ==> sym_in_pool(env.symbol_pool, (#[trigger] ranges@[k]).0.name),
        _ => true,
    }
}

/// Every arena entry has the names its rendering reads.
pub open spec fn wf_names(env: GlobalEnv) -> bool {
    forall|i: int|
        0 <= i < env.exp_arena.nodes@.len() ==> entry_names_ok(env, #[trigger] env.exp_arena.nodes@[i])
}

/// The rendering of the tree at `e`.
pub open spec fn spec_exp(env: GlobalEnv, e: Exp) -> Seq<char>
    decreases e.0, 1int, 0int, 0int,
{
    let nodes = env.exp_arena.nodes@;
    if e.0 < nodes.len() && children_bounded(nodes[e.0 as int], e.0 as int) {
        match nodes[e.0 as int] {
            ExpData::Invalid(_) => seq!['*', 'i', 'n', 'v', 'a', 'l', 'i', 'd', '*'],
            ExpData::Value(_, v) => spec_value(v),
            ExpData::LocalVar(_, s) => sym_chars(env.symbol_pool, s),
            ExpData::Temporary(_, idx) => seq!['$', 't'] + spec_dec(idx as nat),
            ExpData::Call(id, oper, args) => spec_oper(env, oper, id) + seq!['('] + spec_exp_list(
                env,
                args@,
                e.0 as int,
            ) + seq![')'],
            ExpData::Invoke(_, target, args) => seq!['('] + spec_exp(env, target) + seq![')', '(']
                + spec_exp_list(env, args@, e.0 as int) + seq![')'],
            ExpData::Lambda(_, decls, body) => seq!['|'] + spec_decls(env, decls@, e.0 as int)
                + seq!['|', ' '] + spec_exp(env, body),
            ExpData::Quant(_, kind, ranges, triggers, cond, body) => spec_quant_kind(kind) + seq![
                ' ',
            ] + spec_qdecls(env, ranges@, e.0 as int) + spec_trigger_groups(
                env,
                triggers_view(triggers@),
                e.0 as int,
            ) + (match cond {
                Option::Some(c) => seq![' ', 'w', 'h', 'e', 'r', 'e', ' '] + spec_exp(env, c),
                Option::None => Seq::empty(),
            }) + seq![':', ' '] + spec_exp(env, body),
            ExpData::Block(_, decls, body) => seq!['{', 'l', 'e', 't', ' '] + spec_decls(
                env,
                decls@,
                e.0 as int,
            ) + seq![';', ' '] + spec_exp(env, body) + seq!['}'],
            ExpData::IfElse(_, c, t, el) => seq!['(', 'i', 'f', ' '] + spec_exp(env, c) + seq![
                ' ', '{',
            ] + spec_exp(env, t) + seq!['}', ' ', 'e', 'l', 's', 'e', ' ', '{'] + spec_exp(env, el)
                + seq!['}', ')'],
        }
    } else {
        Seq::empty()
    }
}

/// A comma-separated expression list, all below `bound`.
pub open spec fn spec_exp_list(env: GlobalEnv, es: Seq<Exp>, bound: int) -> Seq<char>
    decreases bound, 0int, 0int, es.len(),
{
    if es.len() == 0 {
        Seq::empty()
    } else if !(es[0].0 < bound) {
        Seq::empty()
    } else if es.len() == 1 {
        spec_exp(env, es[0])
    } else {
        spec_exp_list(env, es.drop_last(), bound) + seq![',', ' '] + (if es.last().0 < bound {
            spec_exp(env, es.last())
        } else {
            Seq::empty()
        })
    }
}

/// A comma-separated binder list: each name, with its binding when one is
/// given.
pub open spec fn spec_decls(env: GlobalEnv, ds: Seq<LocalVarDecl>, bound: int) -> Seq<char>
    decreases bound, 0int, 0int, ds.len(),
{
    if ds.len() == 0 {
        Seq::empty()
    } else if ds.len() == 1 {
        spec_decl_one(env, ds[0], bound)
    } else {
        spec_decls(env, ds.drop_last(), bound) + seq![',', ' '] + spec_decl_one(
            env,
            ds.last(),
            bound,
        )
    }
}

/// One binder: its name, then ` = binding` when a binding is given.
pub open spec fn spec_decl_one(env: GlobalEnv, d: LocalVarDecl, bound: int) -> Seq<char>
    decreases bound, 0int, 0int, 0int,
{
    sym_chars(env.symbol_pool, d.name) + match d.binding {
        Option::Some(b) => if b.0 < bound {
            seq![' ', '=', ' '] + spec_exp(env, b)
        } else {
            Seq::empty()
        },
        Option::None => Seq::empty(),
    }
}

/// A comma-separated quantifier range list: each binder name with its
/// domain.
pub open spec fn spec_qdecls(env: GlobalEnv, rs: Seq<(LocalVarDecl, Exp)>, bound: int) -> Seq<char>
    decreases bound, 0int, 0int, rs.len(),
{
    if rs.len() == 0 {
        Seq::empty()
    } else if rs.len() == 1 {
        spec_qdecl_one(env, rs[0], bound)
    } else {
        spec_qdecls(env, rs.drop_last(), bound) + seq![',', ' '] + spec_qdecl_one(
            env,
            rs.last(),
            bound,
        )
    }
}

/// One quantifier range: `name: domain`.
pub open spec fn spec_qdecl_one(env: GlobalEnv, r: (LocalVarDecl, Exp), bound: int) -> Seq<char>
    decreases bound, 0int, 0int, 0int,
{
    sym_chars(env.symbol_pool, r.0.name) + seq![':', ' '] + (if r.1.0 < bound {
        spec_exp(env, r.1)
    } else {
        Seq::empty()
    })
}

/// The trigger groups, each in braces, concatenated.
pub open spec fn spec_trigger_groups(env: GlobalEnv, tv: Seq<Seq<Exp>>, bound: int) -> Seq<char>
    decreases bound, 0int, 1int, tv.len(),
{
    if tv.len() == 0 {
        Seq::empty()
    } else {
        spec_trigger_groups(env, tv.drop_last(), bound) + seq!['{'] + spec_exp_list(
            env,
            tv.last(),
            bound,
        ) + seq!['}']
    }
}

/// An expression prepared for rendering.
pub struct ExpDisplay<'a> {
    pub env: &'a GlobalEnv,
    pub exp: Exp,
}

impl Exp {
    /// Prepares this expression for rendering.
    pub fn display<'a>(self, env: &'a GlobalEnv) -> (r: ExpDisplay<'a>)
        ensures
            r.env == env,
            r.exp == self,
    {
        ExpDisplay { env, exp: self }
    }
}

impl<'a> ExpDisplay<'a> {
    /// Renders the expression.
    pub fn render(&self) -> (r: String)
        requires
            self.env.wf(),
            wf_names(*self.env),
            self.env.exp_arena.has(self.exp),
        ensures
            r@ == spec_exp(*self.env, self.exp),
    {
        render_exp(self.env, self.exp)
    }
}

/// Renders the tree at `e`.
fn render_exp(env: &GlobalEnv, e: Exp) -> (r: String)
    requires
        env.wf(),
        wf_names(*env),
        env.exp_arena.has(e),
    ensures
        r@ == spec_exp(*env, e),
    decreases e.0, 1int, 0int, 0int,
{
    let d = env.exp_arena.data_of(e);
    proof {
        lemma_children_bounded(*d, e.0 as int);
        assert(entry_names_ok(*env, *d));
        assert(env.wf_entry(*d));
    }
    match d {
        ExpData::Invalid(_) => {
            let r = "*invalid*".to_owned();
            proof {
                reveal_strlit("*invalid*");
                assert(r@ =~= spec_exp(*env, e));
            }
            r
        },
        ExpData::Value(_, v) => {
            let r = v.render();
            proof {
                assert(r@ =~= spec_exp(*env, e));
            }
            r
        },
        ExpData::LocalVar(_, sym) => {
            let nm = env.symbol_pool.string(*sym);
            let r = nm.as_str().to_owned();
            proof {
                assert(r@ =~= spec_exp(*env, e));
            }
            r
        },
        ExpData::Temporary(_, idx) => {
            let mut s = "$t".to_owned();
            proof {
                reveal_strlit("$t");
            }
            let dstr = dec_str(*idx as u128);
            s.append(dstr.as_str());
            proof {
                assert(s@ =~= spec_exp(*env, e));
            }
            s
        },
        ExpData::Call(id, oper, args) => {
            let od = OperationDisplay { env, oper, node_id: *id };
            let mut s = od.render();
            s.append("(");
            let lst = render_exp_list(env, args, e);
            s.append(lst.as_str());
            s.append(")");
            proof {
                reveal_strlit("(");
                reveal_strlit(")");
                assert(s@ =~= spec_exp(*env, e));
            }
            s
        },
        ExpData::Invoke(_, target, args) => {
            let mut s = "(".to_owned();
            let t = render_exp(env, *target);
            s.append(t.as_str());
            s.append(")(");
            let lst = render_exp_list(env, args, e);
            s.append(lst.as_str());
            s.append(")");
            proof {
                reveal_strlit("(");
                reveal_strlit(")(");
                reveal_strlit(")");
                assert(s@ =~= spec_exp(*env, e));
            }
            s
        },
        ExpData::Lambda(_, decls, body) => {
            let mut s = "|".to_owned();
            let dl = render_decls(env, decls, e);
            s.append(dl.as_str());
            s.append("| ");
            let b = render_exp(env, *body);
            s.append(b.as_str());
            proof {
                reveal_strlit("|");
                reveal_strlit("| ");
                assert(s@ =~= spec_exp(*env, e));
            }
            s
        },
        ExpData::Quant(_, kind, ranges, triggers, cond, body) => {
            let mut s = kind.render();
            s.append(" ");
            let qd = render_qdecls(env, ranges, e);
            s.append(qd.as_str());
            let tg = render_triggers(env, triggers, e);
            s.append(tg.as_str());
            match cond {
                Option::Some(c) => {
                    s.append(" where ");
                    let cs = render_exp(env, *c);
                    s.append(cs.as_str());
                    proof {
                        reveal_strlit(" where ");
                    }
                },
                Option::None => {},
            }
            s.append(": ");
            let b = render_exp(env, *body);
            s.append(b.as_str());
            proof {
                reveal_strlit(" ");
                reveal_strlit(": ");
                assert(s@ =~= spec_exp(*env, e));
            }
            s
        },
        ExpData::Block(_, decls, body) => {
            let mut s = "{let ".to_owned();
            let dl = render_decls(env, decls, e);
            s.append(dl.as_str());
            s.append("; ");
            let b = render_exp(env, *body);
            s.append(b.as_str());
            s.append("}");
            proof {
                reveal_strlit("{let ");
                reveal_strlit("; ");
                reveal_strlit("}");
                assert(s@ =~= spec_exp(*env, e));
            }
            s
        },
        ExpData::IfElse(_, c, t, el) => {
            let mut s = "(if ".to_owned();
            let cs = render_exp(env, *c);
            s.append(cs.as_str());
            s.append(" {");
            let tsr = render_exp(env, *t);
            s.append(tsr.as_str());
            s.append("} else {");
            let es = render_exp(env, *el);
            s.append(es.as_str());
            s.append("})");
            proof {
                reveal_strlit("(if ");
                reveal_strlit(" {");
                reveal_strlit("} else {");
                reveal_strlit("})");
                assert(s@ =~= spec_exp(*env, e));
            }
            s
        },
    }
}

/// Renders a comma-separated expression list, all below `parent`.
fn render_exp_list(env: &GlobalEnv, es: &Vec<Exp>, parent: Exp) -> (r: String)
    requires
        env.wf(),
        wf_names(*env),
        env.exp_arena.has(parent),
        seq_bounded(es@, parent.0 as int),
    ensures
        r@ == spec_exp_list(*env, es@, parent.0 as int),
    decreases parent.0, 0int, 0int, 0int,
{
    let mut s = String::new();
    let ghost esv = es@;
    proof {
        assert(esv.subrange(0, 0) =~= Seq::<Exp>::empty());
    }
    let mut i: usize = 0;
    while i < es.len()
        invariant
            env.wf(),
            wf_names(*env),
            env.exp_arena.has(parent),
            seq_bounded(esv, parent.0 as int),
            es@ == esv,
            i <= esv.len(),
            s@ == spec_exp_list(*env, esv.subrange(0, i as int), parent.0 as int),
        decreases esv.len() - i,
    {
        proof {
            assert(esv.subrange(0, i + 1).drop_last() =~= esv.subrange(0, i as int));
            assert(esv.subrange(0, i + 1).last() == esv[i as int]);
            assert(esv.subrange(0, i + 1)[0] == esv[0]);
        }
        if i > 0 {
            s.append(", ");
            proof {
                reveal_strlit(", ");
            }
        }
        let p = render_exp(env, es[i]);
        s.append(p.as_str());
        proof {
            assert(s@ =~= spec_exp_list(*env, esv.subrange(0, i + 1), parent.0 as int));
        }
        i += 1;
    }
    proof {
        assert(esv.subrange(0, esv.len() as int) =~= esv);
    }
    s
}

/// Renders a comma-separated binder list.
fn render_decls(env: &GlobalEnv, ds: &Vec<LocalVarDecl>, parent: Exp) -> (r: String)
    requires
        env.wf(),
        wf_names(*env),
        env.exp_arena.has(parent),
        crate::ast::decls_bounded(ds@, parent.0 as int),
        forall|k: int|
            0 <= k < ds@.len() ==> sym_in_pool(env.symbol_pool, (#[trigger] ds@[k]).name),
    ensures
        r@ == spec_decls(*env, ds@, parent.0 as int),
    decreases parent.0, 0int, 0int, 0int,
{
    let mut s = String::new();
    let ghost dsv = ds@;
    proof {
        assert(dsv.subrange(0, 0) =~= Seq::<LocalVarDecl>::empty());
    }
    let mut i: usize = 0;
    while i < ds.len()
        invariant
            env.wf(),
            wf_names(*env),
            env.exp_arena.has(parent),
            crate::ast::decls_bounded(dsv, parent.0 as int),
            forall|k: int|
                0 <= k < dsv.len() ==> sym_in_pool(env.symbol_pool, (#[trigger] dsv[k]).name),
            ds@ == dsv,
            i <= dsv.len(),
            s@ == spec_decls(*env, dsv.subrange(0, i as int), parent.0 as int),
        decreases dsv.len() - i,
    {
        proof {
            assert(dsv.subrange(0, i + 1).drop_last() =~= dsv.subrange(0, i as int));
            assert(dsv.subrange(0, i + 1).last() == dsv[i as int]);
            assert(dsv.subrange(0, i + 1)[0] == dsv[0]);
        }
        if i > 0 {
            s.append(", ");
            proof {
                reveal_strlit(", ");
            }
        }
        let dcl = &ds[i];
        proof {
            assert(dsv[i as int] == *dcl);
        }
        let nm = env.symbol_pool.string(dcl.name);
        s.append(nm.as_str());
        match &dcl.binding {
            Option::Some(b) => {
                proof {
                    assert(dsv[i as int].binding == Option::Some(*b));
                    assert((*b).0 < parent.0);
                }
                s.append(" = ");
                let bs = render_exp(env, *b);
                s.append(bs.as_str());
                proof {
                    reveal_strlit(" = ");
                }
            },
            Option::None => {},
        }
        proof {
            match dsv[i as int].binding {
                Option::Some(b) => {
                    assert(spec_decl_one(*env, dsv[i as int], parent.0 as int) =~= sym_chars(
                        env.symbol_pool,
                        dsv[i as int].name,
                    ) + seq![' ', '=', ' '] + spec_exp(*env, b));
                },
                Option::None => {
                    assert(spec_decl_one(*env, dsv[i as int], parent.0 as int) =~= sym_chars(
                        env.symbol_pool,
                        dsv[i as int].name,
                    ));
                },
            }
            assert(s@ =~= spec_decls(*env, dsv.subrange(0, i + 1), parent.0 as int));
        }
        i += 1;
    }
    proof {
        assert(dsv.subrange(0, dsv.len() as int) =~= dsv);
    }
    s
}

/// Renders a comma-separated quantifier range list.
fn render_qdecls(env: &GlobalEnv, rs: &Vec<(LocalVarDecl, Exp)>, parent: Exp) -> (r: String)
    requires
        env.wf(),
        wf_names(*env),
        env.exp_arena.has(parent),
        forall|k: int|
            0 <= k < rs@.len() ==> (#[trigger] rs@[k]).1.0 < parent.0,
        forall|k: int|
            0 <= k < rs@.len() ==> sym_in_pool(env.symbol_pool, (#[trigger] rs@[k]).0.name),
    ensures
        r@ == spec_qdecls(*env, rs@, parent.0 as int),
    decreases parent.0, 0int, 0int, 0int,
{
    let mut s = String::new();
    let ghost rsv = rs@;
    proof {
        assert(rsv.subrange(0, 0) =~= Seq::<(LocalVarDecl, Exp)>::empty());
    }
    let mut i: usize = 0;
    while i < rs.len()
        invariant
            env.wf(),
            wf_names(*env),
            env.exp_arena.has(parent),
            forall|k: int| 0 <= k < rsv.len() ==> (#[trigger] rsv[k]).1.0 < parent.0,
            forall|k: int|
                0 <= k < rsv.len() ==> sym_in_pool(env.symbol_pool, (#[trigger] rsv[k]).0.name),
            rs@ == rsv,
            i <= rsv.len(),
            s@ == spec_qdecls(*env, rsv.subrange(0, i as int), parent.0 as int),
        decreases rsv.len() - i,
    {
        proof {
            assert(rsv.subrange(0, i + 1).drop_last() =~= rsv.subrange(0, i as int));
            assert(rsv.subrange(0, i + 1).last() == rsv[i as int]);
            assert(rsv.subrange(0, i + 1)[0] == rsv[0]);
        }
        if i > 0 {
            s.append(", ");
            proof {
                reveal_strlit(", ");
            }
        }
        let (dcl, dom) = &rs[i];
        proof {
            assert(rsv[i as int] == (*dcl, *dom));
            assert((*dom).0 < parent.0);
        }
        let nm = env.symbol_pool.string(dcl.name);
        s.append(nm.as_str());
        s.append(": ");
        let dstr = render_exp(env, *dom);
        s.append(dstr.as_str());
        proof {
            reveal_strlit(": ");
            assert(spec_qdecl_one(*env, rsv[i as int], parent.0 as int) =~= sym_chars(
                env.symbol_pool,
                rsv[i as int].0.name,
            ) + seq![':', ' '] + spec_exp(*env, rsv[i as int].1));
            assert(s@ =~= spec_qdecls(*env, rsv.subrange(0, i + 1), parent.0 as int));
        }
        i += 1;
    }
    proof {
        assert(rsv.subrange(0, rsv.len() as int) =~= rsv);
    }
    s
}

/// Renders the trigger groups, each in braces.
fn render_triggers(env: &GlobalEnv, ts: &Vec<Vec<Exp>>, parent: Exp) -> (r: String)
    requires
        env.wf(),
        wf_names(*env),
        env.exp_arena.has(parent),
        forall|k: int|
            0 <= k < ts@.len() ==> crate::ast::exps_bounded(
                #[trigger] triggers_view(ts@)[k],
                parent.0 as int,
            ),
    ensures
        r@ == spec_trigger_groups(*env, triggers_view(ts@), parent.0 as int),
    decreases parent.0, 0int, 1int, 0int,
{
    let mut s = String::new();
    let ghost tv = triggers_view(ts@);
    proof {
        assert(tv.subrange(0, 0) =~= Seq::<Seq<Exp>>::empty());
    }
    let mut i: usize = 0;
    while i < ts.len()
        invariant
            env.wf(),
            wf_names(*env),
            env.exp_arena.has(parent),
            tv == triggers_view(ts@),
            tv.len() == ts@.len(),
            forall|k: int|
                0 <= k < tv.len() ==> crate::ast::exps_bounded(#[trigger] tv[k], parent.0 as int),
            i <= tv.len(),
            s@ == spec_trigger_groups(*env, tv.subrange(0, i as int), parent.0 as int),
        decreases tv.len() - i,
    {
        proof {
            assert(tv.subrange(0, i + 1).drop_last() =~= tv.subrange(0, i as int));
            assert(tv.subrange(0, i + 1).last() == tv[i as int]);
            assert(tv[i as int] == ts@[i as int]@);
        }
        s.append("{");
        let lst = render_exp_list(env, &ts[i], parent);
        s.append(lst.as_str());
        s.append("}");
        proof {
            reveal_strlit("{");
            reveal_strlit("}");
            assert(s@ =~= spec_trigger_groups(*env, tv.subrange(0, i + 1), parent.0 as int));
        }
        i += 1;
    }
    proof {
        assert(tv.subrange(0, tv.len() as int) =~= tv);
    }
    s
}


// =========================================================================
// Conditions and specifications

/// What a condition rendering reads: its expressions are in the model; a
/// let binding's symbol is in the pool; an emits condition has its event
/// and target expressions, an update condition its target.
pub open spec fn wf_condition_names(env: GlobalEnv, cond: Condition) -> bool {
    &&& env.exp_arena.has(cond.exp)
    &&& forall|k: int|
        0 <= k < cond.additional_exps@.len() ==> env.exp_arena.has(
            #[trigger] cond.additional_exps@[k],
        )
    &&& match cond.kind {
        ConditionKind::LetPre(s) => sym_in_pool(env.symbol_pool, s),
        ConditionKind::LetPost(s) => sym_in_pool(env.symbol_pool, s),
        ConditionKind::Emits => cond.additional_exps@.len() >= 1,
        ConditionKind::Update => cond.additional_exps@.len() >= 1,
        _ => true,
    }
}

/// The rendering of a declared condition, by kind.
pub open spec fn spec_condition(env: GlobalEnv, cond: Condition) -> Seq<char> {
    match cond.kind {
        ConditionKind::LetPre(name) => seq!['l', 'e', 't', ' '] + sym_chars(env.symbol_pool, name)
            + seq![' ', '=', ' '] + spec_exp(env, cond.exp) + seq![';'],
        ConditionKind::LetPost(name) => seq!['l', 'e', 't', ' ', 'p', 'o', 's', 't', ' ']
            + sym_chars(env.symbol_pool, name) + seq![' ', '=', ' '] + spec_exp(env, cond.exp)
            + seq![';'],
        ConditionKind::Emits => seq!['e', 'm', 'i', 't', ' '] + spec_exp(env, cond.exp) + seq![
            ' ', 't', 'o', ' ',
        ] + spec_exp(env, cond.additional_exps@[0]) + (if cond.additional_exps@.len() > 1 {
            seq!['i', 'f', ' '] + spec_exp(env, cond.additional_exps@[1])
        } else {
            Seq::empty()
        }) + seq![';'],
        ConditionKind::Update => seq!['u', 'p', 'd', 'a', 't', 'e', ' '] + spec_exp(
            env,
            cond.additional_exps@[0],
        ) + seq![' ', '=', ' '] + spec_exp(env, cond.exp) + seq![';'],
        _ => spec_cond_kind(cond.kind) + seq![' '] + spec_exp(env, cond.exp) + seq![';'],
    }
}

impl Condition {
    /// Renders this condition.
    pub fn render(&self, env: &GlobalEnv) -> (r: String)
        requires
            env.wf(),
            wf_names(*env),
            wf_condition_names(*env, *self),
        ensures
            r@ == spec_condition(*env, *self),
    {
        match &self.kind {
            ConditionKind::LetPre(name) => {
                let mut s = "let ".to_owned();
                let nm = env.symbol_pool.string(*name);
                s.append(nm.as_str());
                s.append(" = ");
                let es = render_exp(env, self.exp);
                s.append(es.as_str());
                s.append(";");
                proof {
                    reveal_strlit("let ");
                    reveal_strlit(" = ");
                    reveal_strlit(";");
                    assert(s@ =~= spec_condition(*env, *self));
                }
                s
            },
            ConditionKind::LetPost(name) => {
                let mut s = "let post ".to_owned();
                let nm = env.symbol_pool.string(*name);
                s.append(nm.as_str());
                s.append(" = ");
                let es = render_exp(env, self.exp);
                s.append(es.as_str());
                s.append(";");
                proof {
                    reveal_strlit("let post ");
                    reveal_strlit(" = ");
                    reveal_strlit(";");
                    assert(s@ =~= spec_condition(*env, *self));
                }
                s
            },
            ConditionKind::Emits => {
                let mut s = "emit ".to_owned();
                let es = render_exp(env, self.exp);
                s.append(es.as_str());
                s.append(" to ");
                let t = render_exp(env, self.additional_exps[0]);
                s.append(t.as_str());
                if self.additional_exps.len() > 1 {
                    s.append("if ");
                    let c = render_exp(env, self.additional_exps[1]);
                    s.append(c.as_str());
                    proof {
                        reveal_strlit("if ");
                    }
                }
                s.append(";");
                proof {
                    reveal_strlit("emit ");
                    reveal_strlit(" to ");
                    reveal_strlit(";");
                    assert(s@ =~= spec_condition(*env, *self));
                }
                s
            },
            ConditionKind::Update => {
                let mut s = "update ".to_owned();
                let t = render_exp(env, self.additional_exps[0]);
                s.append(t.as_str());
                s.append(" = ");
                let es = render_exp(env, self.exp);
                s.append(es.as_str());
                s.append(";");
                proof {
                    reveal_strlit("update ");
                    reveal_strlit(" = ");
                    reveal_strlit(";");
                    assert(s@ =~= spec_condition(*env, *self));
                }
                s
            },
            _ => {
                let mut s = self.kind.render();
                s.append(" ");
                let es = render_exp(env, self.exp);
                s.append(es.as_str());
                s.append(";");
                proof {
                    reveal_strlit(" ");
                    reveal_strlit(";");
                    assert(s@ =~= spec_condition(*env, *self));
                }
                s
            },
        }
    }
}

/// The rendering of a specification block: each condition on its own
/// indented line.
pub open spec fn spec_spec_block(env: GlobalEnv, conds: Seq<Condition>) -> Seq<char>
    decreases conds,
{
    if conds.len() == 0 {
        Seq::empty()
    } else {
        spec_spec_block(env, conds.drop_last()) + seq![' ', ' '] + spec_condition(
            env,
            conds.last(),
        ) + seq!['\n']
    }
}

impl Spec {
    /// Renders this specification block.
    pub fn render(&self, env: &GlobalEnv) -> (r: String)
        requires
            env.wf(),
            wf_names(*env),
            forall|k: int|
                0 <= k < self.conditions@.len() ==> wf_condition_names(
                    *env,
                    #[trigger] self.conditions@[k],
                ),
        ensures
            r@ == seq!['s', 'p', 'e', 'c', ' ', '{', '\n'] + spec_spec_block(
                *env,
                self.conditions@,
            ) + seq!['}', '\n'],
    {
        let mut s = "spec {\n".to_owned();
        proof {
            reveal_strlit("spec {\n");
            assert(self.conditions@.subrange(0, 0) =~= Seq::<Condition>::empty());
            assert(s@ =~= seq!['s', 'p', 'e', 'c', ' ', '{', '\n']);
        }
        let ghost cv = self.conditions@;
        let mut i: usize = 0;
        while i < self.conditions.len()
            invariant
                env.wf(),
                wf_names(*env),
                forall|k: int|
                    0 <= k < cv.len() ==> wf_condition_names(*env, #[trigger] cv[k]),
                self.conditions@ == cv,
                i <= cv.len(),
                s@ == seq!['s', 'p', 'e', 'c', ' ', '{', '\n'] + spec_spec_block(
                    *env,
                    cv.subrange(0, i as int),
                ),
            decreases cv.len() - i,
        {
            proof {
                assert(cv.subrange(0, i + 1).drop_last() =~= cv.subrange(0, i as int));
                assert(cv.subrange(0, i + 1).last() == cv[i as int]);
            }
            s.append("  ");
            let c = self.conditions[i].render(env);
            s.append(c.as_str());
            s.append("\n");
            proof {
                reveal_strlit("  ");
                reveal_strlit("\n");
                assert(s@ =~= seq!['s', 'p', 'e', 'c', ' ', '{', '\n'] + spec_spec_block(
                    *env,
                    cv.subrange(0, i + 1),
                ));
            }
            i += 1;
        }
        proof {
            assert(cv.subrange(0, cv.len() as int) =~= cv);
        }
        s.append("}\n");
        proof {
            reveal_strlit("}\n");
            assert(s@ =~= seq!['s', 'p', 'e', 'c', ' ', '{', '\n'] + spec_spec_block(*env, cv)
                + seq!['}', '\n']);
        }
        s
    }
}

// =========================================================================
// The usage-analysis dump

/// What a memory reference rendering reads.
pub open spec fn wf_qid_names(env: GlobalEnv, q: QualifiedInstId) -> bool {
    &&& env.has_struct(q.module_id, q.id)
    &&& sym_in_pool(env.symbol_pool, env.modules@[q.module_id.0 as int].name.1)
    &&& sym_in_pool(
        env.symbol_pool,
        env.modules@[q.module_id.0 as int].structs@[q.id.0 as int].name,
    )
    &&& wf_type_names_list(env, view_types(q.inst@))
}

/// The rendering of a memory reference: the struct's qualified name with
/// its instantiation.
pub open spec fn spec_qid_str(env: GlobalEnv, q: QualifiedInstId) -> Seq<char> {
    spec_struct_name(env, q.module_id, q.id) + if view_types(q.inst@).len() > 0 {
        seq!['<'] + spec_type_list(env, view_types(q.inst@)) + seq!['>']
    } else {
        Seq::empty()
    }
}

/// Renders a memory reference.
fn render_qid(env: &GlobalEnv, q: &QualifiedInstId) -> (r: String)
    requires
        env.wf(),
        wf_qid_names(*env, *q),
    ensures
        r@ == spec_qid_str(*env, *q),
{
    let mut s = String::new();
    let mname = env.symbol_pool.string(env.modules[q.module_id.0].name.1);
    s.append(mname.as_str());
    s.append("::");
    let sname = env.symbol_pool.string(env.modules[q.module_id.0].structs[q.id.0].name);
    s.append(sname.as_str());
    proof {
        reveal_strlit("::");
        crate::ty::lemma_view_types_len(q.inst@);
    }
    if q.inst.len() > 0 {
        s.append("<");
        let ghost tsv = view_types(q.inst@);
        let mut parts = String::new();
        let mut i: usize = 0;
        while i < q.inst.len()
            invariant
                env.wf(),
                i <= q.inst@.len(),
                tsv == view_types(q.inst@),
                tsv.len() == q.inst@.len(),
                wf_type_names_list(*env, tsv),
                parts@ == spec_type_list(*env, tsv.subrange(0, i as int)),
            decreases q.inst@.len() - i,
        {
            proof {
                crate::ty::lemma_view_types_index(q.inst@, i as int);
                assert(tsv.subrange(0, i + 1).drop_last() =~= tsv.subrange(0, i as int));
                assert(tsv.subrange(0, i + 1).last() == tsv[i as int]);
                lemma_wf_type_names_elem(*env, tsv, i as int);
            }
            if i > 0 {
                parts.append(", ");
                proof {
                    reveal_strlit(", ");
                }
            }
            let p = env.render_type(&q.inst[i]);
            parts.append(p.as_str());
            proof {
                assert(parts@ =~= spec_type_list(*env, tsv.subrange(0, i + 1)));
            }
            i += 1;
        }
        proof {
            assert(tsv.subrange(0, tsv.len() as int) =~= tsv);
        }
        s.append(parts.as_str());
        s.append(">");
        proof {
            reveal_strlit("<");
            reveal_strlit(">");
        }
    }
    proof {
        assert(s@ =~= spec_qid_str(*env, *q));
    }
    s
}

/// A comma-separated memory list, in the set's insertion order.
pub open spec fn spec_mem_list(env: GlobalEnv, elems: Seq<QualifiedInstId>) -> Seq<char>
    decreases elems,
{
    if elems.len() == 0 {
        Seq::empty()
    } else if elems.len() == 1 {
        spec_qid_str(env, elems[0])
    } else {
        spec_mem_list(env, elems.drop_last()) + seq![',', ' '] + spec_qid_str(env, elems.last())
    }
}

/// Renders the contents of a set of memories.
fn render_mem_list(env: &GlobalEnv, s: &SetDomain) -> (r: String)
    requires
        env.wf(),
        forall|k: int|
            0 <= k < s.elems@.len() ==> wf_qid_names(*env, #[trigger] s.elems@[k]),
    ensures
        r@ == spec_mem_list(*env, s.elems@),
{
    let mut out = String::new();
    let ghost ev = s.elems@;
    proof {
        assert(ev.subrange(0, 0) =~= Seq::<QualifiedInstId>::empty());
    }
    let mut i: usize = 0;
    while i < s.elems.len()
        invariant
            env.wf(),
            forall|k: int| 0 <= k < ev.len() ==> wf_qid_names(*env, #[trigger] ev[k]),
            s.elems@ == ev,
            i <= ev.len(),
            out@ == spec_mem_list(*env, ev.subrange(0, i as int)),
        decreases ev.len() - i,
    {
        proof {
            assert(ev.subrange(0, i + 1).drop_last() =~= ev.subrange(0, i as int));
            assert(ev.subrange(0, i + 1).last() == ev[i as int]);
        }
        if i > 0 {
            out.append(", ");
            proof {
                reveal_strlit(", ");
            }
        }
        let q = render_qid(env, &s.elems[i]);
        out.append(q.as_str());
        proof {
            assert(out@ =~= spec_mem_list(*env, ev.subrange(0, i + 1)));
        }
        i += 1;
    }
    proof {
        assert(ev.subrange(0, ev.len() as int) =~= ev);
    }
    out
}

/// The two lines of one usage category: the full set, then the direct one.
pub open spec fn spec_usage_lines(env: GlobalEnv, name: Seq<char>, mu: MemoryUsage) -> Seq<char> {
    "  "@ + name + " = {"@ + spec_mem_list(env, mu.all.elems@) + "}\n"@ + "  directly "@ + name
        + " = {"@ + spec_mem_list(env, mu.direct.elems@) + "}\n"@
}

/// Renders one usage category as its two lines.
fn render_usage_lines(env: &GlobalEnv, name: &str, mu: &MemoryUsage) -> (r: String)
    requires
        env.wf(),
        forall|k: int|
            0 <= k < mu.all.elems@.len() ==> wf_qid_names(*env, #[trigger] mu.all.elems@[k]),
        forall|k: int|
            0 <= k < mu.direct.elems@.len() ==> wf_qid_names(*env, #[trigger] mu.direct.elems@[k]),
    ensures
        r@ == spec_usage_lines(*env, name@, *mu),
{
    let mut s = "  ".to_owned();
    s.append(name);
    s.append(" = {");
    let all = render_mem_list(env, &mu.all);
    s.append(all.as_str());
    s.append("}\n");
    s.append("  directly ");
    s.append(name);
    s.append(" = {");
    let direct = render_mem_list(env, &mu.direct);
    s.append(direct.as_str());
    s.append("}\n");
    proof {
        assert(s@ =~= spec_usage_lines(*env, name@, *mu));
    }
    s
}

/// The rendering of a variant tag.
pub open spec fn spec_variant(v: FunctionVariant) -> Seq<char> {
    match v {
        FunctionVariant::Baseline => "baseline"@,
        FunctionVariant::Verification => "verification"@,
    }
}

/// What one target's dump reads: its summary is present, its function is
/// declared with names in the pool, and every memory it mentions renders.
pub open spec fn dump_target_ready(env: GlobalEnv, t: FunctionData) -> bool {
    &&& env.has_fun(t.fun_id.module_id, t.fun_id.id)
    &&& sym_in_pool(env.symbol_pool, env.modules@[t.fun_id.module_id.0 as int].name.1)
    &&& sym_in_pool(
        env.symbol_pool,
        env.modules@[t.fun_id.module_id.0 as int].functions@[t.fun_id.id.0 as int].name,
    )
    &&& match t.annotation {
        Option::Some(us) => {
            &&& (forall|k: int|
                0 <= k < us.accessed.all.elems@.len() ==> wf_qid_names(
                    env,
                    #[trigger] us.accessed.all.elems@[k],
                ))
            &&& (forall|k: int|
                0 <= k < us.accessed.direct.elems@.len() ==> wf_qid_names(
                    env,
                    #[trigger] us.accessed.direct.elems@[k],
                ))
            &&& (forall|k: int|
                0 <= k < us.modified.all.elems@.len() ==> wf_qid_names(
                    env,
                    #[trigger] us.modified.all.elems@[k],
                ))
            &&& (forall|k: int|
                0 <= k < us.modified.direct.elems@.len() ==> wf_qid_names(
                    env,
                    #[trigger] us.modified.direct.elems@[k],
                ))
            &&& (forall|k: int|
                0 <= k < us.assumed.all.elems@.len() ==> wf_qid_names(
                    env,
                    #[trigger] us.assumed.all.elems@[k],
                ))
            &&& (forall|k: int|
                0 <= k < us.assumed.direct.elems@.len() ==> wf_qid_names(
                    env,
                    #[trigger] us.assumed.direct.elems@[k],
                ))
            &&& (forall|k: int|
                0 <= k < us.asserted.all.elems@.len() ==> wf_qid_names(
                    env,
                    #[trigger] us.asserted.all.elems@[k],
                ))
            &&& (forall|k: int|
                0 <= k < us.asserted.direct.elems@.len() ==> wf_qid_names(
                    env,
                    #[trigger] us.asserted.direct.elems@[k],
                ))
        },
        Option::None => false,
    }
}

/// The header line of one target's dump.
pub open spec fn spec_target_header(env: GlobalEnv, t: FunctionData) -> Seq<char> {
    "function "@ + sym_chars(env.symbol_pool, env.modules@[t.fun_id.module_id.0 as int].name.1)
        + "::"@ + sym_chars(
        env.symbol_pool,
        env.modules@[t.fun_id.module_id.0 as int].functions@[t.fun_id.id.0 as int].name,
    ) + " ["@ + spec_variant(t.variant) + "] {\n"@
}

/// The rendering of one analyzed target: a header naming the function and
/// variant, then the four usage categories, each fully and directly.
pub open spec fn spec_target_dump(env: GlobalEnv, t: FunctionData) -> Seq<char> {
    match t.annotation {
        Option::Some(us) => spec_target_header(env, t) + spec_usage_lines(
            env,
            "accessed"@,
            us.accessed,
        ) + spec_usage_lines(env, "modified"@, us.modified) + spec_usage_lines(
            env,
            "assumed"@,
            us.assumed,
        ) + spec_usage_lines(env, "asserted"@, us.asserted) + "}\n"@,
        Option::None => Seq::empty(),
    }
}

/// The rendering of all analyzed targets, in holder order.
pub open spec fn spec_dump(env: GlobalEnv, ts: Seq<FunctionData>) -> Seq<char>
    decreases ts,
{
    if ts.len() == 0 {
        Seq::empty()
    } else {
        spec_dump(env, ts.drop_last()) + spec_target_dump(env, ts.last())
    }
}

/// Renders the result of the usage analysis over all targets: per function
/// and variant, each usage category shown both fully resolved and
/// direct-only.
/// Renders one analyzed target.
#[verifier::rlimit(100)]
fn render_target(env: &GlobalEnv, t: &FunctionData) -> (r: String)
    requires
        env.wf(),
        dump_target_ready(*env, *t),
    ensures
        r@ == spec_target_dump(*env, *t),
{
    let mut s = String::new();
    match &t.annotation {
        Option::Some(us) => {
            s.append("function ");
            let mname = env.symbol_pool.string(env.modules[t.fun_id.module_id.0].name.1);
            s.append(mname.as_str());
            s.append("::");
            let fname = env.symbol_pool.string(
                env.modules[t.fun_id.module_id.0].functions[t.fun_id.id.0].name,
            );
            s.append(fname.as_str());
            s.append(" [");
            match t.variant {
                FunctionVariant::Baseline => {
                    s.append("baseline");
                },
                FunctionVariant::Verification => {
                    s.append("verification");
                },
            }
            s.append("] {\n");
            let l1 = render_usage_lines(env, "accessed", &us.accessed);
            s.append(l1.as_str());
            let l2 = render_usage_lines(env, "modified", &us.modified);
            s.append(l2.as_str());
            let l3 = render_usage_lines(env, "assumed", &us.assumed);
            s.append(l3.as_str());
            let l4 = render_usage_lines(env, "asserted", &us.asserted);
            s.append(l4.as_str());
            s.append("}\n");
            proof {
                reveal_strlit("function ");
                reveal_strlit("::");
                reveal_strlit(" [");
                reveal_strlit("baseline");
                reveal_strlit("verification");
                reveal_strlit("] {\n");
                reveal_strlit("}\n");
                reveal_strlit("accessed");
                reveal_strlit("modified");
                reveal_strlit("assumed");
                reveal_strlit("asserted");
                assert(s@ =~= spec_target_dump(*env, *t));
            }
        },
        Option::None => {
            proof {
                assert(false);
            }
        },
    }
    s
}

/// Renders the result of the usage analysis over all targets: per function
/// and variant, each usage category shown both fully resolved and
/// direct-only.
pub fn dump_usage(env: &GlobalEnv, targets: &FunctionTargetsHolder) -> (r: String)
    requires
        env.wf(),
        forall|k: int|
            0 <= k < targets.targets@.len() ==> dump_target_ready(
                *env,
                #[trigger] targets.targets@[k],
            ),
    ensures
        r@ == spec_dump(*env, targets.targets@),
{
    let mut s = String::new();
    let ghost tv = targets.targets@;
    proof {
        assert(tv.subrange(0, 0) =~= Seq::<FunctionData>::empty());
    }
    let mut i: usize = 0;
    while i < targets.targets.len()
        invariant
            env.wf(),
            forall|k: int| 0 <= k < tv.len() ==> dump_target_ready(*env, #[trigger] tv[k]),
            targets.targets@ == tv,
            i <= tv.len(),
            s@ == spec_dump(*env, tv.subrange(0, i as int)),
        decreases tv.len() - i,
    {
        proof {
            assert(tv.subrange(0, i + 1).drop_last() =~= tv.subrange(0, i as int));
            assert(tv.subrange(0, i + 1).last() == tv[i as int]);
        }
        let part = render_target(env, &targets.targets[i]);
        s.append(part.as_str());
        proof {
            assert(s@ =~= spec_dump(*env, tv.subrange(0, i + 1)));
        }
        i += 1;
    }
    proof {
        assert(tv.subrange(0, tv.len() as int) =~= tv);
    }
    s
}

} // verus!
