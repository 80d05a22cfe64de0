//! Types and type inference.
//!
//! Types are interned in a `Types` table and referred to by `TypeId`.
//! Inference variables are kept in a unification table; a variable is
//! unbound, constrained to be numeric, or bound to a type.
use std::collections::HashMap;
use vstd::prelude::*;

use ena::unify::{InPlaceUnificationTable, NoError, UnifyKey, UnifyValue};

use crate::ast::{expr_children, Db, ExprData, ExprId, Ident, PatternData, PatternId, Span};
use crate::bytecode;
use crate::common::{Binop, Unop};
use crate::diagnostic::{decimal, decimal_text, error_report, push_text, Diagnostic, DiagnosticV};
use crate::input::Source;
use crate::resolve::{get_item, module_map, parse_fn_signature, Item, ItemV};
use crate::typing::{
    array_rest, below, check_args_spec, check_fields_spec, check_list_spec, check_pat_spec,
    check_pats_spec, check_spec, error_result, expr_at, expr_span, expr_wf_at, extend_spec,
    field_lookup, get_var_spec, infer_array_spec, infer_binop_spec, infer_call_spec,
    infer_field_spec, infer_if_spec, infer_index_spec, infer_let_spec, infer_list_spec,
    infer_node_spec, infer_spec, infer_unop_spec, item_exprs, lemma_expr_ok, named, prim, record, scope_lookup, bind_all,
    scopes_lookup, tdata, unit, var_spec, zonk_list_spec, zonk_map_spec, zonk_spec, infer_free, zonk_within,
    lemma_kept_infer_free,
    lemma_infer_free_deeper, lemma_infer_free_extend, lemma_wrap_infer_free, lemma_zonk_within_extend,
    refs_ok, struct_names_ok, types_extend,
};

verus! {

/// A type: an index into the type table.
#[derive(Debug, Clone, Copy, PartialEq, Eq, Structural)]
pub struct TypeId(pub usize);

/// An inference variable: an index into the unification table.
#[derive(Debug, Clone, Copy, PartialEq, Eq, Structural)]
pub struct InferVar(pub u32);

/// What is known of an inference variable.
#[derive(Debug, Clone, Copy, PartialEq, Eq, Structural)]
pub enum InferValue {
    Unbound,
    Numeric,
    Bound(TypeId),
}

/// The signature of a function type.
pub struct FnSig {
    pub args: Vec<TypeId>,
    pub ret: TypeId,
}

/// The kinds of types.
pub enum TypeData {
    Error,
    Infer(InferVar),
    Primitive(bytecode::Type),
    Range,
    Fn(FnSig),
    /// A pointer, mutable if the flag is set.
    Ptr(TypeId, bool),
    /// A slice, mutable if the flag is set.
    Slice(TypeId, bool),
    Tuple(Vec<TypeId>),
    /// A named struct type of a source file.
    Var(Source, Ident),
    Array(usize, TypeId),
}

/// The mathematical value of a type.
pub enum TypeDataV {
    Error,
    Infer(InferVar),
    Primitive(bytecode::Type),
    Range,
    Fn(Seq<TypeId>, TypeId),
    Ptr(TypeId, bool),
    Slice(TypeId, bool),
    Tuple(Seq<TypeId>),
    Var(Source, Ident),
    Array(usize, TypeId),
}

impl View for TypeData {
    type V = TypeDataV;

    open spec fn view(&self) -> TypeDataV {
        match self {
            TypeData::Error => TypeDataV::Error,
            TypeData::Infer(v) => TypeDataV::Infer(*v),
            TypeData::Primitive(t) => TypeDataV::Primitive(*t),
            TypeData::Range => TypeDataV::Range,
            TypeData::Fn(sig) => TypeDataV::Fn(sig.args@, sig.ret),
            TypeData::Ptr(t, m) => TypeDataV::Ptr(*t, *m),
            TypeData::Slice(t, m) => TypeDataV::Slice(*t, *m),
            TypeData::Tuple(ts) => TypeDataV::Tuple(ts@),
            TypeData::Var(s, x) => TypeDataV::Var(*s, *x),
            TypeData::Array(n, t) => TypeDataV::Array(*n, *t),
        }
    }
}

/// The types a type is made of.
pub open spec fn type_children(d: TypeDataV) -> Seq<TypeId> {
    match d {
        TypeDataV::Fn(args, ret) => args.push(ret),
        TypeDataV::Ptr(t, _) => seq![t],
        TypeDataV::Slice(t, _) => seq![t],
        TypeDataV::Tuple(ts) => ts,
        TypeDataV::Array(_, t) => seq![t],
        _ => Seq::empty(),
    }
}

/// The types that `d` is made of.
pub fn type_children_of(d: &TypeData) -> (r: Vec<TypeId>)
    ensures
        r@ == type_children(d@),
{
    let mut r: Vec<TypeId> = Vec::new();
    match d {
        TypeData::Fn(sig) => {
            for k in 0..sig.args.len()
                invariant
                    r@ == sig.args@.take(k as int),
            {
                r.push(sig.args[k]);
                assert(r@ =~= sig.args@.take(k + 1));
            }
            assert(sig.args@.take(sig.args@.len() as int) =~= sig.args@);
            r.push(sig.ret);
        },
        TypeData::Ptr(t, _) => r.push(*t),
        TypeData::Slice(t, _) => r.push(*t),
        TypeData::Tuple(ts) => {
            for k in 0..ts.len()
                invariant
                    r@ == ts@.take(k as int),
            {
                r.push(ts[k]);
                assert(r@ =~= ts@.take(k + 1));
            }
            assert(ts@.take(ts@.len() as int) =~= ts@);
        },
        TypeData::Array(_, t) => r.push(*t),
        _ => {},
    }
    assert(r@ =~= type_children(d@));
    r
}

/// The table of types.
pub struct Types {
    pub data: Vec<TypeData>,
}

impl View for Types {
    type V = Seq<TypeDataV>;

    open spec fn view(&self) -> Seq<TypeDataV> {
        self.data@.map_values(|d: TypeData| d@)
    }
}

/// Every type of the table is made of types entered before it.
pub open spec fn types_wf(ts: Seq<TypeDataV>) -> bool {
    forall|i: int, k: int|
        0 <= i < ts.len() && 0 <= k < type_children(ts[i]).len() ==> (#[trigger] type_children(
            ts[i],
        )[k]).0 < i
}

impl Types {
    /// An empty table.
    pub fn new() -> (t: Self)
        ensures
            t@ == Seq::<TypeDataV>::empty(),
    {
        let t = Types { data: Vec::new() };
        assert(t@ =~= Seq::<TypeDataV>::empty());
        t
    }

    /// Enters a type into the table.
    pub fn wrap(&mut self, d: TypeData) -> (id: TypeId)
        ensures
            id.0 == old(self)@.len(),
            final(self)@ == old(self)@.push(d@),
    {
        let id = TypeId(self.data.len());
        let ghost dv = d@;
        self.data.push(d);
        assert(self@ =~= old(self)@.push(dv));
        id
    }
}

impl TypeData {
    /// Enters this type into the table.
    pub fn wrap(self, types: &mut Types) -> (id: TypeId)
        ensures
            id.0 == old(types)@.len(),
            final(types)@ == old(types)@.push(self@),
    {
        types.wrap(self)
    }
}

/// The value that a variable takes when it is unified with another
/// variable: a bound type wins over a numeric constraint, which wins over
/// nothing.
pub open spec fn combine(v1: InferValue, v2: InferValue) -> InferValue {
    match (v1, v2) {
        (InferValue::Bound(t), _) => InferValue::Bound(t),
        (_, InferValue::Bound(t)) => InferValue::Bound(t),
        (InferValue::Numeric, _) => InferValue::Numeric,
        (_, InferValue::Numeric) => InferValue::Numeric,
        _ => InferValue::Unbound,
    }
}

/// Unifying two values keeps every constraint: the result is bound when
/// either value is bound (to the first one's type when both are), numeric
/// when neither is bound and either is numeric, and unbound only when both
/// are; the order of the two values matters only when both are bound.
pub proof fn lemma_combine_keeps_constraints(v1: InferValue, v2: InferValue)
    ensures
        combine(v1, v2) is Bound <==> (v1 is Bound || v2 is Bound),
        v1 is Bound ==> combine(v1, v2) == v1,
        !(v1 is Bound) && v2 is Bound ==> combine(v1, v2) == v2,
        !(v1 is Bound) && !(v2 is Bound) && (v1 is Numeric || v2 is Numeric) ==> combine(v1, v2) is Numeric,
        combine(v1, v2) is Unbound <==> (v1 is Unbound && v2 is Unbound),
        !(v1 is Bound && v2 is Bound) ==> combine(v1, v2) == combine(v2, v1),
{
}

/// The combined value of two variables.
pub fn combine_values(v1: &InferValue, v2: &InferValue) -> (r: InferValue)
    ensures
        r == combine(*v1, *v2),
{
    match (v1, v2) {
        (InferValue::Bound(t), _) => InferValue::Bound(*t),
        (_, InferValue::Bound(t)) => InferValue::Bound(*t),
        (InferValue::Numeric, _) => InferValue::Numeric,
        (_, InferValue::Numeric) => InferValue::Numeric,
        _ => InferValue::Unbound,
    }
}

#[verifier::external_type_specification]
#[verifier::external_body]
pub struct ExNoError(NoError);

impl UnifyKey for InferVar {
    type Value = InferValue;

    fn index(&self) -> (r: u32)
        ensures
            r == self.0,
    {
        self.0
    }

    fn from_index(u: u32) -> (r: Self)
        ensures
            r == InferVar(u),
    {
        InferVar(u)
    }

    fn tag() -> (r: &'static str)
        ensures
            r@ == "InferVar"@,
    {
        proof {
            reveal_strlit("InferVar");
        }
        "InferVar"
    }
}

impl UnifyValue for InferValue {
    type Error = NoError;

    fn unify_values(value1: &Self, value2: &Self) -> (r: Result<Self, NoError>)
        ensures
            r == Ok::<InferValue, NoError>(combine(*value1, *value2)),
    {
        Ok(combine_values(value1, value2))
    }
}

/// A union-find table of inference variables, kept by the `ena` crate.
#[verifier::external_body]
pub struct UnifTable {
    table: InPlaceUnificationTable<InferVar>,
}

/// What the table holds: for each variable, by its index, the smallest
/// variable of its class and the value of the class.
pub uninterp spec fn unif_contents(t: UnifTable) -> Seq<(nat, InferValue)>;

/// A table of variables: each key's label is a key of its class no larger
/// than itself, which is its own label, and keys of one class have one
/// value.
pub open spec fn unif_wf(c: Seq<(nat, InferValue)>) -> bool {
    &&& forall|k: int| 0 <= k < c.len() ==> (#[trigger] c[k]).0 <= k
    &&& forall|k: int| 0 <= k < c.len() ==> c[(#[trigger] c[k]).0 as int].0 == c[k].0
    &&& forall|k: int| 0 <= k < c.len() ==> c[(#[trigger] c[k]).0 as int].1 == c[k].1
}

/// The table after the classes of keys `a` and `b` are merged with value
/// `v`: the merged class is labelled by the smaller of the two labels.
pub open spec fn merge_classes(c: Seq<(nat, InferValue)>, a: int, b: int, v: InferValue) -> Seq<
    (nat, InferValue),
> {
    let r = if c[a].0 <= c[b].0 { c[a].0 } else { c[b].0 };
    Seq::new(
        c.len(),
        |k: int|
            if c[k].0 == c[a].0 || c[k].0 == c[b].0 {
                (r, v)
            } else {
                c[k]
            },
    )
}

/// The table after the class of key `a` takes value `v`.
pub open spec fn set_class_value(c: Seq<(nat, InferValue)>, a: int, v: InferValue) -> Seq<(nat, InferValue)> {
    Seq::new(
        c.len(),
        |k: int|
            if c[k].0 == c[a].0 {
                (c[k].0, v)
            } else {
                c[k]
            },
    )
}

impl UnifTable {
    /// An empty table (`InPlaceUnificationTable::new`).
    #[verifier::external_body]
    pub(crate) fn new() -> (t: Self)
        ensures
            unif_contents(t) == Seq::<(nat, InferValue)>::empty(),
    {
        UnifTable { table: InPlaceUnificationTable::new() }
    }

    /// A new variable in a class of its own with value `v`
    /// (`UnificationTable::new_key`): its index is the number of variables
    /// before it, which the crate casts to `u32`, so that number must fit.
    #[verifier::external_body]
    pub(crate) fn new_key(&mut self, v: InferValue) -> (k: InferVar)
        requires
            unif_contents(*old(self)).len() < u32::MAX,
        ensures
            k.0 == unif_contents(*old(self)).len(),
            unif_contents(*final(self)) == unif_contents(*old(self)).push(
                (unif_contents(*old(self)).len(), v),
            ),
    {
        self.table.new_key(v)
    }

    /// The number of variables (`UnificationTable::len`).
    #[verifier::external_body]
    pub(crate) fn len(&self) -> (n: usize)
        ensures
            n == unif_contents(*self).len(),
    {
        self.table.len()
    }

    /// The value of a variable's class (`UnificationTable::probe_value`); it
    /// shortens paths inside the table and changes nothing that is held.
    #[verifier::external_body]
    pub(crate) fn probe_value(&mut self, k: InferVar) -> (v: InferValue)
        requires
            k.0 < unif_contents(*old(self)).len(),
        ensures
            v == unif_contents(*old(self))[k.0 as int].1,
            unif_contents(*final(self)) == unif_contents(*old(self)),
    {
        self.table.probe_value(k)
    }

    /// Merges the classes of two variables (`UnificationTable::unify_var_var`):
    /// nothing changes if they are in one class already; else the two
    /// classes become one with the value that `InferValue::unify_values`
    /// gives, which never fails. The two classes are not both bound, a case
    /// in which `unify_values` would compare the two types.
    #[verifier::external_body]
    pub(crate) fn unify_var_var(&mut self, a: InferVar, b: InferVar) -> (ok: bool)
        requires
            a.0 < unif_contents(*old(self)).len(),
            b.0 < unif_contents(*old(self)).len(),
            !(unif_contents(*old(self))[a.0 as int].1 is Bound && unif_contents(*old(self))[b.0 as int].1 is Bound),
        ensures
            ok,
            ({
                let c = unif_contents(*old(self));
                if c[a.0 as int].0 == c[b.0 as int].0 {
                    unif_contents(*final(self)) == c
                } else {
                    unif_contents(*final(self)) == merge_classes(
                        c,
                        a.0 as int,
                        b.0 as int,
                        combine(c[a.0 as int].1, c[b.0 as int].1),
                    )
                }
            }),
    {
        self.table.unify_var_var(a, b).is_ok()
    }

    /// Gives a variable's class the value that `InferValue::unify_values`
    /// gives for its value and `v` (`UnificationTable::unify_var_value`),
    /// which never fails. The class is not bound already, a case in which
    /// `unify_values` would compare the two types.
    #[verifier::external_body]
    pub(crate) fn unify_var_value(&mut self, a: InferVar, v: InferValue) -> (ok: bool)
        requires
            a.0 < unif_contents(*old(self)).len(),
            !(unif_contents(*old(self))[a.0 as int].1 is Bound),
        ensures
            ok,
            unif_contents(*final(self)) == set_class_value(
                unif_contents(*old(self)),
                a.0 as int,
                combine(unif_contents(*old(self))[a.0 as int].1, v),
            ),
    {
        self.table.unify_var_value(a, v).is_ok()
    }
}


/// The fields of a struct, each name once (a later field of the same name
/// replaces an earlier one), with the index and type of each, after the
/// first `n` fields.
pub open spec fn last_fields(fs: Seq<(Ident, TypeId)>, n: int) -> Seq<(Ident, (usize, TypeId))>
    decreases n,
{
    if n <= 0 || n > fs.len() {
        Seq::empty()
    } else {
        let p = last_fields(fs, n - 1);
        if exists|j: int| n - 1 < j < fs.len() && (#[trigger] fs[j]).0 == fs[n - 1].0 {
            p
        } else {
            p.push((fs[n - 1].0, ((n - 1) as usize, fs[n - 1].1)))
        }
    }
}

/// Each field that `last_fields` gives is one of the struct's fields, with
/// its own index.
pub proof fn lemma_last_fields_from(fs: Seq<(Ident, TypeId)>, n: int)
    ensures
        forall|k: int|
            0 <= k < last_fields(fs, n).len() ==> exists|j: int|
                0 <= j < n && j < fs.len() && (#[trigger] last_fields(fs, n)[k]) == (fs[j].0, (j as usize, fs[j].1)),
    decreases n,
{
    if n <= 0 || n > fs.len() {
    } else {
        lemma_last_fields_from(fs, n - 1);
        let p = last_fields(fs, n - 1);
        assert forall|k: int|
            0 <= k < last_fields(fs, n).len() implies exists|j: int|
                0 <= j < n && j < fs.len() && (#[trigger] last_fields(fs, n)[k]) == (fs[j].0, (j as usize, fs[j].1)) by {
            if k < p.len() {
                assert(last_fields(fs, n)[k] == p[k]);
                let j = choose|j: int| 0 <= j < n - 1 && j < fs.len() && p[k] == (fs[j].0, (j as usize, fs[j].1));
                assert(0 <= j < n && j < fs.len());
            } else {
                assert(last_fields(fs, n)[k] == (fs[n - 1].0, ((n - 1) as usize, fs[n - 1].1)));
            }
        }
    }
}

/// `name` denotes a struct in source `sf`.
pub open spec fn names_struct(db: Db, sf: Source, name: Ident) -> bool {
    module_map(db, sf.0 as int).contains_key(name) && module_map(db, sf.0 as int)[name] is Type
}

/// The fields of the struct that `name` denotes in source `sf`.
pub open spec fn struct_fields_spec(db: Db, sf: Source, name: Ident) -> Seq<(Ident, (usize, TypeId))> {
    match module_map(db, sf.0 as int)[name] {
        ItemV::Type(s) => {
            let fs = db.structs@[s.0 as int].fields@;
            last_fields(fs, fs.len() as int)
        },
        _ => Seq::empty(),
    }
}

/// The fields of the struct that `tv` denotes in source `sf`, each with
/// its index and type.
pub fn struct_fields(db: &Db, sf: Source, tv: Ident) -> (r: Vec<(Ident, (usize, TypeId))>)
    requires
        db.defs_wf(),
        sf.0 < db.files@.len(),
        names_struct(*db, sf, tv),
    ensures
        r@ == struct_fields_spec(*db, sf, tv),
{
    match get_item(db, sf, tv) {
        Some(Item::Type { def }) => {
            proof {
                crate::resolve::lemma_module_map_valid(*db, sf.0 as int, tv);
            }
            let fs = &db.structs[def.0].fields;
            let n = fs.len();
            let mut r: Vec<(Ident, (usize, TypeId))> = Vec::new();
            for i in 0..n
                invariant
                    n == fs@.len(),
                    r@ == last_fields(fs@, i as int),
            {
                let mut later = false;
                let mut j = i + 1;
                while j < n
                    invariant
                        n == fs@.len(),
                        i < j <= n,
                        later == exists|k: int| i < k < j && (#[trigger] fs@[k]).0 == fs@[i as int].0,
                    decreases n - j,
                {
                    if fs[j].0 == fs[i].0 {
                        later = true;
                    }
                    j = j + 1;
                    proof {
                        if later && !(exists|k: int| i < k < j - 1 && (#[trigger] fs@[k]).0 == fs@[i as int].0) {
                            assert(fs@[j - 1].0 == fs@[i as int].0);
                        }
                    }
                }
                if !later {
                    r.push((fs[i].0, (i, fs[i].1)));
                }
            }
            r
        },
        _ => {
            assert(false);
            Vec::new()
        },
    }
}

/// How a variable is bound: its type and whether it may be assigned.
#[derive(Debug, Clone, Copy, PartialEq, Eq, Structural)]
pub struct VarBinding {
    pub tp: TypeId,
    pub is_mut: bool,
}

/// The types of the expressions of a function.
pub struct InferenceResult {
    /// By expression index: the expression's type, if it was inferred.
    pub type_map: Vec<Option<TypeId>>,
    /// The type table, with the types entered during inference.
    pub types: Types,
    /// The reports made during inference.
    pub diagnostics: Vec<Diagnostic>,
}


/// The state of type inference.
pub struct EnvV {
    /// The scopes of local variables, innermost last; each maps the index
    /// of a name to its binding.
    pub scopes: Seq<Map<usize, VarBinding>>,
    /// The unification table: for each variable, the smallest variable of
    /// its class and the value of the class.
    pub unif: Seq<(nat, InferValue)>,
    /// By expression index, the type inferred for the expression.
    pub type_map: Seq<Option<TypeId>>,
    /// The reports made so far, oldest first.
    pub diags: Seq<DiagnosticV>,
    /// The table of types.
    pub types: Seq<TypeDataV>,
}

/// How a type is printed in reports.
pub open spec fn type_text(t: TypeId) -> Seq<char> {
    "TypeId("@ + decimal(t.0 as nat) + ")"@
}

/// How a name is printed in reports.
pub open spec fn name_text(db: Db, x: Ident) -> Seq<char> {
    quoted(db.idents@[x.0 as int]@)
}

pub open spec fn type_mismatch_msg(exp: TypeId, got: TypeId) -> Seq<char> {
    "type mismatch. expected: "@ + type_text(exp) + ", got: "@ + type_text(got)
}

pub open spec fn missing_argument_msg(id: nat, tp: TypeId) -> Seq<char> {
    "missing arg #"@ + decimal(id) + " of type "@ + type_text(tp)
}

pub open spec fn unexpected_argument_msg(id: nat) -> Seq<char> {
    "unexpected arg #"@ + decimal(id)
}

pub open spec fn duplicate_field_msg(db: Db, x: Ident) -> Seq<char> {
    "duplicate field: "@ + name_text(db, x)
}

pub open spec fn missing_field_msg(db: Db, x: Ident) -> Seq<char> {
    "missing field: "@ + name_text(db, x)
}

pub open spec fn no_field_msg(db: Db, x: Ident, tp: TypeId) -> Seq<char> {
    "no field named "@ + name_text(db, x) + " on type "@ + type_text(tp)
}

pub open spec fn unexpected_tuple_msg(n: nat, tp: TypeId) -> Seq<char> {
    "expected "@ + type_text(tp) + ", but this matches "@ + decimal(n) + "-element tuple"@
}

pub open spec fn missing_else_msg(tp: TypeId) -> Seq<char> {
    "missing else branch of type "@ + type_text(tp)
}

pub open spec fn unbound_var_msg(db: Db, x: Ident) -> Seq<char> {
    "unbound var: "@ + name_text(db, x)
}

pub open spec fn unknown_type_msg(name: Seq<char>) -> Seq<char> {
    "unknown type: "@ + quoted(name)
}

/// A text in double quotes.
pub open spec fn quoted(t: Seq<char>) -> Seq<char> {
    "\""@ + t + "\""@
}

pub open spec fn not_a_function_msg() -> Seq<char> {
    "this expression is not a function and cannot be called"@
}

pub open spec fn cannot_assign_msg() -> Seq<char> {
    "this expression cannot be mutated"@
}

pub open spec fn cannot_index_msg() -> Seq<char> {
    "this expression cannot be indexed"@
}

pub open spec fn cannot_index_with_msg() -> Seq<char> {
    "this expression cannot be use as an index"@
}

pub open spec fn cannot_dereference_msg() -> Seq<char> {
    "this expression cannot be dereferenced"@
}

/// The state with a report added.
pub open spec fn add_diag(st: EnvV, src: Source, span: Span, msg: Seq<char>) -> EnvV {
    EnvV { diags: st.diags.push(error_report(src, span, msg)), ..st }
}

/// The state with a type entered into the table, and the new type.
pub open spec fn wrap_spec(st: EnvV, d: TypeDataV) -> (TypeId, EnvV) {
    (TypeId(st.types.len() as usize), EnvV { types: st.types.push(d), ..st })
}

/// A new inference variable with value `v`, and the type that stands for it;
/// once the variables' indices are used up (they are `u32`), the error type.
pub open spec fn new_var_spec(st: EnvV, v: InferValue) -> (TypeId, EnvV) {
    if st.unif.len() < u32::MAX {
        let k = InferVar(st.unif.len() as u32);
        let st1 = EnvV { unif: st.unif.push((st.unif.len(), v)), ..st };
        wrap_spec(st1, TypeDataV::Infer(k))
    } else {
        wrap_spec(st, TypeDataV::Error)
    }
}

/// Follows bound variables from `tp`, at most `fuel` times.
pub open spec fn weak_resolve_spec(st: EnvV, tp: TypeId, fuel: nat) -> TypeId
    decreases fuel,
{
    if fuel == 0 {
        tp
    } else {
        match st.types[tp.0 as int] {
            TypeDataV::Infer(v) => match st.unif[v.0 as int].1 {
                InferValue::Bound(b) => weak_resolve_spec(st, b, (fuel - 1) as nat),
                _ => tp,
            },
            _ => tp,
        }
    }
}

/// `tp` with bound variables followed, as many times as there are variables.
pub open spec fn resolved(st: EnvV, tp: TypeId) -> TypeId {
    weak_resolve_spec(st, tp, st.unif.len())
}

/// Binding variable `var` to type `ty`: refused if the variable must be
/// numeric and `ty` is neither a primitive nor a variable, or if it is
/// bound already.
pub open spec fn bind_var_spec(st: EnvV, var: InferVar, ty: TypeId) -> (bool, EnvV) {
    let v = st.unif[var.0 as int].1;
    if v is Numeric && !(st.types[ty.0 as int] is Primitive || st.types[ty.0 as int] is Infer) {
        (false, st)
    } else if v is Bound {
        (false, st)
    } else {
        (
            true,
            EnvV {
                unif: set_class_value(st.unif, var.0 as int, combine(v, InferValue::Bound(ty))),
                ..st
            },
        )
    }
}

/// Merging the classes of two unbound or numeric variables.
pub open spec fn union_spec(st: EnvV, a: InferVar, b: InferVar) -> EnvV {
    let c = st.unif;
    if c[a.0 as int].0 == c[b.0 as int].0 {
        st
    } else if c[a.0 as int].1 is Bound && c[b.0 as int].1 is Bound {
        st
    } else {
        EnvV {
            unif: merge_classes(c, a.0 as int, b.0 as int, combine(c[a.0 as int].1, c[b.0 as int].1)),
            ..st
        }
    }
}

/// A variable that is bound stays bound to the same type when two classes
/// are merged and when a variable is bound.
pub proof fn lemma_bound_stays(st: EnvV, k: int, a: InferVar, b: InferVar, ty: TypeId)
    requires
        unif_wf(st.unif),
        0 <= k < st.unif.len(),
        st.unif[k].1 is Bound,
        a.0 < st.unif.len(),
        b.0 < st.unif.len(),
    ensures
        union_spec(st, a, b).unif[k].1 == st.unif[k].1,
        bind_var_spec(st, a, ty).1.unif[k].1 == st.unif[k].1,
{
    let c = st.unif;
    assert(c[c[k].0 as int].1 == c[k].1);
    assert(c[c[a.0 as int].0 as int].1 == c[a.0 as int].1);
    assert(c[c[b.0 as int].0 as int].1 == c[b.0 as int].1);
}

/// Variables of one class stay in one class: merging classes and binding
/// variables never split a class.
pub proof fn lemma_classes_only_merge(st: EnvV, i: int, j: int, a: InferVar, b: InferVar, ty: TypeId)
    requires
        unif_wf(st.unif),
        0 <= i < st.unif.len(),
        0 <= j < st.unif.len(),
        st.unif[i].0 == st.unif[j].0,
        a.0 < st.unif.len(),
        b.0 < st.unif.len(),
    ensures
        union_spec(st, a, b).unif[i].0 == union_spec(st, a, b).unif[j].0,
        bind_var_spec(st, a, ty).1.unif[i].0 == bind_var_spec(st, a, ty).1.unif[j].0,
{
}

/// Whether a value of type `from` can be used where `into` is expected,
/// unifying variables on the way; `fuel` bounds the depth of the comparison.
/// The functions below give it the number of types in the table: a chain of
/// types, each a part of the one before or what it is bound to, where no
/// type comes twice, is no longer than that.
pub open spec fn coerce_spec(st: EnvV, from: TypeId, into: TypeId, fuel: nat) -> (bool, EnvV)
    decreases fuel, 1int, 0int,
{
    if fuel == 0 {
        (false, st)
    } else {
        let f = resolved(st, from);
        let i = resolved(st, into);
        match (st.types[f.0 as int], st.types[i.0 as int]) {
            (_, TypeDataV::Error) => (true, st),
            (TypeDataV::Error, _) => (true, st),
            (TypeDataV::Primitive(a), TypeDataV::Primitive(b)) => (a == b, st),
            (TypeDataV::Range, TypeDataV::Range) => (true, st),
            (TypeDataV::Infer(v1), TypeDataV::Infer(v2)) => (true, union_spec(st, v1, v2)),
            (TypeDataV::Infer(v), _) => bind_var_spec(st, v, into),
            (_, TypeDataV::Infer(v)) => bind_var_spec(st, v, from),
            (TypeDataV::Var(s1, x1), TypeDataV::Var(s2, x2)) => (s1 == s2 && x1 == x2, st),
            (TypeDataV::Tuple(a), TypeDataV::Tuple(b)) => if a.len() == b.len() {
                coerce_all(st, a, b, 0, (fuel - 1) as nat)
            } else {
                (false, st)
            },
            (TypeDataV::Ptr(t1, m1), TypeDataV::Ptr(t2, m2)) => coerce_ref(st, t1, m1, t2, m2, (fuel - 1) as nat),
            (TypeDataV::Slice(t1, m1), TypeDataV::Slice(t2, m2)) => coerce_ref(st, t1, m1, t2, m2, (fuel - 1) as nat),
            (TypeDataV::Array(n1, t1), TypeDataV::Array(n2, t2)) => if n1 != n2 {
                (false, st)
            } else {
                let (r1, s1) = coerce_spec(st, t1, t2, (fuel - 1) as nat);
                if !r1 {
                    (false, s1)
                } else {
                    coerce_spec(s1, t2, t1, (fuel - 1) as nat)
                }
            },
            (TypeDataV::Fn(a1, r1), TypeDataV::Fn(a2, r2)) => if a1.len() != a2.len() {
                (false, st)
            } else {
                let (ok, s1) = coerce_all(st, a2, a1, 0, (fuel - 1) as nat);
                if !ok {
                    (false, s1)
                } else {
                    coerce_spec(s1, r1, r2, (fuel - 1) as nat)
                }
            },
            _ => (false, st),
        }
    }
}

/// Coercing a pointer or slice to `t2` with mutability `m2` from one to
/// `t1` with mutability `m1`: a mutable one needs a mutable one and equal
/// element types both ways.
pub open spec fn coerce_ref(st: EnvV, t1: TypeId, m1: bool, t2: TypeId, m2: bool, fuel: nat) -> (bool, EnvV)
    decreases fuel + 1, 0int, 0int,
{
    if m2 && !m1 {
        (false, st)
    } else {
        let (r1, s1) = coerce_spec(st, t1, t2, fuel);
        if !r1 {
            (false, s1)
        } else if !m2 {
            (true, s1)
        } else {
            coerce_spec(s1, t2, t1, fuel)
        }
    }
}

/// Coercing `a[i..]` into `b[i..]` element by element, stopping at the
/// first failure.
pub open spec fn coerce_all(st: EnvV, a: Seq<TypeId>, b: Seq<TypeId>, i: int, fuel: nat) -> (bool, EnvV)
    decreases fuel + 1, 0int, a.len() - i,
{
    if i < 0 || i >= a.len() || i >= b.len() {
        (true, st)
    } else {
        let (r, s1) = coerce_spec(st, a[i], b[i], fuel);
        if !r {
            (false, s1)
        } else {
            coerce_all(s1, a, b, i + 1, fuel)
        }
    }
}

/// A type that holds no inference variable, to depth `fuel`, coerces into
/// itself, and the state is left as it was.
proof fn lemma_coerce_self_fuel(st: EnvV, t: TypeId, fuel: nat)
    requires
        infer_free(st.types, t, fuel),
    ensures
        coerce_spec(st, t, t, fuel) == (true, st),
    decreases fuel, 0int, 0int,
{
    let d = st.types[t.0 as int];
    assert(resolved(st, t) == t);
    let f1 = (fuel - 1) as nat;
    match d {
        TypeDataV::Tuple(a) => {
            assert forall|k: int| 0 <= k < a.len() implies infer_free(st.types, #[trigger] a[k], f1) by {
                assert(type_children(d)[k] == a[k]);
            }
            lemma_coerce_all_self(st, a, 0, f1);
            assert(coerce_spec(st, t, t, fuel) == coerce_all(st, a, a, 0, f1));
        },
        TypeDataV::Fn(a, r) => {
            assert forall|k: int| 0 <= k < a.len() implies infer_free(st.types, #[trigger] a[k], f1) by {
                assert(type_children(d)[k] == a[k]);
            }
            assert(type_children(d)[a.len() as int] == r);
            lemma_coerce_all_self(st, a, 0, f1);
            lemma_coerce_self_fuel(st, r, f1);
        },
        TypeDataV::Ptr(p, mm) => {
            assert(type_children(d)[0] == p);
            lemma_coerce_self_fuel(st, p, f1);
            assert(coerce_ref(st, p, mm, p, mm, f1) == (true, st));
        },
        TypeDataV::Slice(p, mm) => {
            assert(type_children(d)[0] == p);
            lemma_coerce_self_fuel(st, p, f1);
            assert(coerce_ref(st, p, mm, p, mm, f1) == (true, st));
        },
        TypeDataV::Array(_, p) => {
            assert(type_children(d)[0] == p);
            lemma_coerce_self_fuel(st, p, f1);
            assert(coerce_spec(st, t, t, fuel) == coerce_spec(st, p, p, f1));
        },
        _ => {},
    }
}

/// Coercing a list of types that hold no inference variable, to depth
/// `fuel`, into itself succeeds and leaves the state as it was.
proof fn lemma_coerce_all_self(st: EnvV, a: Seq<TypeId>, i: int, fuel: nat)
    requires
        0 <= i,
        forall|k: int| i <= k < a.len() ==> infer_free(st.types, #[trigger] a[k], fuel),
    ensures
        coerce_all(st, a, a, i, fuel) == (true, st),
    decreases fuel, 1int, a.len() - i,
{
    if i < a.len() {
        lemma_coerce_self_fuel(st, a[i], fuel);
        lemma_coerce_all_self(st, a, i + 1, fuel);
    }
}

/// A type with no inference variable in it coerces into itself, with the
/// depth that `Env::coerce_into` gives, and the state is left as it was.
pub proof fn lemma_coerce_reflexive(st: EnvV, t: TypeId)
    requires
        infer_free(st.types, t, st.types.len()),
    ensures
        coerce_spec(st, t, t, st.types.len()) == (true, st),
{
    lemma_coerce_self_fuel(st, t, st.types.len());
}

/// A mutable pointer or slice coerces into a shared one to the same type
/// with no inference variable in it, and the state is left as it was; a
/// shared one never coerces into a mutable one.
pub proof fn lemma_coerce_mut_to_shared(st: EnvV, m: TypeId, s: TypeId, t: TypeId)
    requires
        m.0 < st.types.len(),
        s.0 < st.types.len(),
        (st.types[m.0 as int] == TypeDataV::Ptr(t, true) && st.types[s.0 as int] == TypeDataV::Ptr(t, false))
            || (st.types[m.0 as int] == TypeDataV::Slice(t, true) && st.types[s.0 as int] == TypeDataV::Slice(t, false)),
        infer_free(st.types, t, (st.types.len() - 1) as nat),
    ensures
        coerce_spec(st, m, s, st.types.len()) == (true, st),
        coerce_spec(st, s, m, st.types.len()).0 == false,
{
    let f = (st.types.len() - 1) as nat;
    assert(resolved(st, m) == m);
    assert(resolved(st, s) == s);
    lemma_coerce_self_fuel(st, t, f);
    assert(coerce_ref(st, t, true, t, false, f) == (true, st));
    assert(coerce_ref(st, t, false, t, true, f).0 == false);
    assert(coerce_spec(st, m, s, st.types.len()) == coerce_ref(st, t, true, t, false, f));
}

/// A type whose parts exist: its component types are in the table, its
/// variable is in the unification table, and a named type names a struct.
pub open spec fn data_ok(db: Db, st: EnvV, d: TypeDataV) -> bool {
    &&& forall|k: int| 0 <= k < type_children(d).len() ==> (#[trigger] type_children(d)[k]).0 < st.types.len()
    &&& (d matches TypeDataV::Infer(v) ==> v.0 < st.unif.len())
    &&& (d matches TypeDataV::Var(sf, x) ==> sf.0 < db.files@.len() && names_struct(db, sf, x))
}

/// The invariant of inference: every type, variable and binding that the
/// state refers to exists, and the unification table is well formed.
pub open spec fn env_wf(db: Db, src: Source, st: EnvV) -> bool {
    &&& db.wf(st.types.len())
    &&& src.0 < db.files@.len()
    &&& st.scopes.len() >= 1
    &&& types_wf(st.types)
    &&& forall|i: int|
        0 <= i < st.types.len() ==> ((#[trigger] st.types[i]) matches TypeDataV::Infer(v) ==> v.0 < st.unif.len())
    &&& forall|i: int|
        0 <= i < st.types.len() ==> ((#[trigger] st.types[i]) matches TypeDataV::Var(sf, x) ==> sf.0
            < db.files@.len() && names_struct(db, sf, x))
    &&& unif_wf(st.unif)
    &&& forall|k: int|
        0 <= k < st.unif.len() ==> ((#[trigger] st.unif[k]).1 matches InferValue::Bound(t) ==> t.0
            < st.types.len())
    &&& forall|i: int, k: usize|
        0 <= i < st.scopes.len() && st.scopes[i].contains_key(k) ==> (#[trigger] st.scopes[i][k]).tp.0
            < st.types.len()
    &&& st.type_map.len() == db.exprs@.len()
    &&& forall|i: int|
        0 <= i < st.type_map.len() ==> ((#[trigger] st.type_map[i]) matches Some(t) ==> t.0
            < st.types.len())
}

/// A well-formed syntax tree stays well formed as the type table grows.
pub proof fn lemma_db_wf_grow(db: Db, a: nat, b: nat)
    requires
        db.wf(a),
        a <= b,
    ensures
        db.wf(b),
{
}

/// Entering a type whose parts exist keeps the invariant.
pub proof fn lemma_wf_wrap(db: Db, src: Source, st: EnvV, d: TypeDataV)
    requires
        env_wf(db, src, st),
        data_ok(db, st, d),
    ensures
        env_wf(db, src, wrap_spec(st, d).1),
{
    lemma_db_wf_grow(db, st.types.len(), st.types.len() + 1);
    let s2 = wrap_spec(st, d).1;
    assert forall|i: int, k: int|
        0 <= i < s2.types.len() && 0 <= k < type_children(s2.types[i]).len() implies (
    #[trigger] type_children(s2.types[i])[k]).0 < i by {
        if i < st.types.len() {
            assert(s2.types[i] == st.types[i]);
        } else {
            assert(s2.types[i] == d);
        }
    }
    assert forall|i: int| 0 <= i < s2.types.len() implies ((#[trigger] s2.types[i]) matches TypeDataV::Infer(v) ==> v.0 < s2.unif.len()) by {
        if i < st.types.len() {
            assert(s2.types[i] == st.types[i]);
        }
    }
    assert forall|i: int| 0 <= i < s2.types.len() implies ((#[trigger] s2.types[i]) matches TypeDataV::Var(sf, x) ==> sf.0
    < db.files@.len() && names_struct(db, sf, x)) by {
        if i < st.types.len() {
            assert(s2.types[i] == st.types[i]);
        }
    }
}

/// The state of type inference for one function.
pub struct Env {
    /// The scopes of local variables, innermost last.
    pub scopes: Vec<HashMap<usize, VarBinding>>,
    pub unif_table: UnifTable,
    /// The source file of the function.
    pub source: Source,
    /// By expression index, the type inferred for the expression.
    pub type_map: Vec<Option<TypeId>>,
    /// The reports made so far.
    pub diagnostics: Vec<Diagnostic>,
    pub types: Types,
}

impl View for Env {
    type V = EnvV;

    open spec fn view(&self) -> EnvV {
        EnvV {
            scopes: self.scopes@.map_values(|s: HashMap<usize, VarBinding>| s@),
            unif: unif_contents(self.unif_table),
            type_map: self.type_map@,
            diags: self.diagnostics@.map_values(|d: Diagnostic| d@),
            types: self.types@,
        }
    }
}

impl Types {
    /// A copy of the whole table.
    pub fn copy(&self) -> (r: Types)
        ensures
            r@ == self@,
    {
        let mut data: Vec<TypeData> = Vec::new();
        for i in 0..self.data.len()
            invariant
                data@.map_values(|d: TypeData| d@) == self@.take(i as int),
        {
            let d = self.get(TypeId(i));
            let ghost before = data@;
            let ghost dv = d@;
            data.push(d);
            proof {
                assert(data@ == before.push(d));
                assert(data@.map_values(|d: TypeData| d@) =~= before.map_values(|d: TypeData| d@).push(dv));
                assert(self@.take(i + 1) =~= self@.take(i as int).push(self@[i as int]));
            }
        }
        assert(self@.take(self@.len() as int) =~= self@);
        Types { data }
    }

    /// A copy of the data of type `t`.
    pub fn get(&self, t: TypeId) -> (d: TypeData)
        requires
            t.0 < self@.len(),
        ensures
            d@ == self@[t.0 as int],
    {
        match &self.data[t.0] {
            TypeData::Error => TypeData::Error,
            TypeData::Infer(v) => TypeData::Infer(*v),
            TypeData::Primitive(p) => TypeData::Primitive(*p),
            TypeData::Range => TypeData::Range,
            TypeData::Fn(sig) => TypeData::Fn(FnSig { args: copy_ids(&sig.args), ret: sig.ret }),
            TypeData::Ptr(t2, m) => TypeData::Ptr(*t2, *m),
            TypeData::Slice(t2, m) => TypeData::Slice(*t2, *m),
            TypeData::Tuple(ts) => TypeData::Tuple(copy_ids(ts)),
            TypeData::Var(sf, x) => TypeData::Var(*sf, *x),
            TypeData::Array(n, t2) => TypeData::Array(*n, *t2),
        }
    }
}

/// A copy of a list of types.
pub fn copy_ids(v: &Vec<TypeId>) -> (r: Vec<TypeId>)
    ensures
        r@ == v@,
{
    let mut r: Vec<TypeId> = Vec::new();
    for i in 0..v.len()
        invariant
            r@ == v@.take(i as int),
    {
        r.push(v[i]);
        assert(r@ =~= v@.take(i + 1));
    }
    assert(v@.take(v@.len() as int) =~= v@);
    r
}

impl Env {
    /// The invariant of inference, for this environment.
    pub open spec fn wf(&self, db: Db) -> bool {
        env_wf(db, self.source, self@)
    }

    /// A fresh environment for a function of `source`, with one empty
    /// scope and no variables; it takes over the type table.
    pub fn new(db: &Db, source: Source, types: Types) -> (env: Self)
        requires
            db.wf(types@.len()),
            source.0 < db.files@.len(),
            types_wf(types@),
            forall|i: int| 0 <= i < types@.len() ==> !((#[trigger] types@[i]) is Infer),
            forall|i: int|
                0 <= i < types@.len() ==> ((#[trigger] types@[i]) matches TypeDataV::Var(sf, x) ==> sf.0
                    < db.files@.len() && names_struct(*db, sf, x)),
        ensures
            env.wf(*db),
            env.source == source,
            env@.scopes == seq![Map::<usize, VarBinding>::empty()],
            env@.unif == Seq::<(nat, InferValue)>::empty(),
            env@.type_map == Seq::new(db.exprs@.len(), |i: int| None::<TypeId>),
            env@.diags == Seq::<DiagnosticV>::empty(),
            env@.types == types@,
    {
        let mut type_map: Vec<Option<TypeId>> = Vec::new();
        for i in 0..db.exprs.len()
            invariant
                type_map@ == Seq::new(i as nat, |i: int| None::<TypeId>),
        {
            type_map.push(None);
            assert(type_map@ =~= Seq::new((i + 1) as nat, |i: int| None::<TypeId>));
        }
        let mut scopes: Vec<HashMap<usize, VarBinding>> = Vec::new();
        scopes.push(HashMap::new());
        let env = Env {
            scopes,
            unif_table: UnifTable::new(),
            source,
            type_map,
            diagnostics: Vec::new(),
            types,
        };
        assert(env@.scopes =~= seq![Map::<usize, VarBinding>::empty()]);
        assert(env@.diags =~= Seq::<DiagnosticV>::empty());
        env
    }

    /// Enters a type into the table.
    fn wrap_type(&mut self, Ghost(db): Ghost<Db>, d: TypeData) -> (t: TypeId)
        requires
            old(self).wf(db),
            data_ok(db, old(self)@, d@),
        ensures
            (t, final(self)@) == wrap_spec(old(self)@, d@),
            t.0 == old(self)@.types.len(),
            final(self).wf(db),
            final(self).source == old(self).source,
    {
        proof {
            lemma_wf_wrap(db, self.source, self@, d@);
        }
        let ghost dv = d@;
        let t = self.types.wrap(d);
        proof {
            assert(self@.scopes =~= old(self)@.scopes);
            assert(self@ =~= wrap_spec(old(self)@, dv).1);
        }
        t
    }

    /// A new variable with value `v`, and the type that stands for it.
    fn new_var(&mut self, Ghost(db): Ghost<Db>, v: InferValue) -> (t: TypeId)
        requires
            old(self).wf(db),
            v matches InferValue::Bound(b) ==> b.0 < old(self)@.types.len(),
        ensures
            (t, final(self)@) == new_var_spec(old(self)@, v),
            final(self).wf(db),
            final(self).source == old(self).source,
    {
        if self.unif_table.len() >= 4294967295usize {
            let d = TypeData::Error;
            assert(type_children(d@) =~= Seq::<TypeId>::empty());
            return self.wrap_type(Ghost(db), d);
        }
        let k = self.unif_table.new_key(v);
        proof {
            let st = self@;
            let o = old(self)@;
            assert(st.unif =~= o.unif.push((o.unif.len(), v)));
            assert forall|j: int| 0 <= j < st.unif.len() implies (#[trigger] st.unif[j]).0 <= j by {
                if j < o.unif.len() {
                    assert(st.unif[j] == o.unif[j]);
                }
            }
            assert forall|j: int| 0 <= j < st.unif.len() implies st.unif[(#[trigger] st.unif[j]).0 as int].0 == st.unif[j].0 by {
                if j < o.unif.len() {
                    assert(st.unif[j] == o.unif[j]);
                }
            }
            assert forall|j: int| 0 <= j < st.unif.len() implies st.unif[(#[trigger] st.unif[j]).0 as int].1 == st.unif[j].1 by {
                if j < o.unif.len() {
                    assert(st.unif[j] == o.unif[j]);
                }
            }
            assert forall|j: int| 0 <= j < st.unif.len() implies ((#[trigger] st.unif[j]).1 matches InferValue::Bound(t) ==> t.0
            < st.types.len()) by {
                if j < o.unif.len() {
                    assert(st.unif[j] == o.unif[j]);
                }
            }
            assert(st.scopes =~= o.scopes);
            assert(st.diags =~= o.diags);
        }
        let d = TypeData::Infer(k);
        assert(type_children(d@) =~= Seq::<TypeId>::empty());
        self.wrap_type(Ghost(db), d)
    }

    /// A new variable constrained to be numeric.
    pub fn new_numeric_var(&mut self, db: &Db) -> (t: TypeId)
        requires
            old(self).wf(*db),
        ensures
            (t, final(self)@) == new_var_spec(old(self)@, InferValue::Numeric),
            final(self).wf(*db),
            final(self).source == old(self).source,
    {
        self.new_var(Ghost(*db), InferValue::Numeric)
    }

    /// A new unconstrained variable.
    pub fn new_unbound_var(&mut self, db: &Db) -> (t: TypeId)
        requires
            old(self).wf(*db),
        ensures
            (t, final(self)@) == new_var_spec(old(self)@, InferValue::Unbound),
            final(self).wf(*db),
            final(self).source == old(self).source,
    {
        self.new_var(Ghost(*db), InferValue::Unbound)
    }

    /// Adds a report.
    fn push_diag(&mut self, Ghost(db): Ghost<Db>, d: Diagnostic)
        requires
            old(self).wf(db),
        ensures
            final(self)@ == (EnvV { diags: old(self)@.diags.push(d@), ..old(self)@ }),
            final(self).wf(db),
            final(self).source == old(self).source,
    {
        let ghost dv = d@;
        self.diagnostics.push(d);
        proof {
            assert(self@.diags =~= old(self)@.diags.push(dv));
            assert(self@.scopes =~= old(self)@.scopes);
        }
    }

    /// Records the type of expression `e`.
    fn record(&mut self, Ghost(db): Ghost<Db>, e: ExprId, t: TypeId)
        requires
            old(self).wf(db),
            e.0 < db.exprs@.len(),
            t.0 < old(self)@.types.len(),
        ensures
            final(self)@ == (EnvV { type_map: old(self)@.type_map.update(e.0 as int, Some(t)), ..old(self)@ }),
            final(self).wf(db),
            final(self).source == old(self).source,
    {
        self.type_map.set(e.0, Some(t));
        proof {
            assert(self@.scopes =~= old(self)@.scopes);
            assert(self@.diags =~= old(self)@.diags);
        }
    }
}

impl Env {
    /// `tp` with bound variables followed.
    pub fn weak_resolve(&mut self, db: &Db, tp: TypeId) -> (r: TypeId)
        requires
            old(self).wf(*db),
            tp.0 < old(self)@.types.len(),
        ensures
            r == resolved(old(self)@, tp),
            r.0 < old(self)@.types.len(),
            final(self)@ == old(self)@,
            final(self).source == old(self).source,
    {
        let ghost st = self@;
        let n = self.unif_table.len();
        let mut t = tp;
        let mut i: usize = 0;
        while i < n
            invariant
                self@ == st,
                st == old(self)@,
                self.source == old(self).source,
                env_wf(*db, self.source, st),
                n == st.unif.len(),
                i <= n,
                t.0 < st.types.len(),
                weak_resolve_spec(st, t, (n - i) as nat) == weak_resolve_spec(st, tp, n as nat),
            decreases n - i,
        {
            assert(st.types[t.0 as int] == self.types.data@[t.0 as int]@);
            match &self.types.data[t.0] {
                TypeData::Infer(v) => {
                    let v = *v;
                    assert(v.0 < st.unif.len());
                    match self.unif_table.probe_value(v) {
                        InferValue::Bound(b) => {
                            t = b;
                        },
                        _ => {
                            assert(weak_resolve_spec(st, t, (n - i) as nat) == t);
                            return t;
                        },
                    }
                },
                _ => {
                    assert(weak_resolve_spec(st, t, (n - i) as nat) == t);
                    return t;
                },
            }
            i = i + 1;
        }
        t
    }

    /// Binds variable `var` to type `ty`; refused if the variable must be
    /// numeric and `ty` is neither a primitive nor a variable.
    fn bind_var(&mut self, db: &Db, var: InferVar, ty: TypeId) -> (ok: bool)
        requires
            old(self).wf(*db),
            var.0 < old(self)@.unif.len(),
            ty.0 < old(self)@.types.len(),
        ensures
            (ok, final(self)@) == bind_var_spec(old(self)@, var, ty),
            final(self).wf(*db),
            final(self).source == old(self).source,
    {
        let v = self.unif_table.probe_value(var);
        match v {
            InferValue::Numeric => {
                match &self.types.data[ty.0] {
                    TypeData::Primitive(_) => {},
                    TypeData::Infer(_) => {},
                    _ => {
                        return false;
                    },
                }
            },
            InferValue::Bound(_) => {
                return false;
            },
            InferValue::Unbound => {},
        }
        let ok = self.unif_table.unify_var_value(var, InferValue::Bound(ty));
        proof {
            let st = self@;
            let o = old(self)@;
            let c = o.unif;
            let a = var.0 as int;
            let nv = combine(c[a].1, InferValue::Bound(ty));
            assert(st.unif == set_class_value(c, a, nv));
            assert forall|j: int| 0 <= j < st.unif.len() implies (#[trigger] st.unif[j]).0 <= j by {
                assert(st.unif[j].0 == c[j].0);
            }
            assert forall|j: int| 0 <= j < st.unif.len() implies st.unif[(#[trigger] st.unif[j]).0 as int].0 == st.unif[j].0 by {
                assert(st.unif[j].0 == c[j].0);
                assert(st.unif[c[j].0 as int].0 == c[c[j].0 as int].0);
            }
            assert forall|j: int| 0 <= j < st.unif.len() implies st.unif[(#[trigger] st.unif[j]).0 as int].1 == st.unif[j].1 by {
                assert(st.unif[j].0 == c[j].0);
                assert(c[c[j].0 as int].0 == c[j].0);
            }
            assert forall|j: int| 0 <= j < st.unif.len() implies ((#[trigger] st.unif[j]).1 matches InferValue::Bound(t) ==> t.0
            < st.types.len()) by {
                assert(c[j] == o.unif[j]);
            }
            assert(st.scopes =~= o.scopes);
            assert(st.diags =~= o.diags);
        }
        ok
    }
}

impl Env {
    /// Merges the classes of two variables.
    fn union(&mut self, db: &Db, a: InferVar, b: InferVar)
        requires
            old(self).wf(*db),
            a.0 < old(self)@.unif.len(),
            b.0 < old(self)@.unif.len(),
        ensures
            final(self)@ == union_spec(old(self)@, a, b),
            final(self).wf(*db),
            final(self).source == old(self).source,
    {
        let va = self.unif_table.probe_value(a);
        let vb = self.unif_table.probe_value(b);
        if matches!(va, InferValue::Bound(_)) && matches!(vb, InferValue::Bound(_)) {
            return;
        }
        let _ = self.unif_table.unify_var_var(a, b);
        proof {
            let st = self@;
            let o = old(self)@;
            let c = o.unif;
            let la = c[a.0 as int].0;
            let lb = c[b.0 as int].0;
            if la != lb {
                let v = combine(c[a.0 as int].1, c[b.0 as int].1);
                let r = if la <= lb { la } else { lb };
                assert(st.unif == merge_classes(c, a.0 as int, b.0 as int, v));
                assert(c[la as int].0 == la);
                assert(c[lb as int].0 == lb);
                assert forall|j: int| 0 <= j < st.unif.len() implies (#[trigger] st.unif[j]).0 <= j by {
                    assert(c[j].0 <= j);
                }
                assert forall|j: int| 0 <= j < st.unif.len() implies st.unif[(#[trigger] st.unif[j]).0 as int].0 == st.unif[j].0 && st.unif[st.unif[j].0 as int].1 == st.unif[j].1 by {
                    assert(c[c[j].0 as int].0 == c[j].0);
                    if c[j].0 == la || c[j].0 == lb {
                        assert(st.unif[j] == (r, v));
                        assert(st.unif[r as int] == (r, v));
                    } else {
                        assert(st.unif[j] == c[j]);
                        assert(st.unif[c[j].0 as int] == c[c[j].0 as int]);
                    }
                }
                assert forall|j: int| 0 <= j < st.unif.len() implies ((#[trigger] st.unif[j]).1 matches InferValue::Bound(t) ==> t.0
                < st.types.len()) by {
                    assert(c[j] == o.unif[j]);
                    assert(c[a.0 as int] == o.unif[a.0 as int]);
                    assert(c[b.0 as int] == o.unif[b.0 as int]);
                }
            }
            assert(st.scopes =~= o.scopes);
            assert(st.diags =~= o.diags);
        }
    }

    /// Whether a value of type `from` can be used where `into` is
    /// expected, unifying variables on the way.
    pub fn coerce_into(&mut self, db: &Db, from: TypeId, into: TypeId) -> (ok: bool)
        requires
            old(self).wf(*db),
            from.0 < old(self)@.types.len(),
            into.0 < old(self)@.types.len(),
        ensures
            (ok, final(self)@) == coerce_spec(old(self)@, from, into, old(self)@.types.len()),
            final(self).wf(*db),
            final(self).source == old(self).source,
            final(self)@.types == old(self)@.types,
            final(self)@.scopes == old(self)@.scopes,
            final(self)@.diags == old(self)@.diags,
    {
        let fuel = self.types.data.len() as u64;
        self.coerce_fuel(db, from, into, fuel)
    }

    fn coerce_fuel(&mut self, db: &Db, from: TypeId, into: TypeId, fuel: u64) -> (ok: bool)
        requires
            old(self).wf(*db),
            from.0 < old(self)@.types.len(),
            into.0 < old(self)@.types.len(),
        ensures
            (ok, final(self)@) == coerce_spec(old(self)@, from, into, fuel as nat),
            final(self).wf(*db),
            final(self).source == old(self).source,
            final(self)@.types == old(self)@.types,
            final(self)@.scopes == old(self)@.scopes,
            final(self)@.diags == old(self)@.diags,
        decreases fuel, 1int, 0int,
    {
        if fuel == 0 {
            return false;
        }
        let ghost st = self@;
        let f = self.weak_resolve(db, from);
        let i = self.weak_resolve(db, into);
        let df = self.types.get(f);
        let di = self.types.get(i);
        proof {
            assert(type_children(st.types[f.0 as int]).len() >= 0);
            assert forall|k: int| 0 <= k < type_children(df@).len() implies (#[trigger] type_children(df@)[k]).0 < st.types.len() by {
                assert(type_children(st.types[f.0 as int])[k].0 < f.0);
            }
            assert forall|k: int| 0 <= k < type_children(di@).len() implies (#[trigger] type_children(di@)[k]).0 < st.types.len() by {
                assert(type_children(st.types[i.0 as int])[k].0 < i.0);
            }
        }
        match (df, di) {
            (_, TypeData::Error) => true,
            (TypeData::Error, _) => true,
            (TypeData::Primitive(a), TypeData::Primitive(b)) => a == b,
            (TypeData::Range, TypeData::Range) => true,
            (TypeData::Infer(v1), TypeData::Infer(v2)) => {
                self.union(db, v1, v2);
                true
            },
            (TypeData::Infer(v), _) => self.bind_var(db, v, into),
            (_, TypeData::Infer(v)) => self.bind_var(db, v, from),
            (TypeData::Var(s1, x1), TypeData::Var(s2, x2)) => s1 == s2 && x1 == x2,
            (TypeData::Tuple(a), TypeData::Tuple(b)) => {
                if a.len() == b.len() {
                    proof {
                        assert forall|k: int| 0 <= k < a@.len() implies (#[trigger] a@[k]).0 < st.types.len() by {
                            assert(type_children(TypeDataV::Tuple(a@))[k] == a@[k]);
                        }
                        assert forall|k: int| 0 <= k < b@.len() implies (#[trigger] b@[k]).0 < st.types.len() by {
                            assert(type_children(TypeDataV::Tuple(b@))[k] == b@[k]);
                        }
                    }
                    self.coerce_all(db, &a, &b, 0, fuel - 1)
                } else {
                    false
                }
            },
            (TypeData::Ptr(t1, m1), TypeData::Ptr(t2, m2)) => {
                assert(type_children(TypeDataV::Ptr(t1, m1))[0] == t1);
                assert(type_children(TypeDataV::Ptr(t2, m2))[0] == t2);
                self.coerce_ref(db, t1, m1, t2, m2, fuel - 1)
            },
            (TypeData::Slice(t1, m1), TypeData::Slice(t2, m2)) => {
                assert(type_children(TypeDataV::Slice(t1, m1))[0] == t1);
                assert(type_children(TypeDataV::Slice(t2, m2))[0] == t2);
                self.coerce_ref(db, t1, m1, t2, m2, fuel - 1)
            },
            (TypeData::Array(n1, t1), TypeData::Array(n2, t2)) => {
                assert(type_children(TypeDataV::Array(n1, t1))[0] == t1);
                assert(type_children(TypeDataV::Array(n2, t2))[0] == t2);
                if n1 != n2 {
                    false
                } else {
                    let r1 = self.coerce_fuel(db, t1, t2, fuel - 1);
                    if !r1 {
                        false
                    } else {
                        self.coerce_fuel(db, t2, t1, fuel - 1)
                    }
                }
            },
            (TypeData::Fn(s1), TypeData::Fn(s2)) => {
                proof {
                    assert forall|k: int| 0 <= k < s1.args@.len() implies (#[trigger] s1.args@[k]).0 < st.types.len() by {
                        assert(type_children(TypeDataV::Fn(s1.args@, s1.ret))[k] == s1.args@[k]);
                    }
                    assert forall|k: int| 0 <= k < s2.args@.len() implies (#[trigger] s2.args@[k]).0 < st.types.len() by {
                        assert(type_children(TypeDataV::Fn(s2.args@, s2.ret))[k] == s2.args@[k]);
                    }
                    assert(type_children(TypeDataV::Fn(s1.args@, s1.ret))[s1.args@.len() as int] == s1.ret);
                    assert(type_children(TypeDataV::Fn(s2.args@, s2.ret))[s2.args@.len() as int] == s2.ret);
                }
                if s1.args.len() != s2.args.len() {
                    false
                } else {
                    let ok = self.coerce_all(db, &s2.args, &s1.args, 0, fuel - 1);
                    if !ok {
                        false
                    } else {
                        self.coerce_fuel(db, s1.ret, s2.ret, fuel - 1)
                    }
                }
            },
            _ => false,
        }
    }

    fn coerce_ref(&mut self, db: &Db, t1: TypeId, m1: bool, t2: TypeId, m2: bool, fuel: u64) -> (ok: bool)
        requires
            old(self).wf(*db),
            t1.0 < old(self)@.types.len(),
            t2.0 < old(self)@.types.len(),
        ensures
            (ok, final(self)@) == coerce_ref(old(self)@, t1, m1, t2, m2, fuel as nat),
            final(self).wf(*db),
            final(self).source == old(self).source,
            final(self)@.types == old(self)@.types,
            final(self)@.scopes == old(self)@.scopes,
            final(self)@.diags == old(self)@.diags,
        decreases fuel + 1, 0int, 0int,
    {
        if m2 && !m1 {
            false
        } else {
            let r1 = self.coerce_fuel(db, t1, t2, fuel);
            if !r1 {
                false
            } else if !m2 {
                true
            } else {
                self.coerce_fuel(db, t2, t1, fuel)
            }
        }
    }

    fn coerce_all(&mut self, db: &Db, a: &Vec<TypeId>, b: &Vec<TypeId>, i: usize, fuel: u64) -> (ok: bool)
        requires
            old(self).wf(*db),
            forall|k: int| 0 <= k < a@.len() ==> (#[trigger] a@[k]).0 < old(self)@.types.len(),
            forall|k: int| 0 <= k < b@.len() ==> (#[trigger] b@[k]).0 < old(self)@.types.len(),
        ensures
            (ok, final(self)@) == coerce_all(old(self)@, a@, b@, i as int, fuel as nat),
            final(self).wf(*db),
            final(self).source == old(self).source,
            final(self)@.types == old(self)@.types,
            final(self)@.scopes == old(self)@.scopes,
            final(self)@.diags == old(self)@.diags,
        decreases fuel + 1, 0int, a@.len() - i,
    {
        if i >= a.len() || i >= b.len() {
            true
        } else {
            let r = self.coerce_fuel(db, a[i], b[i], fuel);
            if !r {
                false
            } else {
                self.coerce_all(db, a, b, i + 1, fuel)
            }
        }
    }
}

impl Env {
    /// Opens a new innermost scope.
    pub fn push_scope(&mut self, db: &Db)
        requires
            old(self).wf(*db),
        ensures
            final(self)@ == (EnvV { scopes: old(self)@.scopes.push(Map::empty()), ..old(self)@ }),
            final(self).wf(*db),
            final(self).source == old(self).source,
    {
        self.scopes.push(HashMap::new());
        proof {
            assert(self@.scopes =~= old(self)@.scopes.push(Map::empty()));
            assert(self@.diags =~= old(self)@.diags);
        }
    }

    /// Closes the innermost scope.
    pub fn pop_scope(&mut self, db: &Db)
        requires
            old(self).wf(*db),
            old(self)@.scopes.len() >= 2,
        ensures
            final(self)@ == (EnvV { scopes: old(self)@.scopes.drop_last(), ..old(self)@ }),
            final(self).wf(*db),
            final(self).source == old(self).source,
    {
        let _ = self.scopes.pop();
        proof {
            assert(self@.scopes =~= old(self)@.scopes.drop_last());
            assert(self@.diags =~= old(self)@.diags);
        }
    }

    /// Binds `arg` in the innermost scope.
    pub fn add_var(&mut self, db: &Db, arg: Ident, binding: VarBinding)
        requires
            old(self).wf(*db),
            binding.tp.0 < old(self)@.types.len(),
        ensures
            final(self)@ == extend_spec(old(self)@, seq![(arg, binding)]),
            final(self).wf(*db),
            final(self).source == old(self).source,
    {
        let ghost vs = self.scopes@;
        let mut last = self.scopes.pop().unwrap();
        proof {
            assert(vs == self.scopes@.push(last));
            assert(old(self)@.scopes.last() == last@);
            broadcast use vstd::std_specs::hash::group_hash_axioms;
        }
        last.insert(arg.0, binding);
        self.scopes.push(last);
        proof {
            let o = old(self)@;
            let bs = seq![(arg, binding)];
            assert(bs.drop_last() =~= Seq::<(Ident, VarBinding)>::empty());
            assert(bind_all(o.scopes.last(), bs.drop_last()) == o.scopes.last());
            assert(bind_all(o.scopes.last(), bs) == o.scopes.last().insert(arg.0, binding));
            assert forall|k: int| 0 <= k < o.scopes.len() implies #[trigger] self@.scopes[k] == o.scopes.update(
                o.scopes.len() - 1,
                bind_all(o.scopes.last(), bs),
            )[k] by {
                if k < o.scopes.len() - 1 {
                    assert(self.scopes@[k] == vs[k]);
                }
            }
            assert(self@.scopes =~= o.scopes.update(o.scopes.len() - 1, bind_all(o.scopes.last(), bs)));
            assert(self@.diags =~= o.diags);
            let st = self@;
            assert forall|i: int, k: usize|
                0 <= i < st.scopes.len() && st.scopes[i].contains_key(k) implies (#[trigger] st.scopes[i][k]).tp.0
                < st.types.len() by {
                if i < o.scopes.len() - 1 {
                    assert(st.scopes[i] == o.scopes[i]);
                } else if k != arg.0 {
                    assert(st.scopes[i][k] == o.scopes[i][k]);
                }
            }
        }
    }

    /// Binds each of `bindings` in the innermost scope, in order.
    pub fn extend(&mut self, db: &Db, bindings: Vec<(Ident, VarBinding)>)
        requires
            old(self).wf(*db),
            forall|k: int| 0 <= k < bindings@.len() ==> (#[trigger] bindings@[k]).1.tp.0 < old(self)@.types.len(),
        ensures
            final(self)@ == extend_spec(old(self)@, bindings@),
            final(self).wf(*db),
            final(self).source == old(self).source,
    {
        let n = bindings.len();
        proof {
            let o = old(self)@;
            assert(bindings@.take(0) =~= Seq::<(Ident, VarBinding)>::empty());
            assert(bind_all(o.scopes.last(), Seq::<(Ident, VarBinding)>::empty()) == o.scopes.last());
            assert(o.scopes.update(o.scopes.len() - 1, o.scopes.last()) =~= o.scopes);
        }
        for i in 0..n
            invariant
                n == bindings@.len(),
                old(self).wf(*db),
                self.wf(*db),
                self.source == old(self).source,
                self@ == extend_spec(old(self)@, bindings@.take(i as int)),
                forall|k: int| 0 <= k < bindings@.len() ==> (#[trigger] bindings@[k]).1.tp.0 < old(self)@.types.len(),
        {
            let (x, b) = bindings[i];
            let ghost prev = self@;
            self.add_var(db, x, b);
            proof {
                let o = old(self)@;
                let l = o.scopes.len() - 1;
                assert(bindings@.take(i + 1) =~= bindings@.take(i as int).push((x, b)));
                assert(bindings@.take(i + 1).drop_last() =~= bindings@.take(i as int));
                assert(prev.scopes.last() == bind_all(o.scopes.last(), bindings@.take(i as int)));
                let one = seq![(x, b)];
                assert(one.drop_last() =~= Seq::<(Ident, VarBinding)>::empty());
                assert(bind_all(prev.scopes.last(), one.drop_last()) == prev.scopes.last());
                assert(bind_all(prev.scopes.last(), one) == prev.scopes.last().insert(x.0, b));
                assert(bind_all(o.scopes.last(), bindings@.take(i + 1)) == bind_all(o.scopes.last(), bindings@.take(i as int)).insert(x.0, b));
                assert(self@.scopes =~= o.scopes.update(l, bind_all(o.scopes.last(), bindings@.take(i + 1))));
            }
        }
        assert(bindings@.take(n as int) =~= bindings@);
    }

    /// The binding of `x`: a local variable, or a function of the source.
    pub fn get_var(&mut self, db: &Db, x: Ident) -> (r: Option<VarBinding>)
        requires
            old(self).wf(*db),
        ensures
            (r, final(self)@) == get_var_spec(*db, old(self).source, old(self)@, x),
            final(self).wf(*db),
            final(self).source == old(self).source,
            r matches Some(b) ==> b.tp.0 < final(self)@.types.len(),
    {
        let ghost st = self@;
        let ns = self.scopes.len();
        let mut i = ns;
        assert(st.scopes.take(ns as int) =~= st.scopes);
        while i > 0
            invariant
                self@ == st,
                st == old(self)@,
                self.wf(*db),
                ns == st.scopes.len(),
                i <= ns,
                scopes_lookup(st.scopes, x) == scopes_lookup(st.scopes.take(i as int), x),
            decreases i,
        {
            let ghost sc = st.scopes[i - 1];
            proof {
                broadcast use vstd::std_specs::hash::group_hash_axioms;
                assert(self.scopes@[i - 1]@ == sc);
                assert(st.scopes.take(i as int).drop_last() =~= st.scopes.take(i - 1));
                assert(st.scopes.take(i as int).last() == sc);
            }
            match self.scopes[i - 1].get(&x.0) {
                Some(b) => {
                    let b = *b;
                    return Some(b);
                },
                None => {},
            }
            i = i - 1;
        }
        proof {
            assert(st.scopes.take(0) =~= Seq::<Map<usize, VarBinding>>::empty());
        }
        match get_item(db, self.source, x) {
            Some(Item::Function { def, .. }) => {
                proof {
                    crate::resolve::lemma_module_map_valid(*db, self.source.0 as int, x);
                    lemma_db_wf_grow(*db, st.types.len(), st.types.len() + 1);
                }
                let sig = parse_fn_signature(db, &mut self.types, def);
                proof {
                    let fd = db.fns@[def.0 as int];
                    let s1 = self@;
                    if fd.ret is None {
                        lemma_wf_wrap(*db, self.source, st, TypeDataV::Tuple(Seq::empty()));
                        assert(s1 =~= unit(st).1);
                    } else {
                        assert(s1 =~= st);
                    }
                    assert forall|k: int| 0 <= k < sig.args@.len() implies (#[trigger] sig.args@[k]).0 < s1.types.len() by {
                        assert(sig.args@[k] == fd.args@[k].1);
                    }
                    let d = TypeDataV::Fn(sig.args@, sig.ret);
                    assert forall|k: int| 0 <= k < type_children(d).len() implies (#[trigger] type_children(d)[k]).0 < s1.types.len() by {
                        if k < sig.args@.len() {
                            assert(type_children(d)[k] == sig.args@[k]);
                        } else {
                            assert(type_children(d)[k] == sig.ret);
                        }
                    }
                }
                let t = self.wrap_type(Ghost(*db), TypeData::Fn(sig));
                Some(VarBinding { tp: t, is_mut: false })
            },
            _ => None,
        }
    }
}

/// How a type is printed in reports.
fn type_text_exec(t: TypeId) -> (s: String)
    ensures
        s@ == type_text(t),
{
    let mut s = String::new();
    push_text(&mut s, "TypeId(");
    let d = decimal_text(t.0);
    push_text(&mut s, d.as_str());
    push_text(&mut s, ")");
    assert(s@ =~= type_text(t));
    s
}

/// A text in double quotes.
fn quoted_exec(t: &str) -> (s: String)
    ensures
        s@ == quoted(t@),
{
    let mut s = String::new();
    push_text(&mut s, "\"");
    push_text(&mut s, t);
    push_text(&mut s, "\"");
    assert(s@ =~= quoted(t@));
    s
}

/// How a name is printed in reports.
fn name_text_exec(db: &Db, x: Ident) -> (s: String)
    requires
        x.0 < db.idents@.len(),
    ensures
        s@ == name_text(*db, x),
{
    quoted_exec(db.idents[x.0].as_str())
}

/// The decimal digits of `n`, as text.
fn decimal_exec(n: usize) -> (s: String)
    ensures
        s@ == decimal(n as nat),
{
    decimal_text(n)
}

impl Diagnostic {
    /// A value of type `got` was found where `exp` was expected.
    pub fn type_mismatch(db: &Db, span: Span, exp: TypeId, got: TypeId, source: Source) -> (d: Diagnostic)
        ensures
            d@ == error_report(source, span, type_mismatch_msg(exp, got)),
    {
        let mut m = String::new();
        push_text(&mut m, "type mismatch. expected: ");
        push_text(&mut m, type_text_exec(exp).as_str());
        push_text(&mut m, ", got: ");
        push_text(&mut m, type_text_exec(got).as_str());
        assert(m@ =~= type_mismatch_msg(exp, got));
        Diagnostic::error(source, span, m)
    }

    /// Argument number `id` of type `tp` is missing.
    pub fn missing_argument(db: &Db, id: usize, span: Span, tp: TypeId, source: Source) -> (d: Self)
        ensures
            d@ == error_report(source, span, missing_argument_msg(id as nat, tp)),
    {
        let mut m = String::new();
        push_text(&mut m, "missing arg #");
        push_text(&mut m, decimal_exec(id).as_str());
        push_text(&mut m, " of type ");
        push_text(&mut m, type_text_exec(tp).as_str());
        assert(m@ =~= missing_argument_msg(id as nat, tp));
        Diagnostic::error(source, span, m)
    }

    /// Argument number `id` has no parameter.
    pub fn unexpected_argument(db: &Db, id: usize, span: Span, source: Source) -> (d: Self)
        ensures
            d@ == error_report(source, span, unexpected_argument_msg(id as nat)),
    {
        let mut m = String::new();
        push_text(&mut m, "unexpected arg #");
        push_text(&mut m, decimal_exec(id).as_str());
        assert(m@ =~= unexpected_argument_msg(id as nat));
        Diagnostic::error(source, span, m)
    }

    /// A name that nothing binds.
    pub fn unbound_var(db: &Db, span: Span, name: Ident, source: Source) -> (d: Self)
        requires
            name.0 < db.idents@.len(),
        ensures
            d@ == error_report(source, span, unbound_var_msg(*db, name)),
    {
        let mut m = String::new();
        push_text(&mut m, "unbound var: ");
        push_text(&mut m, name_text_exec(db, name).as_str());
        assert(m@ =~= unbound_var_msg(*db, name));
        Diagnostic::error(source, span, m)
    }

    /// A type name that nothing defines.
    pub fn unknown_type(db: &Db, span: Span, name: String, source: Source) -> (d: Self)
        ensures
            d@ == error_report(source, span, unknown_type_msg(name@)),
    {
        let mut m = String::new();
        push_text(&mut m, "unknown type: ");
        push_text(&mut m, quoted_exec(name.as_str()).as_str());
        assert(m@ =~= unknown_type_msg(name@));
        Diagnostic::error(source, span, m)
    }

    /// A field given twice in a struct expression.
    pub fn duplicate_field(db: &Db, span: Span, name: Ident, source: Source) -> (d: Self)
        requires
            name.0 < db.idents@.len(),
        ensures
            d@ == error_report(source, span, duplicate_field_msg(*db, name)),
    {
        let mut m = String::new();
        push_text(&mut m, "duplicate field: ");
        push_text(&mut m, name_text_exec(db, name).as_str());
        assert(m@ =~= duplicate_field_msg(*db, name));
        Diagnostic::error(source, span, m)
    }

    /// A field not given in a struct expression.
    pub fn missing_field(db: &Db, span: Span, name: Ident, source: Source) -> (d: Self)
        requires
            name.0 < db.idents@.len(),
        ensures
            d@ == error_report(source, span, missing_field_msg(*db, name)),
    {
        let mut m = String::new();
        push_text(&mut m, "missing field: ");
        push_text(&mut m, name_text_exec(db, name).as_str());
        assert(m@ =~= missing_field_msg(*db, name));
        Diagnostic::error(source, span, m)
    }

    /// A field that a type does not have.
    pub fn no_field_on_type(db: &Db, span: Span, name: Ident, tp: TypeId, source: Source) -> (d: Self)
        requires
            name.0 < db.idents@.len(),
        ensures
            d@ == error_report(source, span, no_field_msg(*db, name, tp)),
    {
        let mut m = String::new();
        push_text(&mut m, "no field named ");
        push_text(&mut m, name_text_exec(db, name).as_str());
        push_text(&mut m, " on type ");
        push_text(&mut m, type_text_exec(tp).as_str());
        assert(m@ =~= no_field_msg(*db, name, tp));
        Diagnostic::error(source, span, m)
    }

    /// A call of something that is not a function.
    pub fn not_a_function(db: &Db, span: Span, source: Source) -> (d: Self)
        ensures
            d@ == error_report(source, span, not_a_function_msg()),
    {
        let mut m = String::new();
        push_text(&mut m, "this expression is not a function and cannot be called");
        assert(m@ =~= not_a_function_msg());
        Diagnostic::error(source, span, m)
    }

    /// An assignment to something that cannot be mutated.
    pub fn cannot_assign(db: &Db, span: Span, source: Source) -> (d: Self)
        ensures
            d@ == error_report(source, span, cannot_assign_msg()),
    {
        let mut m = String::new();
        push_text(&mut m, "this expression cannot be mutated");
        assert(m@ =~= cannot_assign_msg());
        Diagnostic::error(source, span, m)
    }

    /// Indexing something that is neither an array nor a slice.
    pub fn cannot_index(db: &Db, span: Span, source: Source) -> (d: Self)
        ensures
            d@ == error_report(source, span, cannot_index_msg()),
    {
        let mut m = String::new();
        push_text(&mut m, "this expression cannot be indexed");
        assert(m@ =~= cannot_index_msg());
        Diagnostic::error(source, span, m)
    }

    /// An index that is neither an integer nor a range.
    pub fn cannot_index_with(db: &Db, span: Span, source: Source) -> (d: Self)
        ensures
            d@ == error_report(source, span, cannot_index_with_msg()),
    {
        let mut m = String::new();
        push_text(&mut m, "this expression cannot be use as an index");
        assert(m@ =~= cannot_index_with_msg());
        Diagnostic::error(source, span, m)
    }

    /// A dereference of something that is not a pointer.
    pub fn cannot_dereference(db: &Db, span: Span, source: Source) -> (d: Self)
        ensures
            d@ == error_report(source, span, cannot_dereference_msg()),
    {
        let mut m = String::new();
        push_text(&mut m, "this expression cannot be dereferenced");
        assert(m@ =~= cannot_dereference_msg());
        Diagnostic::error(source, span, m)
    }

    /// A tuple pattern of `n` elements against type `tp`, not such a tuple.
    pub fn unexpected_tuple(db: &Db, span: Span, n: usize, tp: TypeId, source: Source) -> (d: Self)
        ensures
            d@ == error_report(source, span, unexpected_tuple_msg(n as nat, tp)),
    {
        let mut m = String::new();
        push_text(&mut m, "expected ");
        push_text(&mut m, type_text_exec(tp).as_str());
        push_text(&mut m, ", but this matches ");
        push_text(&mut m, decimal_exec(n).as_str());
        push_text(&mut m, "-element tuple");
        assert(m@ =~= unexpected_tuple_msg(n as nat, tp));
        Diagnostic::error(source, span, m)
    }

    /// An `if` of type `tp` without an else branch.
    pub fn missing_else_branch(db: &Db, span: Span, tp: TypeId, source: Source) -> (d: Self)
        ensures
            d@ == error_report(source, span, missing_else_msg(tp)),
    {
        let mut m = String::new();
        push_text(&mut m, "missing else branch of type ");
        push_text(&mut m, type_text_exec(tp).as_str());
        assert(m@ =~= missing_else_msg(tp));
        Diagnostic::error(source, span, m)
    }
}

impl Env {
    /// The bindings of pattern `pat` matched against type `tp`; a tuple
    /// pattern against another type is reported.
    pub fn check_pat(&mut self, db: &Db, pat: PatternId, tp: TypeId) -> (r: Vec<(Ident, VarBinding)>)
        requires
            old(self).wf(*db),
            pat.0 < db.patterns@.len(),
            tp.0 < old(self)@.types.len(),
        ensures
            (r@, final(self)@) == check_pat_spec(*db, old(self).source, old(self)@, pat, tp),
            final(self).wf(*db),
            final(self).source == old(self).source,
            final(self)@.types == old(self)@.types,
            final(self)@.scopes == old(self)@.scopes,
            grown(old(self)@, final(self)@),
            forall|k: int| 0 <= k < r@.len() ==> (#[trigger] r@[k]).1.tp.0 < final(self)@.types.len(),
        decreases pat.0, 1int, 0int,
    {
        match &db.patterns[pat.0].data {
            PatternData::Wildcard => Vec::new(),
            PatternData::Var(x, m) => {
                let mut r = Vec::new();
                r.push((*x, VarBinding { tp, is_mut: *m }));
                assert(r@ =~= seq![(*x, VarBinding { tp, is_mut: *m })]);
                r
            },
            PatternData::Tuple(pats) => {
                let d = self.types.get(tp);
                match d {
                    TypeData::Tuple(tps) => {
                        if tps.len() == pats.len() {
                            proof {
                                assert forall|k: int| 0 <= k < tps@.len() implies (#[trigger] tps@[k]).0 < self@.types.len() by {
                                    assert(type_children(self@.types[tp.0 as int])[k] == tps@[k]);
                                }
                                assert forall|k: int| 0 <= k < pats@.len() implies (#[trigger] pats@[k]).0 < pat.0 by {
                                    assert(crate::ast::pattern_children(db.patterns@[pat.0 as int].data)[k] == pats@[k]);
                                }
                            }
                            self.check_pats(db, pat, pats, &tps, 0)
                        } else {
                            let dg = Diagnostic::unexpected_tuple(db, db.patterns[pat.0].span, pats.len(), tp, self.source);
                            self.push_diag(Ghost(*db), dg);
                            Vec::new()
                        }
                    },
                    _ => {
                        let dg = Diagnostic::unexpected_tuple(db, db.patterns[pat.0].span, pats.len(), tp, self.source);
                        self.push_diag(Ghost(*db), dg);
                        Vec::new()
                    },
                }
            },
        }
    }

    fn check_pats(&mut self, db: &Db, p: PatternId, ps: &Vec<PatternId>, tps: &Vec<TypeId>, i: usize) -> (r: Vec<(Ident, VarBinding)>)
        requires
            old(self).wf(*db),
            p.0 < db.patterns@.len(),
            forall|k: int| 0 <= k < ps@.len() ==> (#[trigger] ps@[k]).0 < db.patterns@.len(),
            forall|k: int| 0 <= k < tps@.len() ==> (#[trigger] tps@[k]).0 < old(self)@.types.len(),
        ensures
            (r@, final(self)@) == check_pats_spec(*db, old(self).source, old(self)@, p, ps@, tps@, i as int),
            final(self).wf(*db),
            final(self).source == old(self).source,
            final(self)@.types == old(self)@.types,
            final(self)@.scopes == old(self)@.scopes,
            grown(old(self)@, final(self)@),
            forall|k: int| 0 <= k < r@.len() ==> (#[trigger] r@[k]).1.tp.0 < final(self)@.types.len(),
        decreases p.0, 0int, ps@.len() - i,
    {
        if i >= ps.len() || i >= tps.len() || ps[i].0 >= p.0 {
            return Vec::new();
        }
        let mut b1 = self.check_pat(db, ps[i], tps[i]);
        let mut b2 = self.check_pats(db, p, ps, tps, i + 1);
        let ghost v1 = b1@;
        let ghost v2 = b2@;
        b1.append(&mut b2);
        proof {
            assert(b1@ == v1 + v2);
            assert forall|k: int| 0 <= k < b1@.len() implies (#[trigger] b1@[k]).1.tp.0 < self@.types.len() by {
                if k < v1.len() {
                    assert(b1@[k] == v1[k]);
                } else {
                    assert(b1@[k] == v2[k - v1.len()]);
                }
            }
        }
        b1
    }
}

/// The types entered stay as they were and new ones come after them; the
/// reports made stay and new ones come after them; the scopes are as they
/// were.
pub open spec fn grown(o: EnvV, f: EnvV) -> bool {
    &&& o.types.len() <= f.types.len()
    &&& forall|i: int| 0 <= i < o.types.len() ==> #[trigger] f.types[i] == o.types[i]
    &&& o.diags.len() <= f.diags.len()
    &&& forall|i: int| 0 <= i < o.diags.len() ==> #[trigger] f.diags[i] == o.diags[i]
    &&& f.scopes == o.scopes
}

/// Whether a text is `len`.
pub(crate) fn is_len(s: &str) -> (b: bool)
    ensures
        b == (s@ == "len"@),
{
    proof {
        reveal_strlit("len");
    }
    let n = s.unicode_len();
    if n != 3 {
        return false;
    }
    let r = s.get_char(0) == 'l' && s.get_char(1) == 'e' && s.get_char(2) == 'n';
    proof {
        if r {
            assert(s@ =~= "len"@);
        }
    }
    r
}

/// The expressions given for field `x`.
pub fn named_exec(items: &Vec<(Ident, ExprId)>, x: Ident) -> (r: Vec<ExprId>)
    ensures
        r@ == named(items@, x, items@.len() as int),
        forall|k: int| 0 <= k < r@.len() ==> exists|j: int| 0 <= j < items@.len() && (#[trigger] r@[k]) == items@[j].1,
{
    let mut r: Vec<ExprId> = Vec::new();
    for i in 0..items.len()
        invariant
            r@ == named(items@, x, i as int),
            forall|k: int| 0 <= k < r@.len() ==> exists|j: int| 0 <= j < items@.len() && (#[trigger] r@[k]) == items@[j].1,
    {
        if items[i].0 == x {
            r.push(items[i].1);
            proof {
                assert forall|k: int| 0 <= k < r@.len() implies exists|j: int| 0 <= j < items@.len() && (#[trigger] r@[k]) == items@[j].1 by {
                    if k == r@.len() - 1 {
                        assert(r@[k] == items@[i as int].1);
                    }
                }
            }
        }
    }
    r
}

/// The type of field `x` among `fs`, if there is one.
pub fn field_lookup_exec(fs: &Vec<(Ident, (usize, TypeId))>, x: Ident) -> (r: Option<(usize, TypeId)>)
    ensures
        r == field_lookup(fs@, x),
{
    let mut i = fs.len();
    assert(fs@.take(i as int) =~= fs@);
    while i > 0
        invariant
            i <= fs@.len(),
            field_lookup(fs@, x) == field_lookup(fs@.take(i as int), x),
        decreases i,
    {
        assert(fs@.take(i as int).drop_last() =~= fs@.take(i - 1));
        if fs[i - 1].0 == x {
            return Some(fs[i - 1].1);
        }
        i = i - 1;
    }
    None
}

impl Env {
    /// Checks that `e` has type `tp`; a mismatch is reported at `e`.
    pub fn check_expr(&mut self, db: &Db, e: ExprId, tp: TypeId, exp_mut: bool)
        requires
            old(self).wf(*db),
            e.0 < db.exprs@.len(),
            struct_names_ok(*db, old(self).source, e),
            tp.0 < old(self)@.types.len(),
        ensures
            final(self)@ == check_spec(*db, old(self).source, old(self)@, e, tp, exp_mut),
            final(self).wf(*db),
            final(self).source == old(self).source,
            grown(old(self)@, final(self)@),
        decreases e.0, 4int, 0int,
    {
        let (ti, mi) = self.infer_expr(db, e);
        let ok = self.coerce_into(db, ti, tp);
        if !(ok && (!exp_mut || mi)) {
            let d = Diagnostic::type_mismatch(db, db.exprs[e.0].span, tp, ti, self.source);
            self.push_diag(Ghost(*db), d);
        }
    }

    /// The type of `e` and whether it may be assigned; the type is recorded
    /// for `e`, and type errors are reported.
    pub fn infer_expr(&mut self, db: &Db, e: ExprId) -> (r: (TypeId, bool))
        requires
            old(self).wf(*db),
            e.0 < db.exprs@.len(),
            struct_names_ok(*db, old(self).source, e),
        ensures
            (r.0, r.1, final(self)@) == infer_spec(*db, old(self).source, old(self)@, e),
            final(self).wf(*db),
            final(self).source == old(self).source,
            r.0.0 < final(self)@.types.len(),
            grown(old(self)@, final(self)@),
        decreases e.0, 3int, 0int,
    {
        proof {
            lemma_expr_ok(*db, self@.types.len(), e);
        }
        match &db.exprs[e.0].data {
            ExprData::FnCall(f, args) => {
                proof {
                    let ch = expr_children(expr_at(*db, e));
                    assert(ch[0] == *f);
                    assert forall|k: int| 0 <= k < args@.len() && (#[trigger] args@[k]).0 < e.0 implies struct_names_ok(*db, self.source, args@[k]) by {
                        assert(ch[k + 1] == args@[k]);
                    }
                }
                self.infer_call(db, e, *f, args)
            },
            _ => {
                let (t, m) = self.infer_node(db, e);
                self.record(Ghost(*db), e, t);
                (t, m)
            },
        }
    }

    /// A call: the callee must have a function type, and each argument is
    /// checked against its parameter.
    fn infer_call(&mut self, db: &Db, e: ExprId, f: ExprId, args: &Vec<ExprId>) -> (r: (TypeId, bool))
        requires
            old(self).wf(*db),
            e.0 < db.exprs@.len(),
            f.0 < e.0,
            below(args@, e),
            struct_names_ok(*db, old(self).source, f),
            forall|k: int| 0 <= k < args@.len() && (#[trigger] args@[k]).0 < e.0 ==> struct_names_ok(*db, old(self).source, args@[k]),
        ensures
            (r.0, r.1, final(self)@) == infer_call_spec(*db, old(self).source, old(self)@, e, f, args@),
            final(self).wf(*db),
            final(self).source == old(self).source,
            r.0.0 < final(self)@.types.len(),
            grown(old(self)@, final(self)@),
        decreases e.0, 1int, 0int,
    {
        let (ft, _) = self.infer_expr(db, f);
        let d = self.types.get(ft);
        match d {
            TypeData::Fn(sig) => {
                proof {
                    let dv = TypeDataV::Fn(sig.args@, sig.ret);
                    assert forall|k: int| 0 <= k < sig.args@.len() implies (#[trigger] sig.args@[k]).0 < self@.types.len() by {
                        assert(type_children(dv)[k] == sig.args@[k]);
                    }
                    assert(type_children(dv)[sig.args@.len() as int] == sig.ret);
                }
                self.check_args(db, e, args, &sig.args, 0);
                if args.len() < sig.args.len() {
                    let dg = Diagnostic::missing_argument(db, args.len(), db.exprs[e.0].span, sig.args[args.len()], self.source);
                    self.push_diag(Ghost(*db), dg);
                }
                self.record(Ghost(*db), e, sig.ret);
                (sig.ret, false)
            },
            _ => {
                let dg = Diagnostic::not_a_function(db, db.exprs[f.0].span, self.source);
                self.push_diag(Ghost(*db), dg);
                let t = self.wrap_type(Ghost(*db), TypeData::Error);
                (t, true)
            },
        }
    }

    fn check_args(&mut self, db: &Db, e: ExprId, args: &Vec<ExprId>, params: &Vec<TypeId>, i: usize)
        requires
            old(self).wf(*db),
            e.0 < db.exprs@.len(),
            forall|k: int| 0 <= k < params@.len() ==> (#[trigger] params@[k]).0 < old(self)@.types.len(),
            forall|k: int| 0 <= k < args@.len() && (#[trigger] args@[k]).0 < e.0 ==> struct_names_ok(*db, old(self).source, args@[k]),
        ensures
            final(self)@ == check_args_spec(*db, old(self).source, old(self)@, e, args@, params@, i as int),
            final(self).wf(*db),
            final(self).source == old(self).source,
            grown(old(self)@, final(self)@),
        decreases e.0, 0int, args@.len() - i,
    {
        if i >= args.len() || args[i].0 >= e.0 {
            return;
        }
        if i < params.len() {
            self.check_expr(db, args[i], params[i], false);
        } else {
            let dg = Diagnostic::unexpected_argument(db, i + 1, db.exprs[args[i].0].span, self.source);
            self.push_diag(Ghost(*db), dg);
        }
        self.check_args(db, e, args, params, i + 1);
    }

    fn infer_list(&mut self, db: &Db, e: ExprId, es: &Vec<ExprId>, i: usize) -> (r: Vec<TypeId>)
        requires
            old(self).wf(*db),
            e.0 < db.exprs@.len(),
            forall|k: int| 0 <= k < es@.len() && (#[trigger] es@[k]).0 < e.0 ==> struct_names_ok(*db, old(self).source, es@[k]),
        ensures
            (r@, final(self)@) == infer_list_spec(*db, old(self).source, old(self)@, e, es@, i as int),
            final(self).wf(*db),
            final(self).source == old(self).source,
            grown(old(self)@, final(self)@),
            forall|k: int| 0 <= k < r@.len() ==> (#[trigger] r@[k]).0 < final(self)@.types.len(),
        decreases e.0, 0int, es@.len() - i,
    {
        if i >= es.len() || es[i].0 >= e.0 {
            return Vec::new();
        }
        let (t, _) = self.infer_expr(db, es[i]);
        let rest = self.infer_list(db, e, es, i + 1);
        let mut r: Vec<TypeId> = Vec::new();
        r.push(t);
        let mut rest = rest;
        r.append(&mut rest);
        assert(r@ =~= seq![t] + infer_list_spec(*db, self.source, old(self)@, e, es@, i as int).0.subrange(1, r@.len() as int));
        r
    }

    fn check_list(&mut self, db: &Db, e: ExprId, es: &Vec<ExprId>, tp: TypeId, i: usize)
        requires
            old(self).wf(*db),
            e.0 < db.exprs@.len(),
            forall|k: int| 0 <= k < es@.len() && (#[trigger] es@[k]).0 < e.0 ==> struct_names_ok(*db, old(self).source, es@[k]),
            tp.0 < old(self)@.types.len(),
        ensures
            final(self)@ == check_list_spec(*db, old(self).source, old(self)@, e, es@, tp, i as int),
            final(self).wf(*db),
            final(self).source == old(self).source,
            grown(old(self)@, final(self)@),
        decreases e.0, 0int, es@.len() - i,
    {
        if i >= es.len() || es[i].0 >= e.0 {
            return;
        }
        self.check_expr(db, es[i], tp, false);
        self.check_list(db, e, es, tp, i + 1);
    }

    fn check_fields(
        &mut self,
        db: &Db,
        e: ExprId,
        fs: &Vec<(Ident, (usize, TypeId))>,
        items: &Vec<(Ident, ExprId)>,
        j: usize,
    )
        requires
            old(self).wf(*db),
            e.0 < db.exprs@.len(),
            forall|k: int| 0 <= k < fs@.len() ==> (#[trigger] fs@[k]).0.0 < db.idents@.len() && fs@[k].1.1.0 < old(self)@.types.len(),
            forall|k: int| 0 <= k < items@.len() && (#[trigger] items@[k]).1.0 < e.0 ==> struct_names_ok(*db, old(self).source, items@[k].1),
        ensures
            final(self)@ == check_fields_spec(*db, old(self).source, old(self)@, e, fs@, items@, j as int),
            final(self).wf(*db),
            final(self).source == old(self).source,
            grown(old(self)@, final(self)@),
        decreases e.0, 0int, fs@.len() - j,
    {
        if j >= fs.len() {
            return;
        }
        let ms = named_exec(items, fs[j].0);
        if ms.len() == 1 {
            if ms[0].0 < e.0 {
                proof {
                    let k = choose|k: int| 0 <= k < items@.len() && ms@[0] == items@[k].1;
                    assert(items@[k].1 == ms@[0]);
                }
                self.check_expr(db, ms[0], fs[j].1.1, false);
            }
        } else if ms.len() >= 2 {
            let dg = Diagnostic::duplicate_field(db, db.exprs[e.0].span, fs[j].0, self.source);
            self.push_diag(Ghost(*db), dg);
        } else {
            let dg = Diagnostic::missing_field(db, db.exprs[e.0].span, fs[j].0, self.source);
            self.push_diag(Ghost(*db), dg);
        }
        self.check_fields(db, e, fs, items, j + 1);
    }
}

impl Env {
    /// The type of `e`, which is not a call, before it is recorded.
    #[verifier::spinoff_prover]
    #[verifier::rlimit(60)]
    fn infer_node(&mut self, db: &Db, e: ExprId) -> (r: (TypeId, bool))
        requires
            old(self).wf(*db),
            e.0 < db.exprs@.len(),
            !(expr_at(*db, e) is FnCall),
            struct_names_ok(*db, old(self).source, e),
        ensures
            (r.0, r.1, final(self)@) == infer_node_spec(*db, old(self).source, old(self)@, e),
            final(self).wf(*db),
            final(self).source == old(self).source,
            r.0.0 < final(self)@.types.len(),
            grown(old(self)@, final(self)@),
        decreases e.0, 2int, 0int,
    {
        proof {
            lemma_expr_ok(*db, self@.types.len(), e);
        }
        let ghost st = self@;
        let ghost ch = expr_children(expr_at(*db, e));
        match &db.exprs[e.0].data {
            ExprData::Number(_) => {
                let t = self.new_numeric_var(db);
                (t, false)
            },
            ExprData::Char(_) => {
                let t = self.wrap_type(Ghost(*db), TypeData::Primitive(bytecode::Type::UInt8));
                (t, false)
            },
            ExprData::Str(l) => {
                let u = self.wrap_type(Ghost(*db), TypeData::Primitive(bytecode::Type::UInt8));
                let n = db.strs[l.0].as_str().len();
                proof {
                    crate::input::lemma_utf8_len_encode(db.strs@[l.0 as int]@);
                }
                let n1: usize = n.wrapping_add(1);
                assert(type_children(TypeDataV::Array(n1, u))[0] == u);
                let t = self.wrap_type(Ghost(*db), TypeData::Array(n1, u));
                (t, false)
            },
            ExprData::Bool(_) => {
                let t = self.wrap_type(Ghost(*db), TypeData::Primitive(bytecode::Type::Bool));
                (t, false)
            },
            ExprData::Binop(op, a, b) => {
                assert(ch[0] == *a && ch[1] == *b);
                self.infer_binop(db, e, *op, *a, *b)
            },
            ExprData::Unop(op, a) => {
                assert(ch[0] == *a);
                self.infer_unop(db, e, *op, *a)
            },
            ExprData::Let(p, a, b) => {
                assert(ch[0] == *a && ch[1] == *b);
                self.infer_let(db, e, *p, *a, *b)
            },
            ExprData::Var(x) => {
                match self.get_var(db, *x) {
                    Some(b) => (b.tp, b.is_mut),
                    None => {
                        let t = self.wrap_type(Ghost(*db), TypeData::Error);
                        (t, true)
                    },
                }
            },
            ExprData::FnCall(_, _) => {
                assert(false);
                (TypeId(0), false)
            },
            ExprData::Error => {
                let t = self.wrap_type(Ghost(*db), TypeData::Error);
                (t, true)
            },
            ExprData::If(c, t, el) => {
                assert(ch[0] == *c && ch[1] == *t);
                if let Some(x) = el {
                    assert(ch[2] == *x);
                }
                self.infer_if(db, e, *c, *t, *el)
            },
            ExprData::While(c, b) => {
                assert(ch[0] == *c && ch[1] == *b);
                let bt = self.wrap_type(Ghost(*db), TypeData::Primitive(bytecode::Type::Bool));
                self.check_expr(db, *c, bt, false);
                let _ = self.infer_expr(db, *b);
                let u = self.wrap_type(Ghost(*db), TypeData::Tuple(Vec::new()));
                (u, false)
            },
            ExprData::Assign(a, b) => {
                assert(ch[0] == *a && ch[1] == *b);
                let (t, m) = self.infer_expr(db, *a);
                if !m {
                    let dg = Diagnostic::cannot_assign(db, db.exprs[a.0].span, self.source);
                    self.push_diag(Ghost(*db), dg);
                }
                self.check_expr(db, *b, t, false);
                let u = self.wrap_type(Ghost(*db), TypeData::Tuple(Vec::new()));
                (u, false)
            },
            ExprData::Deref(a) => {
                assert(ch[0] == *a);
                let (t, _) = self.infer_expr(db, *a);
                match self.types.get(t) {
                    TypeData::Ptr(t2, m2) => {
                        assert(type_children(self@.types[t.0 as int])[0] == t2);
                        (t2, m2)
                    },
                    _ => {
                        let dg = Diagnostic::cannot_dereference(db, db.exprs[a.0].span, self.source);
                        self.push_diag(Ghost(*db), dg);
                        let t = self.wrap_type(Ghost(*db), TypeData::Error);
                        (t, true)
                    },
                }
            },
            ExprData::AddressOf(a) => {
                assert(ch[0] == *a);
                let (t, m) = self.infer_expr(db, *a);
                assert(type_children(TypeDataV::Ptr(t, m))[0] == t);
                let p = self.wrap_type(Ghost(*db), TypeData::Ptr(t, m));
                (p, false)
            },
            ExprData::Tuple(es) => {
                assert forall|k: int| 0 <= k < es@.len() && (#[trigger] es@[k]).0 < e.0 implies struct_names_ok(*db, self.source, es@[k]) by {
                    assert(ch[k] == es@[k]);
                }
                let ts = self.infer_list(db, e, es, 0);
                let t = self.wrap_type(Ghost(*db), TypeData::Tuple(ts));
                (t, false)
            },
            ExprData::Sequence(a, b) => {
                assert(ch[0] == *a && ch[1] == *b);
                let _ = self.infer_expr(db, *a);
                self.infer_expr(db, *b)
            },
            ExprData::Struct(name, items) => {
                assert(db.exprs@[e.0 as int].data matches ExprData::Struct(n, _) ==> names_struct(*db, self.source, n));
                let fs = struct_fields(db, self.source, *name);
                proof {
                    let s = module_map(*db, self.source.0 as int)[*name]->Type_0;
                    crate::resolve::lemma_module_map_valid(*db, self.source.0 as int, *name);
                    let ffs = db.structs@[s.0 as int].fields@;
                    lemma_last_fields_from(ffs, ffs.len() as int);
                    assert forall|k: int| 0 <= k < fs@.len() implies (#[trigger] fs@[k]).0.0 < db.idents@.len() && fs@[k].1.1.0 < self@.types.len() by {
                        let j = choose|j: int| 0 <= j < ffs.len() && j < ffs.len() && last_fields(ffs, ffs.len() as int)[k] == (ffs[j].0, (j as usize, ffs[j].1));
                        assert(ffs[j] == db.structs@[s.0 as int].fields@[j]);
                    }
                }
                assert forall|k: int| 0 <= k < items@.len() && (#[trigger] items@[k]).1.0 < e.0 implies struct_names_ok(*db, self.source, items@[k].1) by {
                    assert(ch[k] == items@[k].1);
                }
                self.check_fields(db, e, &fs, items, 0);
                let t = self.wrap_type(Ghost(*db), TypeData::Var(self.source, *name));
                (t, false)
            },
            ExprData::Field(a, x) => {
                assert(ch[0] == *a);
                self.infer_field(db, e, *a, *x)
            },
            ExprData::Array(es) => {
                assert forall|k: int| 0 <= k < es@.len() implies struct_names_ok(*db, self.source, #[trigger] es@[k]) by {
                    assert(ch[k] == es@[k]);
                    assert(es@[k].0 < e.0);
                }
                self.infer_array(db, e, es)
            },
            ExprData::Index(a, b) => {
                assert(ch[0] == *a && ch[1] == *b);
                self.infer_index(db, e, *a, *b)
            },
            ExprData::Range(a, b) => {
                assert(ch[0] == *a && ch[1] == *b);
                let u1 = self.wrap_type(Ghost(*db), TypeData::Primitive(bytecode::Type::UInt64));
                self.check_expr(db, *a, u1, false);
                let u2 = self.wrap_type(Ghost(*db), TypeData::Primitive(bytecode::Type::UInt64));
                self.check_expr(db, *b, u2, false);
                let r = self.wrap_type(Ghost(*db), TypeData::Range);
                (r, false)
            },
            ExprData::Cast(a, t) => {
                assert(ch[0] == *a);
                let _ = self.infer_expr(db, *a);
                (*t, false)
            },
        }
    }
}

impl Env {
    fn infer_binop(&mut self, db: &Db, e: ExprId, op: Binop, a: ExprId, b: ExprId) -> (r: (TypeId, bool))
        requires
            old(self).wf(*db),
            e.0 < db.exprs@.len(),
            a.0 < e.0,
            b.0 < e.0,
            struct_names_ok(*db, old(self).source, a),
            struct_names_ok(*db, old(self).source, b),
        ensures
            (r.0, r.1, final(self)@) == infer_binop_spec(*db, old(self).source, old(self)@, e, op, a, b),
            final(self).wf(*db),
            final(self).source == old(self).source,
            r.0.0 < final(self)@.types.len(),
            grown(old(self)@, final(self)@),
        decreases e.0, 1int, 0int,
    {
        match op {
            Binop::And | Binop::Or => {
                let t1 = self.wrap_type(Ghost(*db), TypeData::Primitive(bytecode::Type::Bool));
                self.check_expr(db, a, t1, false);
                let t2 = self.wrap_type(Ghost(*db), TypeData::Primitive(bytecode::Type::Bool));
                self.check_expr(db, b, t2, false);
                let t = self.wrap_type(Ghost(*db), TypeData::Primitive(bytecode::Type::Bool));
                (t, false)
            },
            _ => {
                let n = self.new_numeric_var(db);
                self.check_expr(db, a, n, false);
                self.check_expr(db, b, n, false);
                match op {
                    Binop::Add | Binop::Sub | Binop::Mul | Binop::Div | Binop::Mod => (n, false),
                    _ => {
                        let t = self.wrap_type(Ghost(*db), TypeData::Primitive(bytecode::Type::Bool));
                        (t, false)
                    },
                }
            },
        }
    }

    fn infer_unop(&mut self, db: &Db, e: ExprId, op: Unop, a: ExprId) -> (r: (TypeId, bool))
        requires
            old(self).wf(*db),
            e.0 < db.exprs@.len(),
            a.0 < e.0,
            struct_names_ok(*db, old(self).source, a),
        ensures
            (r.0, r.1, final(self)@) == infer_unop_spec(*db, old(self).source, old(self)@, e, op, a),
            final(self).wf(*db),
            final(self).source == old(self).source,
            r.0.0 < final(self)@.types.len(),
            grown(old(self)@, final(self)@),
        decreases e.0, 1int, 0int,
    {
        match op {
            Unop::Neg => {
                let n = self.new_numeric_var(db);
                self.check_expr(db, a, n, false);
                (n, false)
            },
            Unop::Not => {
                let t1 = self.wrap_type(Ghost(*db), TypeData::Primitive(bytecode::Type::Bool));
                self.check_expr(db, a, t1, false);
                let t = self.wrap_type(Ghost(*db), TypeData::Primitive(bytecode::Type::Bool));
                (t, false)
            },
        }
    }

    fn infer_let(&mut self, db: &Db, e: ExprId, p: PatternId, a: ExprId, b: ExprId) -> (r: (TypeId, bool))
        requires
            old(self).wf(*db),
            e.0 < db.exprs@.len(),
            a.0 < e.0,
            b.0 < e.0,
            p.0 < db.patterns@.len(),
            struct_names_ok(*db, old(self).source, a),
            struct_names_ok(*db, old(self).source, b),
        ensures
            (r.0, r.1, final(self)@) == infer_let_spec(*db, old(self).source, old(self)@, e, p, a, b),
            final(self).wf(*db),
            final(self).source == old(self).source,
            r.0.0 < final(self)@.types.len(),
            grown(old(self)@, final(self)@),
        decreases e.0, 1int, 0int,
    {
        let (t1, _) = self.infer_expr(db, a);
        self.push_scope(db);
        let bs = self.check_pat(db, p, t1);
        let ghost s3 = self@;
        self.extend(db, bs);
        proof {
            assert(self@.scopes.len() == s3.scopes.len());
        }
        let (t, m) = self.infer_expr(db, b);
        self.pop_scope(db);
        proof {
            assert(self@.scopes =~= old(self)@.scopes);
        }
        (t, m)
    }

    fn infer_if(&mut self, db: &Db, e: ExprId, c: ExprId, t: ExprId, el: Option<ExprId>) -> (r: (TypeId, bool))
        requires
            old(self).wf(*db),
            e.0 < db.exprs@.len(),
            c.0 < e.0,
            t.0 < e.0,
            el matches Some(x) ==> x.0 < e.0,
            struct_names_ok(*db, old(self).source, c),
            struct_names_ok(*db, old(self).source, t),
            el matches Some(x) ==> struct_names_ok(*db, old(self).source, x),
        ensures
            (r.0, r.1, final(self)@) == infer_if_spec(*db, old(self).source, old(self)@, e, c, t, el),
            final(self).wf(*db),
            final(self).source == old(self).source,
            r.0.0 < final(self)@.types.len(),
            grown(old(self)@, final(self)@),
        decreases e.0, 1int, 0int,
    {
        let bt = self.wrap_type(Ghost(*db), TypeData::Primitive(bytecode::Type::Bool));
        self.check_expr(db, c, bt, false);
        let (tt, _) = self.infer_expr(db, t);
        match el {
            Some(x) => {
                self.check_expr(db, x, tt, false);
                (tt, false)
            },
            None => {
                let u = self.wrap_type(Ghost(*db), TypeData::Tuple(Vec::new()));
                let ok = self.coerce_into(db, tt, u);
                if !ok {
                    let dg = Diagnostic::missing_else_branch(db, db.exprs[e.0].span, tt, self.source);
                    self.push_diag(Ghost(*db), dg);
                }
                (tt, false)
            },
        }
    }

    fn infer_field(&mut self, db: &Db, e: ExprId, a: ExprId, x: Ident) -> (r: (TypeId, bool))
        requires
            old(self).wf(*db),
            e.0 < db.exprs@.len(),
            a.0 < e.0,
            x.0 < db.idents@.len(),
            struct_names_ok(*db, old(self).source, a),
        ensures
            (r.0, r.1, final(self)@) == infer_field_spec(*db, old(self).source, old(self)@, e, a, x),
            final(self).wf(*db),
            final(self).source == old(self).source,
            r.0.0 < final(self)@.types.len(),
            grown(old(self)@, final(self)@),
        decreases e.0, 1int, 0int,
    {
        let (t, m) = self.infer_expr(db, a);
        let r = self.weak_resolve(db, t);
        let d = self.types.get(r);
        match d {
            TypeData::Error => {
                let t2 = self.wrap_type(Ghost(*db), TypeData::Error);
                return (t2, true);
            },
            TypeData::Var(sf, tv) => {
                let fs = struct_fields(db, sf, tv);
                match field_lookup_exec(&fs, x) {
                    Some(f) => {
                        proof {
                            let s = module_map(*db, sf.0 as int)[tv]->Type_0;
                            crate::resolve::lemma_module_map_valid(*db, sf.0 as int, tv);
                            let ffs = db.structs@[s.0 as int].fields@;
                            lemma_last_fields_from(ffs, ffs.len() as int);
                            lemma_field_lookup_in(fs@, x);
                            let k = choose|k: int| 0 <= k < fs@.len() && fs@[k].1 == f;
                            let j = choose|j: int| 0 <= j < ffs.len() && j < ffs.len() && last_fields(ffs, ffs.len() as int)[k] == (ffs[j].0, (j as usize, ffs[j].1));
                            assert(ffs[j] == db.structs@[s.0 as int].fields@[j]);
                        }
                        return (f.1, m);
                    },
                    None => {},
                }
            },
            TypeData::Slice(_, _) => {
                if is_len(db.idents[x.0].as_str()) {
                    let t2 = self.wrap_type(Ghost(*db), TypeData::Primitive(bytecode::Type::UInt64));
                    return (t2, false);
                }
            },
            _ => {},
        }
        let dg = Diagnostic::no_field_on_type(db, db.exprs[e.0].span, x, t, self.source);
        self.push_diag(Ghost(*db), dg);
        let t2 = self.wrap_type(Ghost(*db), TypeData::Error);
        (t2, true)
    }

    fn infer_array(&mut self, db: &Db, e: ExprId, es: &Vec<ExprId>) -> (r: (TypeId, bool))
        requires
            old(self).wf(*db),
            e.0 < db.exprs@.len(),
            below(es@, e),
            forall|k: int| 0 <= k < es@.len() ==> struct_names_ok(*db, old(self).source, #[trigger] es@[k]),
        ensures
            (r.0, r.1, final(self)@) == infer_array_spec(*db, old(self).source, old(self)@, e, es@),
            final(self).wf(*db),
            final(self).source == old(self).source,
            r.0.0 < final(self)@.types.len(),
            grown(old(self)@, final(self)@),
        decreases e.0, 1int, 0int,
    {
        let n = es.len();
        if n == 0 {
            let u = self.wrap_type(Ghost(*db), TypeData::Tuple(Vec::new()));
            return (u, false);
        }
        let (t, _) = self.infer_expr(db, es[0]);
        let mut rest: Vec<ExprId> = Vec::new();
        if n > 1 {
            rest.push(es[n - 1]);
            let mut k: usize = 1;
            while k < n - 1
                invariant
                    n == es@.len(),
                    1 <= k <= n - 1,
                    rest@ == seq![es@[n - 1]] + es@.subrange(1, k as int),
                decreases n - 1 - k,
            {
                rest.push(es[k]);
                assert(rest@ =~= seq![es@[n - 1]] + es@.subrange(1, k + 1));
                k = k + 1;
            }
        }
        assert(rest@ =~= array_rest(es@));
        assert forall|k: int| 0 <= k < rest@.len() && (#[trigger] rest@[k]).0 < e.0 implies struct_names_ok(*db, self.source, rest@[k]) by {
            if k == 0 {
                assert(rest@[k] == es@[n - 1]);
            } else {
                assert(rest@[k] == es@[k]);
            }
        }
        self.check_list(db, e, &rest, t, 0);
        assert(type_children(TypeDataV::Array(n, t))[0] == t);
        let a = self.wrap_type(Ghost(*db), TypeData::Array(n, t));
        (a, false)
    }

    fn infer_index(&mut self, db: &Db, e: ExprId, a: ExprId, b: ExprId) -> (r: (TypeId, bool))
        requires
            old(self).wf(*db),
            e.0 < db.exprs@.len(),
            a.0 < e.0,
            b.0 < e.0,
            struct_names_ok(*db, old(self).source, a),
            struct_names_ok(*db, old(self).source, b),
        ensures
            (r.0, r.1, final(self)@) == infer_index_spec(*db, old(self).source, old(self)@, e, a, b),
            final(self).wf(*db),
            final(self).source == old(self).source,
            r.0.0 < final(self)@.types.len(),
            grown(old(self)@, final(self)@),
        decreases e.0, 1int, 0int,
    {
        let (t, m) = self.infer_expr(db, a);
        let r = self.weak_resolve(db, t);
        let (et, em) = match self.types.get(r) {
            TypeData::Error => {
                let t2 = self.wrap_type(Ghost(*db), TypeData::Error);
                (t2, true)
            },
            TypeData::Slice(t2, m2) => {
                assert(type_children(self@.types[r.0 as int])[0] == t2);
                (t2, m2)
            },
            TypeData::Array(_, t2) => {
                assert(type_children(self@.types[r.0 as int])[0] == t2);
                (t2, m)
            },
            _ => {
                let dg = Diagnostic::cannot_index(db, db.exprs[a.0].span, self.source);
                self.push_diag(Ghost(*db), dg);
                let t2 = self.wrap_type(Ghost(*db), TypeData::Error);
                (t2, true)
            },
        };
        let (it, _) = self.infer_expr(db, b);
        let ir = self.weak_resolve(db, it);
        match self.types.get(ir) {
            TypeData::Error => {
                let t2 = self.wrap_type(Ghost(*db), TypeData::Error);
                (t2, true)
            },
            TypeData::Range => {
                assert(type_children(TypeDataV::Slice(et, em))[0] == et);
                let sl = self.wrap_type(Ghost(*db), TypeData::Slice(et, em));
                (sl, false)
            },
            TypeData::Primitive(bytecode::Type::UInt64) => (et, em),
            TypeData::Infer(v) => {
                let u = self.wrap_type(Ghost(*db), TypeData::Primitive(bytecode::Type::UInt64));
                let _ = self.bind_var(db, v, u);
                (et, em)
            },
            _ => {
                let dg = Diagnostic::cannot_index_with(db, db.exprs[b.0].span, self.source);
                self.push_diag(Ghost(*db), dg);
                let t2 = self.wrap_type(Ghost(*db), TypeData::Error);
                (t2, true)
            },
        }
    }
}

/// A field that `field_lookup` finds is one of the fields.
pub proof fn lemma_field_lookup_in(fs: Seq<(Ident, (usize, TypeId))>, x: Ident)
    ensures
        field_lookup(fs, x) matches Some(f) ==> exists|k: int| 0 <= k < fs.len() && fs[k].1 == f,
    decreases fs.len(),
{
    if fs.len() > 0 && fs.last().0 != x {
        lemma_field_lookup_in(fs.drop_last(), x);
        if let Some(f) = field_lookup(fs, x) {
            let k = choose|k: int| 0 <= k < fs.drop_last().len() && fs.drop_last()[k].1 == f;
            assert(fs[k] == fs.drop_last()[k]);
        }
    } else if fs.len() > 0 {
        assert(fs[fs.len() - 1].1 == fs.last().1);
    }
}

/// Whether two lists of types are the same.
fn same_types(a: &Vec<TypeId>, b: &Vec<TypeId>) -> (r: bool)
    ensures
        r == (a@ == b@),
{
    if a.len() != b.len() {
        return false;
    }
    let mut i: usize = 0;
    while i < a.len()
        invariant
            a@.len() == b@.len(),
            i <= a@.len(),
            forall|k: int| 0 <= k < i ==> a@[k] == b@[k],
        decreases a@.len() - i,
    {
        if a[i] != b[i] {
            return false;
        }
        i = i + 1;
    }
    assert(a@ =~= b@);
    true
}

/// The result of inference refers to types that exist: one entry per
/// expression, and a well-formed type table.
pub open spec fn result_ok(db: Db, r: InferenceResult) -> bool {
    &&& layout_ctx_ok(db, r.types@)
    &&& r.type_map@.len() == db.exprs@.len()
    &&& forall|k: int| 0 <= k < r.type_map@.len() ==> ((#[trigger] r.type_map@[k]) matches Some(t) ==> t.0 < r.types@.len())
}

impl Env {
    /// `tp` with every variable replaced by what it stands for.
    pub fn zonk(&mut self, db: &Db, tp: TypeId) -> (r: TypeId)
        requires
            old(self).wf(*db),
            tp.0 < old(self)@.types.len(),
        ensures
            (r, final(self)@) == zonk_spec(old(self)@, tp, old(self)@.types.len()),
            final(self).wf(*db),
            final(self).source == old(self).source,
            r.0 < final(self)@.types.len(),
            grown(old(self)@, final(self)@),
            final(self)@.type_map == old(self)@.type_map,
            final(self)@.unif == old(self)@.unif,
            zonk_within(old(self)@, tp, old(self)@.types.len()) ==> infer_free(
                final(self)@.types,
                r,
                old(self)@.types.len(),
            ),
    {
        let fuel = self.types.data.len() as u64;
        self.zonk_fuel(db, tp, fuel)
    }

    fn zonk_fuel(&mut self, db: &Db, tp: TypeId, fuel: u64) -> (r: TypeId)
        requires
            old(self).wf(*db),
            tp.0 < old(self)@.types.len(),
        ensures
            (r, final(self)@) == zonk_spec(old(self)@, tp, fuel as nat),
            final(self).wf(*db),
            final(self).source == old(self).source,
            r.0 < final(self)@.types.len(),
            grown(old(self)@, final(self)@),
            final(self)@.type_map == old(self)@.type_map,
            final(self)@.unif == old(self)@.unif,
            zonk_within(old(self)@, tp, fuel as nat) ==> infer_free(final(self)@.types, r, fuel as nat),
        decreases fuel, 1int, 0int,
    {
        if fuel == 0 {
            return tp;
        }
        let ghost s0 = self@;
        let t = self.weak_resolve(db, tp);
        let d = self.types.get(t);
        proof {
            assert forall|k: int| 0 <= k < type_children(d@).len() implies (#[trigger] type_children(d@)[k]).0 < self@.types.len() by {
                assert(type_children(self@.types[t.0 as int])[k].0 < t.0);
            }
        }
        let ghost f1 = (fuel - 1) as nat;
        match d {
            TypeData::Infer(v) => match self.unif_table.probe_value(v) {
                InferValue::Numeric => self.wrap_type(Ghost(*db), TypeData::Primitive(bytecode::Type::Int64)),
                InferValue::Bound(b) => {
                    let r = self.zonk_fuel(db, b, fuel - 1);
                    proof {
                        if zonk_within(s0, tp, fuel as nat) {
                            lemma_infer_free_deeper(self@.types, r, f1);
                        }
                    }
                    r
                },
                InferValue::Unbound => self.wrap_type(Ghost(*db), TypeData::Error),
            },
            TypeData::Fn(sig) => {
                let ghost dv = TypeDataV::Fn(sig.args@, sig.ret);
                proof {
                    assert forall|k: int| 0 <= k < sig.args@.len() implies (#[trigger] sig.args@[k]).0 < self@.types.len() by {
                        assert(type_children(dv)[k] == sig.args@[k]);
                    }
                    assert(type_children(dv)[sig.args@.len() as int] == sig.ret);
                    if zonk_within(s0, tp, fuel as nat) {
                        assert forall|k: int| 0 <= k < sig.args@.len() implies zonk_within(s0, #[trigger] sig.args@[k], f1) by {
                            assert(type_children(dv)[k] == sig.args@[k]);
                        }
                    }
                }
                let zs = self.zonk_list(db, &sig.args, 0, fuel - 1);
                let ghost s1 = self@;
                proof {
                    lemma_zonk_within_extend(s0, s1, sig.ret, f1);
                }
                let zr = self.zonk_fuel(db, sig.ret, fuel - 1);
                let same = same_types(&zs, &sig.args) && zr == sig.ret;
                let nd = TypeData::Fn(FnSig { args: zs, ret: zr });
                let ghost s2 = self@;
                proof {
                    assert forall|k: int| 0 <= k < type_children(nd@).len() implies (#[trigger] type_children(nd@)[k]).0 < self@.types.len() by {
                        if k < nd@->Fn_0.len() {
                            assert(type_children(nd@)[k] == zs@[k]);
                        }
                    }
                    if zonk_within(s0, tp, fuel as nat) {
                        assert(zonk_within(s0, sig.ret, f1));
                        assert forall|k: int| 0 <= k < type_children(nd@).len() implies infer_free(s2.types, #[trigger] type_children(nd@)[k], f1) by {
                            if k < zs@.len() {
                                assert(type_children(nd@)[k] == zs@[k]);
                                assert(zonk_within(s0, sig.args@[k], f1));
                                lemma_infer_free_extend(s1.types, s2.types, zs@[k], f1);
                            } else {
                                assert(type_children(nd@)[k] == zr);
                            }
                        }
                    }
                }
                if same {
                    proof {
                        assert(nd@ == d@);
                        if zonk_within(s0, tp, fuel as nat) {
                            lemma_kept_infer_free(s0.types, s2.types, t, fuel as nat);
                        }
                    }
                    return t;
                }
                let r = self.wrap_type(Ghost(*db), nd);
                proof {
                    if zonk_within(s0, tp, fuel as nat) {
                        lemma_wrap_infer_free(s2.types, nd@, r, fuel as nat);
                    }
                }
                r
            },
            TypeData::Ptr(p, m) => {
                assert(type_children(d@)[0] == p);
                let z = self.zonk_fuel(db, p, fuel - 1);
                let ghost s2 = self@;
                assert(type_children(TypeDataV::Ptr(z, m))[0] == z);
                if z == p {
                    proof {
                        if zonk_within(s0, tp, fuel as nat) {
                            assert(type_children(d@)[0] == p);
                            lemma_kept_infer_free(s0.types, s2.types, t, fuel as nat);
                        }
                    }
                    return t;
                }
                let r = self.wrap_type(Ghost(*db), TypeData::Ptr(z, m));
                proof {
                    if zonk_within(s0, tp, fuel as nat) {
                        lemma_wrap_infer_free(s2.types, TypeDataV::Ptr(z, m), r, fuel as nat);
                    }
                }
                r
            },
            TypeData::Slice(p, m) => {
                assert(type_children(d@)[0] == p);
                let z = self.zonk_fuel(db, p, fuel - 1);
                let ghost s2 = self@;
                assert(type_children(TypeDataV::Slice(z, m))[0] == z);
                if z == p {
                    proof {
                        if zonk_within(s0, tp, fuel as nat) {
                            assert(type_children(d@)[0] == p);
                            lemma_kept_infer_free(s0.types, s2.types, t, fuel as nat);
                        }
                    }
                    return t;
                }
                let r = self.wrap_type(Ghost(*db), TypeData::Slice(z, m));
                proof {
                    if zonk_within(s0, tp, fuel as nat) {
                        lemma_wrap_infer_free(s2.types, TypeDataV::Slice(z, m), r, fuel as nat);
                    }
                }
                r
            },
            TypeData::Tuple(ts) => {
                proof {
                    assert forall|k: int| 0 <= k < ts@.len() implies (#[trigger] ts@[k]).0 < self@.types.len() by {
                        assert(type_children(d@)[k] == ts@[k]);
                    }
                    if zonk_within(s0, tp, fuel as nat) {
                        assert forall|k: int| 0 <= k < ts@.len() implies zonk_within(s0, #[trigger] ts@[k], f1) by {
                            assert(type_children(d@)[k] == ts@[k]);
                        }
                    }
                }
                let zs = self.zonk_list(db, &ts, 0, fuel - 1);
                let same = same_types(&zs, &ts);
                let nd = TypeData::Tuple(zs);
                let ghost s2 = self@;
                proof {
                    assert forall|k: int| 0 <= k < type_children(nd@).len() implies (#[trigger] type_children(nd@)[k]).0 < self@.types.len() by {
                        assert(type_children(nd@)[k] == zs@[k]);
                    }
                    if zonk_within(s0, tp, fuel as nat) {
                        assert forall|k: int| 0 <= k < type_children(nd@).len() implies infer_free(s2.types, #[trigger] type_children(nd@)[k], f1) by {
                            assert(type_children(nd@)[k] == zs@[k]);
                            assert(zonk_within(s0, ts@[k], f1));
                        }
                    }
                }
                if same {
                    proof {
                        assert(nd@ == d@);
                        if zonk_within(s0, tp, fuel as nat) {
                            lemma_kept_infer_free(s0.types, s2.types, t, fuel as nat);
                        }
                    }
                    return t;
                }
                let r = self.wrap_type(Ghost(*db), nd);
                proof {
                    if zonk_within(s0, tp, fuel as nat) {
                        lemma_wrap_infer_free(s2.types, nd@, r, fuel as nat);
                    }
                }
                r
            },
            TypeData::Array(n, p) => {
                assert(type_children(d@)[0] == p);
                let z = self.zonk_fuel(db, p, fuel - 1);
                let ghost s2 = self@;
                assert(type_children(TypeDataV::Array(n, z))[0] == z);
                if z == p {
                    proof {
                        if zonk_within(s0, tp, fuel as nat) {
                            assert(type_children(d@)[0] == p);
                            lemma_kept_infer_free(s0.types, s2.types, t, fuel as nat);
                        }
                    }
                    return t;
                }
                let r = self.wrap_type(Ghost(*db), TypeData::Array(n, z));
                proof {
                    if zonk_within(s0, tp, fuel as nat) {
                        lemma_wrap_infer_free(s2.types, TypeDataV::Array(n, z), r, fuel as nat);
                    }
                }
                r
            },
            _ => t,
        }
    }

    fn zonk_list(&mut self, db: &Db, ts: &Vec<TypeId>, i: usize, fuel: u64) -> (r: Vec<TypeId>)
        requires
            old(self).wf(*db),
            forall|k: int| 0 <= k < ts@.len() ==> (#[trigger] ts@[k]).0 < old(self)@.types.len(),
        ensures
            (r@, final(self)@) == zonk_list_spec(old(self)@, ts@, i as int, fuel as nat),
            final(self).wf(*db),
            final(self).source == old(self).source,
            grown(old(self)@, final(self)@),
            final(self)@.type_map == old(self)@.type_map,
            final(self)@.unif == old(self)@.unif,
            i <= ts@.len() ==> r@.len() == ts@.len() - i,
            forall|k: int| 0 <= k < r@.len() ==> (#[trigger] r@[k]).0 < final(self)@.types.len(),
            forall|k: int|
                i <= k < ts@.len() && zonk_within(old(self)@, #[trigger] ts@[k], fuel as nat) ==> infer_free(
                    final(self)@.types,
                    r@[k - i],
                    fuel as nat,
                ),
        decreases fuel + 1, 0int, ts@.len() - i,
    {
        if i >= ts.len() {
            return Vec::new();
        }
        let ghost s0 = self@;
        let z = self.zonk_fuel(db, ts[i], fuel);
        let ghost s1 = self@;
        proof {
            assert forall|k: int| i < k < ts@.len() implies zonk_within(s1, #[trigger] ts@[k], fuel as nat) == zonk_within(s0, ts@[k], fuel as nat) by {
                lemma_zonk_within_extend(s0, s1, ts@[k], fuel as nat);
            }
        }
        let mut rest = self.zonk_list(db, ts, i + 1, fuel);
        let mut r: Vec<TypeId> = Vec::new();
        r.push(z);
        let ghost rv = rest@;
        r.append(&mut rest);
        assert(r@ =~= seq![z] + rv);
        proof {
            if zonk_within(s0, ts@[i as int], fuel as nat) {
                lemma_infer_free_extend(s1.types, self@.types, z, fuel as nat);
            }
            assert forall|k: int|
                i <= k < ts@.len() && zonk_within(s0, #[trigger] ts@[k], fuel as nat) implies infer_free(
                    self@.types,
                    r@[k - i],
                    fuel as nat,
                ) by {
                if k > i {
                    assert(r@[k - i] == rv[k - (i + 1)]);
                }
            }
        }
        r
    }

    /// The types of the expressions, zonked; with the type table and the
    /// reports.
    pub fn finish(self, db: &Db) -> (r: InferenceResult)
        requires
            self.wf(*db),
        ensures
            ({
                let (m, st) = zonk_map_spec(self@, self@.type_map, 0, self@.types.len());
                &&& r.type_map@ == m
                &&& r.types@ == st.types
                &&& r.diagnostics@.map_values(|d: Diagnostic| d@) == st.diags
            }),
            result_ok(*db, r),
            forall|i: int|
                0 <= i < self@.type_map.len() && (#[trigger] self@.type_map[i]) is Some && zonk_within(
                    self@,
                    self@.type_map[i].unwrap(),
                    self@.types.len(),
                ) ==> r.type_map@[i] is Some && infer_free(r.types@, r.type_map@[i].unwrap(), self@.types.len()),
    {
        let fuel = self.types.data.len() as u64;
        let mut env = self;
        let n = env.type_map.len();
        let ghost m0 = env@.type_map;
        let ghost s0 = env@;
        let mut out: Vec<Option<TypeId>> = Vec::new();
        for i in 0..n
            invariant
                n == m0.len(),
                env.wf(*db),
                env@.type_map.len() == n,
                ({
                    let (m, st) = zonk_map_spec(s0, m0, 0, fuel as nat);
                    let (mi, si) = zonk_map_spec(env@, m0, i as int, fuel as nat);
                    out@ + mi == m && si == st
                }),
                env@.type_map == m0,
                fuel as nat == s0.types.len(),
                out@.len() == i,
                forall|k: int| 0 <= k < out@.len() ==> ((#[trigger] out@[k]) matches Some(t) ==> t.0 < env@.types.len()),
                env@.unif == s0.unif,
                types_extend(s0.types, env@.types),
                refs_ok(s0),
                forall|k: int| 0 <= k < m0.len() ==> ((#[trigger] m0[k]) matches Some(t) ==> t.0 < s0.types.len()),
                forall|k: int|
                    0 <= k < i && (#[trigger] m0[k]) is Some && zonk_within(s0, m0[k].unwrap(), fuel as nat)
                        ==> out@[k] is Some && infer_free(env@.types, out@[k].unwrap(), fuel as nat),
        {
            let ghost before = env@;
            let ghost out0 = out@;
            proof {
                if let Some(t) = m0[i as int] {
                    lemma_zonk_within_extend(s0, before, t, fuel as nat);
                }
            }
            let z = match env.type_map[i] {
                Some(t) => Some(env.zonk_fuel(db, t, fuel)),
                None => None,
            };
            proof {
                assert(before.type_map[i as int] == m0[i as int]);
            }
            out.push(z);
            proof {
                assert forall|k: int|
                    0 <= k < i + 1 && (#[trigger] m0[k]) is Some && zonk_within(s0, m0[k].unwrap(), fuel as nat)
                        implies out@[k] is Some && infer_free(env@.types, out@[k].unwrap(), fuel as nat) by {
                    if k < i {
                        assert(out@[k] == out0[k]);
                        lemma_infer_free_extend(before.types, env@.types, out0[k]->Some_0, fuel as nat);
                    }
                }
                let (mi, si) = zonk_map_spec(before, m0, i as int, fuel as nat);
                let (mj, sj) = zonk_map_spec(env@, m0, i + 1, fuel as nat);
                assert(mi == seq![z] + mj);
                assert(out@ + mj =~= out@.drop_last() + mi);
            }
        }
        proof {
            assert(zonk_map_spec(env@, m0, n as int, fuel as nat).0 =~= Seq::<Option<TypeId>>::empty());
            assert(out@ + Seq::<Option<TypeId>>::empty() =~= out@);
        }
        assert(env@.type_map.len() == db.exprs@.len());
        InferenceResult { type_map: out, types: env.types, diagnostics: env.diagnostics }
    }
}

/// Whether the fields `ls` fit a struct: their sizes add up within `u32`
/// offsets and a `usize` size.
pub open spec fn struct_fits(ls: Seq<bytecode::LayoutV>) -> bool {
    bytecode::sum_sizes_u32(ls, ls.len() as int) <= u32::MAX && bytecode::sum_sizes(ls, ls.len() as int) <= usize::MAX
}

/// The layout of a struct made of `ls`, if it fits.
pub open spec fn struct_of(ls: Seq<bytecode::LayoutV>) -> Option<bytecode::LayoutV> {
    if struct_fits(ls) {
        Some(bytecode::struct_layout(ls))
    } else {
        None
    }
}

/// The layout of type `t`: none for the error type, a variable, a layout
/// too large for the machine, or nesting deeper than `fuel`. A struct's
/// fields come in the order of their indices.
pub open spec fn layout_spec(db: Db, ts: Seq<TypeDataV>, t: TypeId, fuel: nat) -> Option<bytecode::LayoutV>
    decreases fuel, 1int, 0int,
{
    if fuel == 0 {
        None
    } else {
        match ts[t.0 as int] {
            TypeDataV::Error => None,
            TypeDataV::Infer(_) => None,
            TypeDataV::Primitive(p) => Some(bytecode::primitive_layout(p)),
            TypeDataV::Range => struct_of(
                seq![bytecode::primitive_layout(bytecode::Type::UInt64), bytecode::primitive_layout(bytecode::Type::UInt64)],
            ),
            TypeDataV::Fn(_, _) => Some(bytecode::primitive_layout(bytecode::Type::Ptr)),
            TypeDataV::Ptr(_, _) => Some(bytecode::primitive_layout(bytecode::Type::Ptr)),
            TypeDataV::Slice(_, _) => struct_of(
                seq![bytecode::primitive_layout(bytecode::Type::Ptr), bytecode::primitive_layout(bytecode::Type::UInt64)],
            ),
            TypeDataV::Tuple(items) => match layouts_spec(db, ts, items, 0, (fuel - 1) as nat) {
                Some(ls) => struct_of(ls),
                None => None,
            },
            TypeDataV::Var(sf, tv) => if names_struct(db, sf, tv) {
                let fs = struct_fields_spec(db, sf, tv).map_values(|f: (Ident, (usize, TypeId))| f.1.1);
                match layouts_spec(db, ts, fs, 0, (fuel - 1) as nat) {
                    Some(ls) => struct_of(ls),
                    None => None,
                }
            } else {
                None
            },
            TypeDataV::Array(n, e) => match layout_spec(db, ts, e, (fuel - 1) as nat) {
                Some(l) => if l.size * n <= usize::MAX {
                    Some(bytecode::array_layout(n as nat, l))
                } else {
                    None
                },
                None => None,
            },
        }
    }
}

/// The layouts of `items[i..]`, if each has one.
pub open spec fn layouts_spec(db: Db, ts: Seq<TypeDataV>, items: Seq<TypeId>, i: int, fuel: nat) -> Option<
    Seq<bytecode::LayoutV>,
>
    decreases fuel + 1, 0int, items.len() - i,
{
    if i < 0 || i >= items.len() {
        Some(Seq::empty())
    } else {
        match layout_spec(db, ts, items[i], fuel) {
            Some(l) => match layouts_spec(db, ts, items, i + 1, fuel) {
                Some(ls) => Some(seq![l] + ls),
                None => None,
            },
            None => None,
        }
    }
}

/// A layout found within some depth is found, the same, with more depth.
proof fn lemma_layout_deeper(db: Db, ts: Seq<TypeDataV>, t: TypeId, f: nat, f2: nat)
    requires
        layout_spec(db, ts, t, f) is Some,
        f <= f2,
    ensures
        layout_spec(db, ts, t, f2) == layout_spec(db, ts, t, f),
    decreases f, 0int, 0int,
{
    if f > 0 {
        match ts[t.0 as int] {
            TypeDataV::Tuple(items) => {
                lemma_layouts_deeper(db, ts, items, 0, (f - 1) as nat, (f2 - 1) as nat);
            },
            TypeDataV::Var(sf, tv) => {
                let fs = struct_fields_spec(db, sf, tv).map_values(|x: (Ident, (usize, TypeId))| x.1.1);
                if names_struct(db, sf, tv) {
                    lemma_layouts_deeper(db, ts, fs, 0, (f - 1) as nat, (f2 - 1) as nat);
                }
            },
            TypeDataV::Array(n, e) => {
                lemma_layout_deeper(db, ts, e, (f - 1) as nat, (f2 - 1) as nat);
            },
            _ => {},
        }
    }
}

/// The layouts of a list found within some depth are found, the same,
/// with more depth.
proof fn lemma_layouts_deeper(db: Db, ts: Seq<TypeDataV>, items: Seq<TypeId>, i: int, f: nat, f2: nat)
    requires
        layouts_spec(db, ts, items, i, f) is Some,
        f <= f2,
    ensures
        layouts_spec(db, ts, items, i, f2) == layouts_spec(db, ts, items, i, f),
    decreases f, 1int, items.len() - i,
{
    if 0 <= i < items.len() {
        lemma_layout_deeper(db, ts, items[i], f, f2);
        lemma_layouts_deeper(db, ts, items, i + 1, f, f2);
    }
}

/// The layouts of `items[i..]`, when found, are the layouts of each item in
/// order.
proof fn lemma_layouts_each(db: Db, ts: Seq<TypeDataV>, items: Seq<TypeId>, i: int, f: nat)
    requires
        0 <= i <= items.len(),
        layouts_spec(db, ts, items, i, f) is Some,
    ensures
        layouts_spec(db, ts, items, i, f).unwrap().len() == items.len() - i,
        forall|k: int|
            i <= k < items.len() ==> layout_spec(db, ts, #[trigger] items[k], f) is Some
                && layouts_spec(db, ts, items, i, f).unwrap()[k - i] == layout_spec(db, ts, items[k], f).unwrap(),
    decreases items.len() - i,
{
    if i < items.len() {
        lemma_layouts_each(db, ts, items, i + 1, f);
        let rest = layouts_spec(db, ts, items, i + 1, f).unwrap();
        let l = layout_spec(db, ts, items[i], f).unwrap();
        assert forall|k: int| i <= k < items.len() implies layout_spec(db, ts, #[trigger] items[k], f) is Some
            && layouts_spec(db, ts, items, i, f).unwrap()[k - i] == layout_spec(db, ts, items[k], f).unwrap() by {
            if k > i {
                assert((seq![l] + rest)[k - i] == rest[k - (i + 1)]);
            }
        }
    }
}

/// The layout of each shape of type, at the depth `TypeId::layout` uses:
/// a primitive has its own layout; a pointer or a function one pointer; a
/// slice a pointer and a length; a tuple the struct of its items' layouts
/// in order; an array of `n` elements `n` times its element's layout; an
/// error type or a variable none.
pub proof fn lemma_layout_shapes(db: Db, ts: Seq<TypeDataV>, t: TypeId)
    ensures
        ts.len() > 0 ==> match ts[t.0 as int] {
            TypeDataV::Primitive(p) => layout_spec(db, ts, t, ts.len()) == Some(bytecode::primitive_layout(p)),
            TypeDataV::Ptr(_, _) | TypeDataV::Fn(_, _) => layout_spec(db, ts, t, ts.len()) == Some(
                bytecode::primitive_layout(bytecode::Type::Ptr),
            ),
            TypeDataV::Slice(_, _) => layout_spec(db, ts, t, ts.len()) == struct_of(
                seq![bytecode::primitive_layout(bytecode::Type::Ptr), bytecode::primitive_layout(bytecode::Type::UInt64)],
            ),
            TypeDataV::Error | TypeDataV::Infer(_) => layout_spec(db, ts, t, ts.len()) is None,
            TypeDataV::Tuple(items) => layout_spec(db, ts, t, ts.len()) is Some ==> {
                &&& forall|k: int| 0 <= k < items.len() ==> layout_spec(db, ts, #[trigger] items[k], ts.len()) is Some
                &&& layout_spec(db, ts, t, ts.len()) == struct_of(
                    Seq::new(items.len(), |k: int| layout_spec(db, ts, items[k], ts.len()).unwrap()),
                )
            },
            TypeDataV::Array(n, e) => layout_spec(db, ts, t, ts.len()) is Some ==> layout_spec(db, ts, t, ts.len())
                == Some(bytecode::array_layout(n as nat, layout_spec(db, ts, e, ts.len()).unwrap())),
            _ => true,
        },
{
    if ts.len() > 0 {
        let f = ts.len();
        let f1 = (f - 1) as nat;
        match ts[t.0 as int] {
            TypeDataV::Tuple(items) => {
                if layout_spec(db, ts, t, f) is Some {
                    lemma_layouts_each(db, ts, items, 0, f1);
                    let ls = layouts_spec(db, ts, items, 0, f1).unwrap();
                    assert forall|k: int| 0 <= k < items.len() implies layout_spec(db, ts, #[trigger] items[k], f) is Some
                        && layout_spec(db, ts, items[k], f) == layout_spec(db, ts, items[k], f1) by {
                        lemma_layout_deeper(db, ts, items[k], f1, f);
                    }
                    assert(ls =~= Seq::new(items.len(), |k: int| layout_spec(db, ts, items[k], f).unwrap()));
                }
            },
            TypeDataV::Array(n, e) => {
                if layout_spec(db, ts, t, f) is Some {
                    lemma_layout_deeper(db, ts, e, f1, f);
                }
            },
            _ => {},
        }
    }
}

/// The types that a table and a syntax tree refer to exist.
pub open spec fn layout_ctx_ok(db: Db, ts: Seq<TypeDataV>) -> bool {
    &&& db.wf(ts.len())
    &&& types_wf(ts)
}

impl TypeId {
    /// The memory layout of a value of this type.
    pub fn layout(&self, db: &Db, types: &Types) -> (l: bytecode::Layout)
        requires
            layout_ctx_ok(*db, types@),
            self.0 < types@.len(),
            layout_spec(*db, types@, *self, types@.len()) is Some,
        ensures
            l@ == layout_spec(*db, types@, *self, types@.len()).unwrap(),
    {
        let fuel = types.data.len() as u64;
        layout_fuel(db, types, *self, fuel).unwrap()
    }
}

fn struct_exec(ls: &Vec<bytecode::Layout>) -> (l: bytecode::Layout)
    requires
        struct_fits(bytecode::layouts_view(ls@)),
    ensures
        l@ == bytecode::struct_layout(bytecode::layouts_view(ls@)),
{
    bytecode::Layout::strct(ls.as_slice())
}

/// Whether fields of layouts `ls` fit a struct.
fn struct_fits_exec(ls: &Vec<bytecode::Layout>) -> (ok: bool)
    ensures
        ok == struct_fits(bytecode::layouts_view(ls@)),
{
    let ghost v = bytecode::layouts_view(ls@);
    let n = ls.len();
    let mut off: u64 = 0;
    let mut size: usize = 0;
    for i in 0..n
        invariant
            n == ls@.len(),
            v == bytecode::layouts_view(ls@),
            off == bytecode::sum_sizes_u32(v, i as int),
            off <= u32::MAX,
            size == bytecode::sum_sizes(v, i as int),
    {
        let sz = ls[i].size();
        assert(v[i as int] == ls@[i as int]@);
        let t32 = sz as u32;
        let t = t32 as u64;
        assert((t32 as u64) == (sz as u64) % 0x1_0000_0000u64) by (bit_vector)
            requires
                t32 == sz as u32,
        ;
        proof {
            bytecode::lemma_sum_sizes_u32_monotone(v, i + 1, n as int);
            bytecode::lemma_sum_sizes_monotone(v, i + 1, n as int);
        }
        if off + t > 0xffff_ffffu64 {
            return false;
        }
        off = off + t;
        match size.checked_add(sz) {
            Some(s2) => size = s2,
            None => return false,
        }
    }
    true
}

/// The layout of type `t`, where it has one.
pub(crate) fn layout_fuel(db: &Db, types: &Types, t: TypeId, fuel: u64) -> (r: Option<bytecode::Layout>)
    requires
        layout_ctx_ok(*db, types@),
        t.0 < types@.len(),
    ensures
        match r {
            Some(l) => layout_spec(*db, types@, t, fuel as nat) == Some(l@),
            None => layout_spec(*db, types@, t, fuel as nat) is None,
        },
    decreases fuel, 1int, 0int,
{
    if fuel == 0 {
        return None;
    }
    let d = types.get(t);
    proof {
        assert forall|k: int| 0 <= k < type_children(d@).len() implies (#[trigger] type_children(d@)[k]).0 < types@.len() by {
            assert(type_children(types@[t.0 as int])[k].0 < t.0);
        }
    }
    match d {
        TypeData::Primitive(p) => Some(p.as_layout()),
        TypeData::Range => {
            let mut v: Vec<bytecode::Layout> = Vec::new();
            v.push(bytecode::Type::UInt64.as_layout());
            v.push(bytecode::Type::UInt64.as_layout());
            assert(bytecode::layouts_view(v@) =~= seq![bytecode::primitive_layout(bytecode::Type::UInt64), bytecode::primitive_layout(bytecode::Type::UInt64)]);
            if struct_fits_exec(&v) {
                Some(struct_exec(&v))
            } else {
                None
            }
        },
        TypeData::Fn(_) => Some(bytecode::Layout::ptr()),
        TypeData::Ptr(_, _) => Some(bytecode::Layout::ptr()),
        TypeData::Slice(_, _) => {
            let mut v: Vec<bytecode::Layout> = Vec::new();
            v.push(bytecode::Layout::ptr());
            v.push(bytecode::Type::UInt64.as_layout());
            assert(bytecode::layouts_view(v@) =~= seq![bytecode::primitive_layout(bytecode::Type::Ptr), bytecode::primitive_layout(bytecode::Type::UInt64)]);
            if struct_fits_exec(&v) {
                Some(struct_exec(&v))
            } else {
                None
            }
        },
        TypeData::Tuple(items) => {
            proof {
                assert forall|k: int| 0 <= k < items@.len() implies (#[trigger] items@[k]).0 < types@.len() by {
                    assert(type_children(d@)[k] == items@[k]);
                }
            }
            match layouts_fuel(db, types, &items, 0, fuel - 1) {
                Some(ls) => if struct_fits_exec(&ls) {
                    Some(struct_exec(&ls))
                } else {
                    None
                },
                None => None,
            }
        },
        TypeData::Var(sf, tv) => {
            if sf.0 >= db.files.len() {
                return None;
            }
            match get_item(db, sf, tv) {
                Some(Item::Type { .. }) => {},
                _ => return None,
            }
            let fs = struct_fields(db, sf, tv);
            let mut items: Vec<TypeId> = Vec::new();
            for k in 0..fs.len()
                invariant
                    items@ == fs@.take(k as int).map_values(|f: (Ident, (usize, TypeId))| f.1.1),
            {
                items.push(fs[k].1.1);
                assert(items@ =~= fs@.take(k + 1).map_values(|f: (Ident, (usize, TypeId))| f.1.1));
            }
            assert(fs@.take(fs@.len() as int) =~= fs@);
            proof {
                let s = module_map(*db, sf.0 as int)[tv]->Type_0;
                crate::resolve::lemma_module_map_valid(*db, sf.0 as int, tv);
                let ffs = db.structs@[s.0 as int].fields@;
                lemma_last_fields_from(ffs, ffs.len() as int);
                assert forall|k: int| 0 <= k < items@.len() implies (#[trigger] items@[k]).0 < types@.len() by {
                    let j = choose|j: int| 0 <= j < ffs.len() && j < ffs.len() && last_fields(ffs, ffs.len() as int)[k] == (ffs[j].0, (j as usize, ffs[j].1));
                    assert(ffs[j] == db.structs@[s.0 as int].fields@[j]);
                    assert(items@[k] == fs@[k].1.1);
                }
            }
            match layouts_fuel(db, types, &items, 0, fuel - 1) {
                Some(ls) => if struct_fits_exec(&ls) {
                    Some(struct_exec(&ls))
                } else {
                    None
                },
                None => None,
            }
        },
        TypeData::Array(n, e) => {
            assert(type_children(d@)[0] == e);
            match layout_fuel(db, types, e, fuel - 1) {
                Some(l) => match l.size().checked_mul(n) {
                    Some(_) => Some(bytecode::Layout::array(n, l)),
                    None => None,
                },
                None => None,
            }
        },
        _ => None,
    }
}

fn layouts_fuel(db: &Db, types: &Types, items: &Vec<TypeId>, i: usize, fuel: u64) -> (r: Option<Vec<bytecode::Layout>>)
    requires
        layout_ctx_ok(*db, types@),
        forall|k: int| 0 <= k < items@.len() ==> (#[trigger] items@[k]).0 < types@.len(),
    ensures
        match r {
            Some(ls) => layouts_spec(*db, types@, items@, i as int, fuel as nat) == Some(bytecode::layouts_view(ls@)),
            None => layouts_spec(*db, types@, items@, i as int, fuel as nat) is None,
        },
    decreases fuel + 1, 0int, items@.len() - i,
{
    if i >= items.len() {
        let v: Vec<bytecode::Layout> = Vec::new();
        assert(bytecode::layouts_view(v@) =~= Seq::<bytecode::LayoutV>::empty());
        return Some(v);
    }
    let l = match layout_fuel(db, types, items[i], fuel) {
        Some(l) => l,
        None => return None,
    };
    let rest = match layouts_fuel(db, types, items, i + 1, fuel) {
        Some(rest) => rest,
        None => return None,
    };
    let mut v: Vec<bytecode::Layout> = Vec::new();
    v.push(l);
    let mut rest = rest;
    let ghost rv = rest@;
    v.append(&mut rest);
    assert(bytecode::layouts_view(v@) =~= seq![l@] + bytecode::layouts_view(rv));
    Some(v)
}

} // verus!
