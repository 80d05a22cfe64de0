//! The typing rules: what inferring and checking an expression does to the
//! state of inference, as mathematical functions.
use vstd::prelude::*;

use crate::ast::{expr_children, expr_idents, Db, ExprData, ExprId, Ident, PatternData, PatternId, Span};
use crate::bytecode;
use crate::common::{Binop, Unop};
use crate::input::{utf8_len, Source};
use crate::resolve::{module_map, ItemV};
use crate::tp::{
    add_diag, bind_var_spec, cannot_assign_msg, cannot_dereference_msg, cannot_index_msg,
    cannot_index_with_msg, coerce_spec, duplicate_field_msg, missing_argument_msg,
    missing_else_msg, missing_field_msg, names_struct, new_var_spec, no_field_msg,
    not_a_function_msg, resolved, struct_fields_spec, type_mismatch_msg, unexpected_argument_msg,
    type_children, unexpected_tuple_msg, wrap_spec, EnvV, InferValue, TypeDataV, TypeId, VarBinding,
};

verus! {

/// The syntax of expression `e`.
pub open spec fn expr_at(db: Db, e: ExprId) -> ExprData {
    db.exprs@[e.0 as int].data
}

/// Where expression `e` stands in its source.
pub open spec fn expr_span(db: Db, e: ExprId) -> Span {
    db.exprs@[e.0 as int].span
}

/// The syntax of pattern `p`.
pub open spec fn pat_at(db: Db, p: PatternId) -> PatternData {
    db.patterns@[p.0 as int].data
}

/// Where pattern `p` stands in its source.
pub open spec fn pat_span(db: Db, p: PatternId) -> Span {
    db.patterns@[p.0 as int].span
}

/// Every expression of `es` was created before `e`.
pub open spec fn below(es: Seq<ExprId>, e: ExprId) -> bool {
    forall|k: int| 0 <= k < es.len() ==> (#[trigger] es[k]).0 < e.0
}

/// The expressions given to the fields of a struct expression.
pub open spec fn item_exprs(items: Seq<(Ident, ExprId)>) -> Seq<ExprId> {
    items.map_values(|it: (Ident, ExprId)| it.1)
}

/// The sub-expressions of `e` were created before it.
pub open spec fn expr_wf_at(db: Db, e: ExprId) -> bool {
    match expr_at(db, e) {
        ExprData::Binop(_, a, b) => a.0 < e.0 && b.0 < e.0,
        ExprData::Unop(_, a) => a.0 < e.0,
        ExprData::Let(_, a, b) => a.0 < e.0 && b.0 < e.0,
        ExprData::FnCall(f, args) => f.0 < e.0 && below(args@, e),
        ExprData::If(c, t, el) => c.0 < e.0 && t.0 < e.0 && (el matches Some(x) ==> x.0 < e.0),
        ExprData::While(c, b) => c.0 < e.0 && b.0 < e.0,
        ExprData::Assign(a, b) => a.0 < e.0 && b.0 < e.0,
        ExprData::Deref(a) => a.0 < e.0,
        ExprData::AddressOf(a) => a.0 < e.0,
        ExprData::Tuple(es) => below(es@, e),
        ExprData::Sequence(a, b) => a.0 < e.0 && b.0 < e.0,
        ExprData::Struct(_, items) => below(item_exprs(items@), e),
        ExprData::Field(a, _) => a.0 < e.0,
        ExprData::Array(es) => below(es@, e),
        ExprData::Index(a, b) => a.0 < e.0 && b.0 < e.0,
        ExprData::Range(a, b) => a.0 < e.0 && b.0 < e.0,
        ExprData::Cast(a, _) => a.0 < e.0,
        _ => true,
    }
}

/// The struct expressions of `e`, and of the expressions it is made of,
/// name structs that source `src` defines or imports.
pub open spec fn struct_names_ok(db: Db, src: Source, e: ExprId) -> bool
    decreases e.0,
{
    &&& (expr_at(db, e) matches ExprData::Struct(n, _) ==> names_struct(db, src, n))
    &&& forall|k: int|
        0 <= k < expr_children(expr_at(db, e)).len() && (#[trigger] expr_children(expr_at(db, e))[k]).0 < e.0
            ==> struct_names_ok(db, src, expr_children(expr_at(db, e))[k])
}

/// What holds of an expression's struct names holds of those of each
/// expression it is made of.
pub proof fn lemma_struct_names_child(db: Db, src: Source, e: ExprId, c: ExprId)
    requires
        struct_names_ok(db, src, e),
        expr_children(expr_at(db, e)).contains(c),
        c.0 < e.0,
    ensures
        struct_names_ok(db, src, c),
{
    let k = choose|k: int| 0 <= k < expr_children(expr_at(db, e)).len() && expr_children(expr_at(db, e))[k] == c;
    assert(expr_children(expr_at(db, e))[k] == c);
}

/// The data of type `t`.
pub open spec fn tdata(st: EnvV, t: TypeId) -> TypeDataV {
    st.types[t.0 as int]
}

/// A new primitive type.
pub open spec fn prim(st: EnvV, p: bytecode::Type) -> (TypeId, EnvV) {
    wrap_spec(st, TypeDataV::Primitive(p))
}

/// The unit type, an empty tuple.
pub open spec fn unit(st: EnvV) -> (TypeId, EnvV) {
    wrap_spec(st, TypeDataV::Tuple(Seq::empty()))
}

/// The error type, marked as assignable.
pub open spec fn error_result(st: EnvV) -> (TypeId, bool, EnvV) {
    let (t, s) = wrap_spec(st, TypeDataV::Error);
    (t, true, s)
}

/// The state with the type of `e` recorded.
pub open spec fn record(e: ExprId, r: (TypeId, bool, EnvV)) -> (TypeId, bool, EnvV) {
    (r.0, r.1, EnvV { type_map: r.2.type_map.update(e.0 as int, Some(r.0)), ..r.2 })
}

/// The binding of `x` in one scope.
pub open spec fn scope_lookup(s: Map<usize, VarBinding>, x: Ident) -> Option<VarBinding> {
    if s.contains_key(x.0) {
        Some(s[x.0])
    } else {
        None
    }
}

/// The binding of `x` in the innermost scope that binds it.
pub open spec fn scopes_lookup(scopes: Seq<Map<usize, VarBinding>>, x: Ident) -> Option<VarBinding>
    decreases scopes.len(),
{
    if scopes.len() == 0 {
        None
    } else {
        match scope_lookup(scopes.last(), x) {
            Some(b) => Some(b),
            None => scopes_lookup(scopes.drop_last(), x),
        }
    }
}

/// A scope with bindings added in order: a later binding of a name
/// replaces an earlier one.
pub open spec fn bind_all(m: Map<usize, VarBinding>, bs: Seq<(Ident, VarBinding)>) -> Map<usize, VarBinding>
    decreases bs.len(),
{
    if bs.len() == 0 {
        m
    } else {
        bind_all(m, bs.drop_last()).insert(bs.last().0.0, bs.last().1)
    }
}

/// The state with bindings added to the innermost scope.
pub open spec fn extend_spec(st: EnvV, bs: Seq<(Ident, VarBinding)>) -> EnvV {
    EnvV { scopes: st.scopes.update(st.scopes.len() - 1, bind_all(st.scopes.last(), bs)), ..st }
}

/// The binding of a name: a local variable, or else a function of the
/// source, whose type is entered into the table.
pub open spec fn get_var_spec(db: Db, src: Source, st: EnvV, x: Ident) -> (Option<VarBinding>, EnvV) {
    match scopes_lookup(st.scopes, x) {
        Some(b) => (Some(b), st),
        None => if module_map(db, src.0 as int).contains_key(x) {
            match module_map(db, src.0 as int)[x] {
                ItemV::Function(f) => {
                    let fd = db.fns@[f.0 as int];
                    let args = fd.args@.map_values(|a: (PatternId, TypeId)| a.1);
                    let (ret, s1) = match fd.ret {
                        Some(t) => (t, st),
                        None => unit(st),
                    };
                    let (t, s2) = wrap_spec(s1, TypeDataV::Fn(args, ret));
                    (Some(VarBinding { tp: t, is_mut: false }), s2)
                },
                _ => (None, st),
            }
        } else {
            (None, st)
        },
    }
}

/// The type of a name; an unknown name has the error type.
pub open spec fn var_spec(db: Db, src: Source, st: EnvV, x: Ident) -> (TypeId, bool, EnvV) {
    let (b, s) = get_var_spec(db, src, st, x);
    match b {
        Some(b) => (b.tp, b.is_mut, s),
        None => error_result(s),
    }
}

/// The bindings of a pattern matched against a type, with the state after
/// the reports made.
pub open spec fn check_pat_spec(db: Db, src: Source, st: EnvV, p: PatternId, tp: TypeId) -> (Seq<(Ident, VarBinding)>, EnvV)
    decreases p.0, 1int, 0int,
{
    match pat_at(db, p) {
        PatternData::Wildcard => (Seq::empty(), st),
        PatternData::Var(x, m) => (seq![(x, VarBinding { tp, is_mut: m })], st),
        PatternData::Tuple(ps) => match tdata(st, tp) {
            TypeDataV::Tuple(tps) => if tps.len() == ps@.len() {
                check_pats_spec(db, src, st, p, ps@, tps, 0)
            } else {
                (Seq::empty(), add_diag(st, src, pat_span(db, p), unexpected_tuple_msg(ps@.len(), tp)))
            },
            _ => (Seq::empty(), add_diag(st, src, pat_span(db, p), unexpected_tuple_msg(ps@.len(), tp))),
        },
    }
}

/// The bindings of `ps[i..]` matched against `tps[i..]`, in order.
pub open spec fn check_pats_spec(
    db: Db,
    src: Source,
    st: EnvV,
    p: PatternId,
    ps: Seq<PatternId>,
    tps: Seq<TypeId>,
    i: int,
) -> (Seq<(Ident, VarBinding)>, EnvV)
    decreases p.0, 0int, ps.len() - i,
{
    if i < 0 || i >= ps.len() || i >= tps.len() || ps[i].0 >= p.0 {
        (Seq::empty(), st)
    } else {
        let (b1, s1) = check_pat_spec(db, src, st, ps[i], tps[i]);
        let (b2, s2) = check_pats_spec(db, src, s1, p, ps, tps, i + 1);
        (b1 + b2, s2)
    }
}

/// Checking `e` against `tp`: a mismatch is reported at `e`.
pub open spec fn check_spec(db: Db, src: Source, st: EnvV, e: ExprId, tp: TypeId, exp_mut: bool) -> EnvV
    decreases e.0, 4int, 0int,
{
    let (ti, mi, s1) = infer_spec(db, src, st, e);
    let (ok, s2) = coerce_spec(s1, ti, tp, s1.types.len());
    if ok && (!exp_mut || mi) {
        s2
    } else {
        add_diag(s2, src, expr_span(db, e), type_mismatch_msg(tp, ti))
    }
}

/// The type of `e` and whether it may be assigned, with the state after
/// inferring it.
pub open spec fn infer_spec(db: Db, src: Source, st: EnvV, e: ExprId) -> (TypeId, bool, EnvV)
    decreases e.0, 3int, 0int,
{
    if !expr_wf_at(db, e) {
        (e_junk(), false, st)
    } else {
        match expr_at(db, e) {
            ExprData::FnCall(f, args) => infer_call_spec(db, src, st, e, f, args@),
            _ => record(e, infer_node_spec(db, src, st, e)),
        }
    }
}

/// Which expressions can be assigned to: a literal, an operation, a loop,
/// an assignment, an address, a tuple, a struct, an array, a range or a
/// cast never can; a variable can when its binding is mutable (a name that
/// is bound to nothing is an error, and errors are let through); `*a` can
/// when `a` is a mutable pointer; a `let` or a sequence can when its last
/// expression can. The type of an expression other than a call is recorded
/// for it in the type map (which `Env::infer_expr` keeps one entry long
/// per expression).
pub proof fn lemma_mutability_flag(db: Db, src: Source, st: EnvV, e: ExprId)
    requires
        expr_wf_at(db, e),
        !(expr_at(db, e) is FnCall),
    ensures
        infer_spec(db, src, st, e).0 == infer_node_spec(db, src, st, e).0,
        infer_spec(db, src, st, e).1 == infer_node_spec(db, src, st, e).1,
        infer_spec(db, src, st, e).2.type_map == infer_node_spec(db, src, st, e).2.type_map.update(
            e.0 as int,
            Some(infer_spec(db, src, st, e).0),
        ),
        e.0 < infer_node_spec(db, src, st, e).2.type_map.len() ==> infer_spec(db, src, st, e).2.type_map[e.0 as int]
            == Some(infer_spec(db, src, st, e).0),
        match expr_at(db, e) {
            ExprData::Number(_) | ExprData::Char(_) | ExprData::Str(_) | ExprData::Bool(_) | ExprData::Binop(_, _, _)
            | ExprData::Unop(_, _) | ExprData::While(_, _) | ExprData::Assign(_, _) | ExprData::AddressOf(_)
            | ExprData::Tuple(_) | ExprData::Struct(_, _) | ExprData::Array(_) | ExprData::Range(_, _)
            | ExprData::Cast(_, _) => !infer_spec(db, src, st, e).1,
            ExprData::Var(x) => infer_spec(db, src, st, e).1 == (match get_var_spec(db, src, st, x).0 {
                Some(b) => b.is_mut,
                None => true,
            }),
            ExprData::Deref(a) => {
                let (t, _, s1) = infer_spec(db, src, st, a);
                infer_spec(db, src, st, e).1 == (match tdata(s1, t) {
                    TypeDataV::Ptr(_, m) => m,
                    _ => true,
                })
            },
            ExprData::Sequence(a, b) => infer_spec(db, src, st, e).1 == infer_spec(
                db,
                src,
                infer_spec(db, src, st, a).2,
                b,
            ).1,
            _ => true,
        },
{
    let r = infer_node_spec(db, src, st, e);
    let f = infer_spec(db, src, st, e);
    assert(f.2.type_map == r.2.type_map.update(e.0 as int, Some(f.0)));
    if e.0 < r.2.type_map.len() {
        let u = r.2.type_map.update(e.0 as int, Some(f.0));
        assert(u[e.0 as int] == Some(f.0));
    }
    match expr_at(db, e) {
        ExprData::Binop(op, a, b) => {
            assert(r == infer_binop_spec(db, src, st, e, op, a, b));
        },
        ExprData::Unop(op, a) => {
            assert(r == infer_unop_spec(db, src, st, e, op, a));
        },
        ExprData::Var(x) => {
            assert(r == var_spec(db, src, st, x));
        },
        ExprData::Struct(name, items) => {},
        ExprData::Deref(a) => {},
        ExprData::Sequence(a, b) => {},
        _ => {},
    }
}

/// A type that stands for no type.
pub open spec fn e_junk() -> TypeId {
    TypeId(0)
}

/// The type of `e`, not a call, before it is recorded.
pub open spec fn infer_node_spec(db: Db, src: Source, st: EnvV, e: ExprId) -> (TypeId, bool, EnvV)
    decreases e.0, 2int, 0int,
{
    if !expr_wf_at(db, e) {
        (e_junk(), false, st)
    } else {
        match expr_at(db, e) {
            ExprData::Number(_) => {
                let (t, s) = new_var_spec(st, InferValue::Numeric);
                (t, false, s)
            },
            ExprData::Char(_) => {
                let (t, s) = prim(st, bytecode::Type::UInt8);
                (t, false, s)
            },
            ExprData::Str(l) => {
                let (u, s1) = prim(st, bytecode::Type::UInt8);
                let n = utf8_len(db.strs@[l.0 as int]@);
                let (t, s2) = wrap_spec(s1, TypeDataV::Array((n as usize).wrapping_add(1), u));
                (t, false, s2)
            },
            ExprData::Bool(_) => {
                let (t, s) = prim(st, bytecode::Type::Bool);
                (t, false, s)
            },
            ExprData::Binop(op, a, b) => infer_binop_spec(db, src, st, e, op, a, b),
            ExprData::Unop(op, a) => infer_unop_spec(db, src, st, e, op, a),
            ExprData::Let(p, a, b) => infer_let_spec(db, src, st, e, p, a, b),
            ExprData::Var(x) => var_spec(db, src, st, x),
            ExprData::FnCall(_, _) => (e_junk(), false, st),
            ExprData::Error => error_result(st),
            ExprData::If(c, t, el) => infer_if_spec(db, src, st, e, c, t, el),
            ExprData::While(c, b) => {
                let (bt, s1) = prim(st, bytecode::Type::Bool);
                let s2 = check_spec(db, src, s1, c, bt, false);
                let (_, _, s3) = infer_spec(db, src, s2, b);
                let (u, s4) = unit(s3);
                (u, false, s4)
            },
            ExprData::Assign(a, b) => {
                let (t, m, s1) = infer_spec(db, src, st, a);
                let s2 = if !m {
                    add_diag(s1, src, expr_span(db, a), cannot_assign_msg())
                } else {
                    s1
                };
                let s3 = check_spec(db, src, s2, b, t, false);
                let (u, s4) = unit(s3);
                (u, false, s4)
            },
            ExprData::Deref(a) => {
                let (t, _, s1) = infer_spec(db, src, st, a);
                match tdata(s1, t) {
                    TypeDataV::Ptr(t2, m2) => (t2, m2, s1),
                    _ => error_result(add_diag(s1, src, expr_span(db, a), cannot_dereference_msg())),
                }
            },
            ExprData::AddressOf(a) => {
                let (t, m, s1) = infer_spec(db, src, st, a);
                let (p, s2) = wrap_spec(s1, TypeDataV::Ptr(t, m));
                (p, false, s2)
            },
            ExprData::Tuple(es) => {
                let (ts, s1) = infer_list_spec(db, src, st, e, es@, 0);
                let (t, s2) = wrap_spec(s1, TypeDataV::Tuple(ts));
                (t, false, s2)
            },
            ExprData::Sequence(a, b) => {
                let (_, _, s1) = infer_spec(db, src, st, a);
                infer_spec(db, src, s1, b)
            },
            ExprData::Struct(name, items) => if names_struct(db, src, name) {
                let fs = struct_fields_spec(db, src, name);
                let s1 = check_fields_spec(db, src, st, e, fs, items@, 0);
                let (t, s2) = wrap_spec(s1, TypeDataV::Var(src, name));
                (t, false, s2)
            } else {
                (e_junk(), false, st)
            },
            ExprData::Field(a, x) => infer_field_spec(db, src, st, e, a, x),
            ExprData::Array(es) => infer_array_spec(db, src, st, e, es@),
            ExprData::Index(a, b) => infer_index_spec(db, src, st, e, a, b),
            ExprData::Range(a, b) => {
                let (u1, s1) = prim(st, bytecode::Type::UInt64);
                let s2 = check_spec(db, src, s1, a, u1, false);
                let (u2, s3) = prim(s2, bytecode::Type::UInt64);
                let s4 = check_spec(db, src, s3, b, u2, false);
                let (r, s5) = wrap_spec(s4, TypeDataV::Range);
                (r, false, s5)
            },
            ExprData::Cast(a, t) => {
                let (_, _, s1) = infer_spec(db, src, st, a);
                (t, false, s1)
            },
        }
    }
}

/// A binary operation: arithmetic gives its operands' numeric type,
/// comparisons give a boolean, and logic wants booleans.
pub open spec fn infer_binop_spec(
    db: Db,
    src: Source,
    st: EnvV,
    e: ExprId,
    op: Binop,
    a: ExprId,
    b: ExprId,
) -> (TypeId, bool, EnvV)
    decreases e.0, 1int, 0int,
{
    if a.0 >= e.0 || b.0 >= e.0 {
        (e_junk(), false, st)
    } else {
        match op {
            Binop::And | Binop::Or => {
                let (t1, s1) = prim(st, bytecode::Type::Bool);
                let s2 = check_spec(db, src, s1, a, t1, false);
                let (t2, s3) = prim(s2, bytecode::Type::Bool);
                let s4 = check_spec(db, src, s3, b, t2, false);
                let (t, s5) = prim(s4, bytecode::Type::Bool);
                (t, false, s5)
            },
            _ => {
                let (n, s1) = new_var_spec(st, InferValue::Numeric);
                let s2 = check_spec(db, src, s1, a, n, false);
                let s3 = check_spec(db, src, s2, b, n, false);
                match op {
                    Binop::Add | Binop::Sub | Binop::Mul | Binop::Div | Binop::Mod => (n, false, s3),
                    _ => {
                        let (t, s4) = prim(s3, bytecode::Type::Bool);
                        (t, false, s4)
                    },
                }
            },
        }
    }
}

/// Whether an operator compares two numbers.
pub open spec fn is_comparison(op: Binop) -> bool {
    op is Eq || op is NEq || op is Lt || op is Gt || op is Le || op is Ge
}

/// A comparison or a logical connective has type `bool`, whatever its
/// operands are, and is no place to assign to; the type is entered last,
/// after the operands were checked (in a table that fits a machine word).
/// An arithmetic operation has as its type the new numeric variable that
/// it enters first, against which both operands are checked.
pub proof fn lemma_binop_types(db: Db, src: Source, st: EnvV, e: ExprId, op: Binop, a: ExprId, b: ExprId)
    requires
        a.0 < e.0,
        b.0 < e.0,
    ensures
        ({
            let (t, m, s) = infer_binop_spec(db, src, st, e, op, a, b);
            &&& (op is Add || op is Sub || op is Mul || op is Div || op is Mod) && st.unif.len() < u32::MAX
                && st.types.len() < usize::MAX ==> {
                let (n, s1) = new_var_spec(st, InferValue::Numeric);
                &&& t == n
                &&& t.0 == st.types.len()
                &&& s1.types[t.0 as int] matches TypeDataV::Infer(k) && s1.unif[k.0 as int].1 is Numeric
                &&& !m
            }
            &&& (is_comparison(op) || op is And || op is Or) && s.types.len() <= usize::MAX ==> {
                &&& t.0 == s.types.len() - 1
                &&& s.types[t.0 as int] == TypeDataV::Primitive(bytecode::Type::Bool)
                &&& !m
            }
        }),
        ({
            let (t, _, s) = infer_spec(db, src, st, e);
            expr_wf_at(db, e) && expr_at(db, e) == ExprData::Binop(op, a, b) && (is_comparison(op) || op is And
                || op is Or) && s.types.len() <= usize::MAX ==> s.types[t.0 as int] == TypeDataV::Primitive(
                bytecode::Type::Bool,
            )
        }),
{
    let (t, m, s) = infer_binop_spec(db, src, st, e, op, a, b);
    if op is And || op is Or {
        let (t1, s1) = prim(st, bytecode::Type::Bool);
        let s2 = check_spec(db, src, s1, a, t1, false);
        let (t2, s3) = prim(s2, bytecode::Type::Bool);
        let s4 = check_spec(db, src, s3, b, t2, false);
        let (t5, s5) = prim(s4, bytecode::Type::Bool);
        assert((t, m, s) == (t5, false, s5));
        assert(s5.types == s4.types.push(TypeDataV::Primitive(bytecode::Type::Bool)));
    } else if is_comparison(op) {
        let (n, s1) = new_var_spec(st, InferValue::Numeric);
        let s2 = check_spec(db, src, s1, a, n, false);
        let s3 = check_spec(db, src, s2, b, n, false);
        let (t4, s4) = prim(s3, bytecode::Type::Bool);
        assert((t, m, s) == (t4, false, s4));
        assert(s4.types == s3.types.push(TypeDataV::Primitive(bytecode::Type::Bool)));
    }
    if (is_comparison(op) || op is And || op is Or) && s.types.len() <= usize::MAX {
        assert(s.types[t.0 as int] == TypeDataV::Primitive(bytecode::Type::Bool));
    }
    if is_comparison(op) || op is And || op is Or {
        if expr_wf_at(db, e) && expr_at(db, e) == ExprData::Binop(op, a, b) {
            assert(infer_node_spec(db, src, st, e) == infer_binop_spec(db, src, st, e, op, a, b));
        }
    }
}

/// `!a` has type `bool` and is no place to assign to; the type is entered
/// last, after the operand was checked (in a table that fits a machine
/// word). Neither `!a` nor `-a` can be assigned to.
pub proof fn lemma_unop_types(db: Db, src: Source, st: EnvV, e: ExprId, op: Unop, a: ExprId)
    requires
        a.0 < e.0,
    ensures
        ({
            let (t, m, s) = infer_unop_spec(db, src, st, e, op, a);
            &&& !m
            &&& op is Not && s.types.len() <= usize::MAX ==> s.types[t.0 as int] == TypeDataV::Primitive(
                bytecode::Type::Bool,
            )
        }),
{
    if op is Not {
        let (t1, s1) = prim(st, bytecode::Type::Bool);
        let s2 = check_spec(db, src, s1, a, t1, false);
        let (t3, s3) = prim(s2, bytecode::Type::Bool);
        assert(infer_unop_spec(db, src, st, e, op, a) == (t3, false, s3));
        assert(s3.types == s2.types.push(TypeDataV::Primitive(bytecode::Type::Bool)));
    }
}

/// A unary operation: negation of a number, or boolean not.
pub open spec fn infer_unop_spec(db: Db, src: Source, st: EnvV, e: ExprId, op: Unop, a: ExprId) -> (TypeId, bool, EnvV)
    decreases e.0, 1int, 0int,
{
    if a.0 >= e.0 {
        (e_junk(), false, st)
    } else {
        match op {
            Unop::Neg => {
                let (n, s1) = new_var_spec(st, InferValue::Numeric);
                let s2 = check_spec(db, src, s1, a, n, false);
                (n, false, s2)
            },
            Unop::Not => {
                let (t1, s1) = prim(st, bytecode::Type::Bool);
                let s2 = check_spec(db, src, s1, a, t1, false);
                let (t, s3) = prim(s2, bytecode::Type::Bool);
                (t, false, s3)
            },
        }
    }
}

/// `let p = a; b`: the bindings of `p` are visible in `b` only.
pub open spec fn infer_let_spec(
    db: Db,
    src: Source,
    st: EnvV,
    e: ExprId,
    p: PatternId,
    a: ExprId,
    b: ExprId,
) -> (TypeId, bool, EnvV)
    decreases e.0, 1int, 0int,
{
    if a.0 >= e.0 || b.0 >= e.0 {
        (e_junk(), false, st)
    } else {
        let (t1, _, s1) = infer_spec(db, src, st, a);
        let s2 = EnvV { scopes: s1.scopes.push(Map::empty()), ..s1 };
        let (bs, s3) = check_pat_spec(db, src, s2, p, t1);
        let s4 = extend_spec(s3, bs);
        let (t, m, s5) = infer_spec(db, src, s4, b);
        (t, m, EnvV { scopes: s5.scopes.drop_last(), ..s5 })
    }
}

/// `if c { t } else { el }`: the branches agree; without an else branch
/// the then branch must be unit.
pub open spec fn infer_if_spec(
    db: Db,
    src: Source,
    st: EnvV,
    e: ExprId,
    c: ExprId,
    t: ExprId,
    el: Option<ExprId>,
) -> (TypeId, bool, EnvV)
    decreases e.0, 1int, 0int,
{
    if c.0 >= e.0 || t.0 >= e.0 || (el matches Some(x) && x.0 >= e.0) {
        (e_junk(), false, st)
    } else {
        let (bt, s1) = prim(st, bytecode::Type::Bool);
        let s2 = check_spec(db, src, s1, c, bt, false);
        let (tt, _, s3) = infer_spec(db, src, s2, t);
        match el {
            Some(x) => (tt, false, check_spec(db, src, s3, x, tt, false)),
            None => {
                let (u, s4) = unit(s3);
                let (ok, s5) = coerce_spec(s4, tt, u, s4.types.len());
                if ok {
                    (tt, false, s5)
                } else {
                    (tt, false, add_diag(s5, src, expr_span(db, e), missing_else_msg(tt)))
                }
            },
        }
    }
}

/// A call: the callee must have a function type; each argument is checked
/// against its parameter. A callee of another type is reported and the
/// call's type is not recorded.
pub open spec fn infer_call_spec(
    db: Db,
    src: Source,
    st: EnvV,
    e: ExprId,
    f: ExprId,
    args: Seq<ExprId>,
) -> (TypeId, bool, EnvV)
    decreases e.0, 1int, 0int,
{
    if f.0 >= e.0 {
        (e_junk(), false, st)
    } else {
        let (ft, _, s1) = infer_spec(db, src, st, f);
        match tdata(s1, ft) {
            TypeDataV::Fn(params, ret) => {
                let s2 = check_args_spec(db, src, s1, e, args, params, 0);
                let s3 = if args.len() < params.len() {
                    add_diag(s2, src, expr_span(db, e), missing_argument_msg(args.len(), params[args.len() as int]))
                } else {
                    s2
                };
                record(e, (ret, false, s3))
            },
            _ => error_result(add_diag(s1, src, expr_span(db, f), not_a_function_msg())),
        }
    }
}

/// Checks `args[i..]` against `params[i..]`; an argument with no parameter
/// is reported by its number, counted from one.
pub open spec fn check_args_spec(
    db: Db,
    src: Source,
    st: EnvV,
    e: ExprId,
    args: Seq<ExprId>,
    params: Seq<TypeId>,
    i: int,
) -> EnvV
    decreases e.0, 0int, args.len() - i,
{
    if i < 0 || i >= args.len() || args[i].0 >= e.0 {
        st
    } else {
        let s1 = if i < params.len() {
            check_spec(db, src, st, args[i], params[i], false)
        } else {
            add_diag(st, src, expr_span(db, args[i]), unexpected_argument_msg((i + 1) as nat))
        };
        check_args_spec(db, src, s1, e, args, params, i + 1)
    }
}

/// The types of `es[i..]`, inferred in order.
pub open spec fn infer_list_spec(db: Db, src: Source, st: EnvV, e: ExprId, es: Seq<ExprId>, i: int) -> (Seq<TypeId>, EnvV)
    decreases e.0, 0int, es.len() - i,
{
    if i < 0 || i >= es.len() || es[i].0 >= e.0 {
        (Seq::empty(), st)
    } else {
        let (t, _, s1) = infer_spec(db, src, st, es[i]);
        let (ts, s2) = infer_list_spec(db, src, s1, e, es, i + 1);
        (seq![t] + ts, s2)
    }
}

/// Checks each of `es[i..]` against `tp`, in order.
pub open spec fn check_list_spec(db: Db, src: Source, st: EnvV, e: ExprId, es: Seq<ExprId>, tp: TypeId, i: int) -> EnvV
    decreases e.0, 0int, es.len() - i,
{
    if i < 0 || i >= es.len() || es[i].0 >= e.0 {
        st
    } else {
        check_list_spec(db, src, check_spec(db, src, st, es[i], tp, false), e, es, tp, i + 1)
    }
}

/// The order in which the elements of an array after the first are
/// checked: the last one, then the others in order.
pub open spec fn array_rest(es: Seq<ExprId>) -> Seq<ExprId> {
    if es.len() <= 1 {
        Seq::empty()
    } else {
        seq![es.last()] + es.subrange(1, es.len() - 1)
    }
}

/// An array: the first element gives the element type, and the others
/// are checked against it. An empty array is unit.
pub open spec fn infer_array_spec(db: Db, src: Source, st: EnvV, e: ExprId, es: Seq<ExprId>) -> (TypeId, bool, EnvV)
    decreases e.0, 1int, 0int,
{
    if es.len() == 0 {
        let (u, s) = unit(st);
        (u, false, s)
    } else if es[0].0 >= e.0 {
        (e_junk(), false, st)
    } else {
        let (t, _, s1) = infer_spec(db, src, st, es[0]);
        let s2 = check_list_spec(db, src, s1, e, array_rest(es), t, 0);
        let (a, s3) = wrap_spec(s2, TypeDataV::Array(es.len() as usize, t));
        (a, false, s3)
    }
}

/// The expressions given for field `x`, among the first `n` items.
pub open spec fn named(items: Seq<(Ident, ExprId)>, x: Ident, n: int) -> Seq<ExprId>
    decreases n,
{
    if n <= 0 || n > items.len() {
        Seq::empty()
    } else if items[n - 1].0 == x {
        named(items, x, n - 1).push(items[n - 1].1)
    } else {
        named(items, x, n - 1)
    }
}

/// Checks the fields `fs[j..]` of a struct expression: each must be given
/// once; one given twice or not at all is reported.
pub open spec fn check_fields_spec(
    db: Db,
    src: Source,
    st: EnvV,
    e: ExprId,
    fs: Seq<(Ident, (usize, TypeId))>,
    items: Seq<(Ident, ExprId)>,
    j: int,
) -> EnvV
    decreases e.0, 0int, fs.len() - j,
{
    if j < 0 || j >= fs.len() {
        st
    } else {
        let ms = named(items, fs[j].0, items.len() as int);
        let s1 = if ms.len() == 1 {
            if ms[0].0 < e.0 {
                check_spec(db, src, st, ms[0], fs[j].1.1, false)
            } else {
                st
            }
        } else if ms.len() >= 2 {
            add_diag(st, src, expr_span(db, e), duplicate_field_msg(db, fs[j].0))
        } else {
            add_diag(st, src, expr_span(db, e), missing_field_msg(db, fs[j].0))
        };
        check_fields_spec(db, src, s1, e, fs, items, j + 1)
    }
}

/// The type of field `x` among `fs`, if there is one.
pub open spec fn field_lookup(fs: Seq<(Ident, (usize, TypeId))>, x: Ident) -> Option<(usize, TypeId)>
    decreases fs.len(),
{
    if fs.len() == 0 {
        None
    } else if fs.last().0 == x {
        Some(fs.last().1)
    } else {
        field_lookup(fs.drop_last(), x)
    }
}

/// A field access: a field of a struct, or the length of a slice.
pub open spec fn infer_field_spec(db: Db, src: Source, st: EnvV, e: ExprId, a: ExprId, x: Ident) -> (TypeId, bool, EnvV)
    decreases e.0, 1int, 0int,
{
    if a.0 >= e.0 {
        (e_junk(), false, st)
    } else {
        let (t, m, s1) = infer_spec(db, src, st, a);
        let no_field = error_result(add_diag(s1, src, expr_span(db, e), no_field_msg(db, x, t)));
        match tdata(s1, resolved(s1, t)) {
            TypeDataV::Error => error_result(s1),
            TypeDataV::Var(sf, tv) => match field_lookup(struct_fields_spec(db, sf, tv), x) {
                Some(f) => (f.1, m, s1),
                None => no_field,
            },
            TypeDataV::Slice(_, _) => if db.idents@[x.0 as int]@ == "len"@ {
                let (t, s2) = prim(s1, bytecode::Type::UInt64);
                (t, false, s2)
            } else {
                no_field
            },
            _ => no_field,
        }
    }
}

/// Indexing: an array or slice by an unsigned integer gives an element,
/// by a range gives a slice.
pub open spec fn infer_index_spec(db: Db, src: Source, st: EnvV, e: ExprId, a: ExprId, b: ExprId) -> (TypeId, bool, EnvV)
    decreases e.0, 1int, 0int,
{
    if a.0 >= e.0 || b.0 >= e.0 {
        (e_junk(), false, st)
    } else {
        let (t, m, s1) = infer_spec(db, src, st, a);
        let (et, em, s2) = match tdata(s1, resolved(s1, t)) {
            TypeDataV::Error => error_result(s1),
            TypeDataV::Slice(t2, m2) => (t2, m2, s1),
            TypeDataV::Array(_, t2) => (t2, m, s1),
            _ => error_result(add_diag(s1, src, expr_span(db, a), cannot_index_msg())),
        };
        let (it, _, s3) = infer_spec(db, src, s2, b);
        match tdata(s3, resolved(s3, it)) {
            TypeDataV::Error => error_result(s3),
            TypeDataV::Range => {
                let (sl, s4) = wrap_spec(s3, TypeDataV::Slice(et, em));
                (sl, false, s4)
            },
            TypeDataV::Primitive(bytecode::Type::UInt64) => (et, em, s3),
            TypeDataV::Infer(v) => {
                let (u, s4) = prim(s3, bytecode::Type::UInt64);
                let (_, s5) = bind_var_spec(s4, v, u);
                (et, em, s5)
            },
            _ => error_result(add_diag(s3, src, expr_span(db, b), cannot_index_with_msg())),
        }
    }
}


/// `tp` with every variable replaced by what it stands for: a numeric
/// variable by `i64`, an unbound one by the error type. A type whose parts
/// come back unchanged comes back itself; for one whose parts change a new
/// type is entered. `fuel` bounds the depth.
pub open spec fn zonk_spec(st: EnvV, tp: TypeId, fuel: nat) -> (TypeId, EnvV)
    decreases fuel, 1int, 0int,
{
    if fuel == 0 {
        (tp, st)
    } else {
        let t = resolved(st, tp);
        match tdata(st, t) {
            TypeDataV::Infer(v) => match st.unif[v.0 as int].1 {
                InferValue::Numeric => prim(st, bytecode::Type::Int64),
                InferValue::Bound(b) => zonk_spec(st, b, (fuel - 1) as nat),
                InferValue::Unbound => wrap_spec(st, TypeDataV::Error),
            },
            TypeDataV::Fn(args, ret) => {
                let (zs, s1) = zonk_list_spec(st, args, 0, (fuel - 1) as nat);
                let (zr, s2) = zonk_spec(s1, ret, (fuel - 1) as nat);
                if zs == args && zr == ret {
                    (t, s2)
                } else {
                    wrap_spec(s2, TypeDataV::Fn(zs, zr))
                }
            },
            TypeDataV::Ptr(p, m) => {
                let (z, s1) = zonk_spec(st, p, (fuel - 1) as nat);
                if z == p {
                    (t, s1)
                } else {
                    wrap_spec(s1, TypeDataV::Ptr(z, m))
                }
            },
            TypeDataV::Slice(p, m) => {
                let (z, s1) = zonk_spec(st, p, (fuel - 1) as nat);
                if z == p {
                    (t, s1)
                } else {
                    wrap_spec(s1, TypeDataV::Slice(z, m))
                }
            },
            TypeDataV::Tuple(ts) => {
                let (zs, s1) = zonk_list_spec(st, ts, 0, (fuel - 1) as nat);
                if zs == ts {
                    (t, s1)
                } else {
                    wrap_spec(s1, TypeDataV::Tuple(zs))
                }
            },
            TypeDataV::Array(n, p) => {
                let (z, s1) = zonk_spec(st, p, (fuel - 1) as nat);
                if z == p {
                    (t, s1)
                } else {
                    wrap_spec(s1, TypeDataV::Array(n, z))
                }
            },
            _ => (t, st),
        }
    }
}

/// `ts[i..]` zonked in order.
pub open spec fn zonk_list_spec(st: EnvV, ts: Seq<TypeId>, i: int, fuel: nat) -> (Seq<TypeId>, EnvV)
    decreases fuel + 1, 0int, ts.len() - i,
{
    if i < 0 || i >= ts.len() {
        (Seq::empty(), st)
    } else {
        let (z, s1) = zonk_spec(st, ts[i], fuel);
        let (zs, s2) = zonk_list_spec(s1, ts, i + 1, fuel);
        (seq![z] + zs, s2)
    }
}

/// The recorded types of the expressions from index `i` on, zonked in
/// order of the expressions, each to depth `fuel`.
pub open spec fn zonk_map_spec(st: EnvV, m: Seq<Option<TypeId>>, i: int, fuel: nat) -> (Seq<Option<TypeId>>, EnvV)
    decreases m.len() - i,
{
    if i < 0 || i >= m.len() {
        (Seq::empty(), st)
    } else {
        let (z, s1) = match m[i] {
            Some(t) => {
                let (z, s) = zonk_spec(st, t, fuel);
                (Some(z), s)
            },
            None => (None, st),
        };
        let (zs, s2) = zonk_map_spec(s1, m, i + 1, fuel);
        (seq![z] + zs, s2)
    }
}

/// Type `t` of table `ts` holds no inference variable, to depth `d`: it is
/// not a variable, and its parts hold none, to depth `d - 1`.
pub open spec fn infer_free(ts: Seq<TypeDataV>, t: TypeId, d: nat) -> bool
    decreases d,
{
    &&& d > 0
    &&& t.0 < ts.len()
    &&& !(ts[t.0 as int] is Infer)
    &&& forall|k: int|
        0 <= k < type_children(ts[t.0 as int]).len() ==> infer_free(
            ts,
            #[trigger] type_children(ts[t.0 as int])[k],
            (d - 1) as nat,
        )
}

/// Zonking `tp` comes to an end on every path within `fuel` steps, where
/// following a bound variable or entering a part of a type is a step.
pub open spec fn zonk_within(st: EnvV, tp: TypeId, fuel: nat) -> bool
    decreases fuel,
{
    if fuel == 0 {
        false
    } else {
        let d = tdata(st, resolved(st, tp));
        match d {
            TypeDataV::Infer(v) => match st.unif[v.0 as int].1 {
                InferValue::Bound(b) => zonk_within(st, b, (fuel - 1) as nat),
                _ => true,
            },
            _ => forall|k: int|
                0 <= k < type_children(d).len() ==> zonk_within(
                    st,
                    #[trigger] type_children(d)[k],
                    (fuel - 1) as nat,
                ),
        }
    }
}

/// A new type whose parts hold no inference variable, to depth `fuel - 1`,
/// holds none itself, to depth `fuel`.
pub proof fn lemma_wrap_infer_free(ts: Seq<TypeDataV>, d: TypeDataV, t: TypeId, fuel: nat)
    requires
        fuel > 0,
        t.0 == ts.len(),
        !(d is Infer),
        forall|k: int| 0 <= k < type_children(d).len() ==> infer_free(ts, #[trigger] type_children(d)[k], (fuel - 1) as nat),
    ensures
        infer_free(ts.push(d), t, fuel),
{
    let ts2 = ts.push(d);
    assert(types_extend(ts, ts2));
    assert(ts2[t.0 as int] == d);
    assert forall|k: int| 0 <= k < type_children(d).len() implies infer_free(ts2, #[trigger] type_children(d)[k], (fuel - 1) as nat) by {
        lemma_infer_free_extend(ts, ts2, type_children(d)[k], (fuel - 1) as nat);
    }
}

/// A type that the table held, whose parts hold no inference variable to
/// depth `fuel - 1` in a larger table, holds none there to depth `fuel`.
pub proof fn lemma_kept_infer_free(ts: Seq<TypeDataV>, ts2: Seq<TypeDataV>, t: TypeId, fuel: nat)
    requires
        fuel > 0,
        types_extend(ts, ts2),
        t.0 < ts.len(),
        !(ts[t.0 as int] is Infer),
        forall|k: int|
            0 <= k < type_children(ts[t.0 as int]).len() ==> infer_free(
                ts2,
                #[trigger] type_children(ts[t.0 as int])[k],
                (fuel - 1) as nat,
            ),
    ensures
        infer_free(ts2, t, fuel),
{
    assert(ts2[t.0 as int] == ts[t.0 as int]);
}

/// A table that another one extends: its types stay as they were.
pub open spec fn types_extend(ts: Seq<TypeDataV>, ts2: Seq<TypeDataV>) -> bool {
    &&& ts.len() <= ts2.len()
    &&& forall|i: int| 0 <= i < ts.len() ==> #[trigger] ts2[i] == ts[i]
}

/// What holds no inference variable keeps holding none as the table grows.
pub proof fn lemma_infer_free_extend(ts: Seq<TypeDataV>, ts2: Seq<TypeDataV>, t: TypeId, d: nat)
    requires
        types_extend(ts, ts2),
        infer_free(ts, t, d),
    ensures
        infer_free(ts2, t, d),
    decreases d,
{
    assert(ts2[t.0 as int] == ts[t.0 as int]);
    let c = type_children(ts[t.0 as int]);
    assert forall|k: int| 0 <= k < c.len() implies infer_free(ts2, #[trigger] c[k], (d - 1) as nat) by {
        lemma_infer_free_extend(ts, ts2, c[k], (d - 1) as nat);
    }
}

/// What holds no inference variable to some depth holds none to a greater
/// depth.
pub proof fn lemma_infer_free_deeper(ts: Seq<TypeDataV>, t: TypeId, d: nat)
    requires
        infer_free(ts, t, d),
    ensures
        infer_free(ts, t, d + 1),
    decreases d,
{
    let c = type_children(ts[t.0 as int]);
    assert forall|k: int| 0 <= k < c.len() implies infer_free(ts, #[trigger] c[k], d) by {
        lemma_infer_free_deeper(ts, c[k], (d - 1) as nat);
    }
}

/// What holds no inference variable to depth `d` holds none to any greater
/// depth.
pub proof fn lemma_infer_free_mono(ts: Seq<TypeDataV>, t: TypeId, d: nat, d2: nat)
    requires
        infer_free(ts, t, d),
        d <= d2,
    ensures
        infer_free(ts, t, d2),
    decreases d2 - d,
{
    if d < d2 {
        lemma_infer_free_deeper(ts, t, d);
        lemma_infer_free_mono(ts, t, d + 1, d2);
    }
}

/// A type with no inference variable in it, to depth `fuel`, zonks to
/// itself, and nothing is entered into the table.
proof fn lemma_zonk_kept(st: EnvV, t: TypeId, fuel: nat)
    requires
        infer_free(st.types, t, fuel),
    ensures
        zonk_spec(st, t, fuel) == (t, st),
    decreases fuel, 0int, 0int,
{
    let d = st.types[t.0 as int];
    assert(crate::tp::resolved(st, t) == t);
    let f1 = (fuel - 1) as nat;
    match d {
        TypeDataV::Tuple(a) => {
            assert forall|k: int| 0 <= k < a.len() implies infer_free(st.types, #[trigger] a[k], f1) by {
                assert(type_children(d)[k] == a[k]);
            }
            lemma_zonk_list_kept(st, a, 0, f1);
            assert(a.subrange(0, a.len() as int) =~= a);
        },
        TypeDataV::Fn(a, r) => {
            assert forall|k: int| 0 <= k < a.len() implies infer_free(st.types, #[trigger] a[k], f1) by {
                assert(type_children(d)[k] == a[k]);
            }
            assert(type_children(d)[a.len() as int] == r);
            lemma_zonk_list_kept(st, a, 0, f1);
            assert(a.subrange(0, a.len() as int) =~= a);
            lemma_zonk_kept(st, r, f1);
        },
        TypeDataV::Ptr(p, _) => {
            assert(type_children(d)[0] == p);
            lemma_zonk_kept(st, p, f1);
        },
        TypeDataV::Slice(p, _) => {
            assert(type_children(d)[0] == p);
            lemma_zonk_kept(st, p, f1);
        },
        TypeDataV::Array(_, p) => {
            assert(type_children(d)[0] == p);
            lemma_zonk_kept(st, p, f1);
        },
        _ => {},
    }
}

/// Zonking types with no inference variable in them, to depth `fuel`,
/// gives them back and enters nothing.
proof fn lemma_zonk_list_kept(st: EnvV, ts: Seq<TypeId>, i: int, fuel: nat)
    requires
        0 <= i <= ts.len(),
        forall|k: int| i <= k < ts.len() ==> infer_free(st.types, #[trigger] ts[k], fuel),
    ensures
        zonk_list_spec(st, ts, i, fuel) == (ts.subrange(i, ts.len() as int), st),
    decreases fuel, 1int, ts.len() - i,
{
    if i < ts.len() {
        lemma_zonk_kept(st, ts[i], fuel);
        lemma_zonk_list_kept(st, ts, i + 1, fuel);
        assert(seq![ts[i]] + ts.subrange(i + 1, ts.len() as int) =~= ts.subrange(i, ts.len() as int));
    } else {
        assert(ts.subrange(i, ts.len() as int) =~= Seq::<TypeId>::empty());
    }
}

/// Zonking a zonked type gives it back and enters nothing: `Env::zonk`
/// returns a type with no inference variable in it, to the depth that it
/// was given, which is no more than the size of the table; and such a type
/// zonks to itself. A type with no inference variable in it keeps its
/// index.
pub proof fn lemma_zonk_idempotent(st: EnvV, r: TypeId, d: nat)
    requires
        infer_free(st.types, r, d),
        d <= st.types.len(),
    ensures
        zonk_spec(st, r, st.types.len()) == (r, st),
{
    lemma_infer_free_mono(st.types, r, d, st.types.len());
    lemma_zonk_kept(st, r, st.types.len());
}

/// The variables and types that a state refers to exist: every type's
/// parts were entered before it, every variable of a type is in the
/// unification table, and every bound type is in the table.
pub open spec fn refs_ok(st: EnvV) -> bool {
    &&& crate::tp::types_wf(st.types)
    &&& forall|i: int|
        0 <= i < st.types.len() ==> ((#[trigger] st.types[i]) matches TypeDataV::Infer(v) ==> v.0 < st.unif.len())
    &&& forall|k: int|
        0 <= k < st.unif.len() ==> ((#[trigger] st.unif[k]).1 matches InferValue::Bound(t) ==> t.0
            < st.types.len())
}

/// Following bound variables gives the same type in a state whose table
/// extends this one, with the same variables.
pub proof fn lemma_resolve_extend(st: EnvV, st2: EnvV, tp: TypeId, fuel: nat)
    requires
        refs_ok(st),
        types_extend(st.types, st2.types),
        st2.unif == st.unif,
        tp.0 < st.types.len(),
    ensures
        crate::tp::weak_resolve_spec(st2, tp, fuel) == crate::tp::weak_resolve_spec(st, tp, fuel),
        crate::tp::weak_resolve_spec(st, tp, fuel).0 < st.types.len(),
    decreases fuel,
{
    if fuel > 0 {
        assert(st2.types[tp.0 as int] == st.types[tp.0 as int]);
        match st.types[tp.0 as int] {
            TypeDataV::Infer(v) => match st.unif[v.0 as int].1 {
                InferValue::Bound(b) => lemma_resolve_extend(st, st2, b, (fuel - 1) as nat),
                _ => {},
            },
            _ => {},
        }
    }
}

/// Whether zonking comes to an end within a number of steps is the same in
/// a state whose table extends this one, with the same variables.
pub proof fn lemma_zonk_within_extend(st: EnvV, st2: EnvV, tp: TypeId, fuel: nat)
    requires
        refs_ok(st),
        types_extend(st.types, st2.types),
        st2.unif == st.unif,
        tp.0 < st.types.len(),
    ensures
        zonk_within(st2, tp, fuel) == zonk_within(st, tp, fuel),
    decreases fuel,
{
    if fuel > 0 {
        lemma_resolve_extend(st, st2, tp, st.unif.len());
        let t = resolved(st, tp);
        assert(resolved(st2, tp) == t);
        assert(st2.types[t.0 as int] == st.types[t.0 as int]);
        let d = tdata(st, t);
        match d {
            TypeDataV::Infer(v) => match st.unif[v.0 as int].1 {
                InferValue::Bound(b) => lemma_zonk_within_extend(st, st2, b, (fuel - 1) as nat),
                _ => {},
            },
            _ => {
                let c = type_children(d);
                assert forall|k: int| 0 <= k < c.len() implies zonk_within(st2, #[trigger] c[k], (fuel - 1) as nat)
                    == zonk_within(st, c[k], (fuel - 1) as nat) by {
                    assert(c[k].0 < t.0);
                    lemma_zonk_within_extend(st, st2, c[k], (fuel - 1) as nat);
                }
                assert((forall|k: int| 0 <= k < c.len() ==> zonk_within(st2, #[trigger] c[k], (fuel - 1) as nat))
                    == (forall|k: int| 0 <= k < c.len() ==> zonk_within(st, #[trigger] c[k], (fuel - 1) as nat)));
            },
        }
    }
}

/// In a well-formed syntax tree, the parts of an expression exist, and its
/// sub-expressions were created before it.
pub proof fn lemma_expr_ok(db: Db, n: nat, e: ExprId)
    requires
        db.wf(n),
        e.0 < db.exprs@.len(),
    ensures
        expr_wf_at(db, e),
        expr_at(db, e) matches ExprData::Var(x) ==> x.0 < db.idents@.len(),
        expr_at(db, e) matches ExprData::Field(_, x) ==> x.0 < db.idents@.len(),
        expr_at(db, e) matches ExprData::Struct(x, _) ==> x.0 < db.idents@.len(),
        expr_at(db, e) matches ExprData::Let(p, _, _) ==> p.0 < db.patterns@.len(),
        expr_at(db, e) matches ExprData::Cast(_, t) ==> t.0 < n,
        expr_at(db, e) matches ExprData::Str(l) ==> l.0 < db.strs@.len(),
{
    let i = e.0 as int;
    let d = db.exprs@[i].data;
    let ch = expr_children(d);
    let ids = expr_idents(d);
    assert forall|k: int| 0 <= k < ch.len() implies (#[trigger] ch[k]).0 < e.0 by {
        assert(expr_children(db.exprs@[i].data)[k] == ch[k]);
    }
    assert forall|k: int| 0 <= k < ids.len() implies (#[trigger] ids[k]).0 < db.idents@.len() by {
        assert(expr_idents(db.exprs@[i].data)[k] == ids[k]);
    }
    assert(match db.exprs@[i].data {
        ExprData::Let(p, _, _) => p.0 < db.patterns@.len(),
        ExprData::Cast(_, t) => t.0 < n,
        ExprData::Str(s) => s.0 < db.strs@.len(),
        _ => true,
    });
    match d {
        ExprData::Binop(_, a, b) => {
            assert(ch[0] == a && ch[1] == b);
        },
        ExprData::Unop(_, a) => {
            assert(ch[0] == a);
        },
        ExprData::Let(_, a, b) => {
            assert(ch[0] == a && ch[1] == b);
        },
        ExprData::FnCall(f, args) => {
            assert(ch[0] == f);
            assert forall|k: int| 0 <= k < args@.len() implies (#[trigger] args@[k]).0 < e.0 by {
                assert(ch[k + 1] == args@[k]);
            }
        },
        ExprData::If(c, t, el) => {
            assert(ch[0] == c && ch[1] == t);
            if let Some(x) = el {
                assert(ch[2] == x);
            }
        },
        ExprData::While(a, b) => {
            assert(ch[0] == a && ch[1] == b);
        },
        ExprData::Assign(a, b) => {
            assert(ch[0] == a && ch[1] == b);
        },
        ExprData::Deref(a) => {
            assert(ch[0] == a);
        },
        ExprData::AddressOf(a) => {
            assert(ch[0] == a);
        },
        ExprData::Tuple(es) => {
            assert forall|k: int| 0 <= k < es@.len() implies (#[trigger] es@[k]).0 < e.0 by {
                assert(ch[k] == es@[k]);
            }
        },
        ExprData::Sequence(a, b) => {
            assert(ch[0] == a && ch[1] == b);
        },
        ExprData::Struct(x, items) => {
            assert(ids[0] == x);
            assert forall|k: int| 0 <= k < item_exprs(items@).len() implies (#[trigger] item_exprs(items@)[k]).0 < e.0 by {
                assert(ch[k] == item_exprs(items@)[k]);
            }
        },
        ExprData::Field(a, x) => {
            assert(ch[0] == a);
            assert(ids[0] == x);
        },
        ExprData::Array(es) => {
            assert forall|k: int| 0 <= k < es@.len() implies (#[trigger] es@[k]).0 < e.0 by {
                assert(ch[k] == es@[k]);
            }
        },
        ExprData::Index(a, b) => {
            assert(ch[0] == a && ch[1] == b);
        },
        ExprData::Range(a, b) => {
            assert(ch[0] == a && ch[1] == b);
        },
        ExprData::Cast(a, _) => {
            assert(ch[0] == a);
        },
        ExprData::Var(x) => {
            assert(ids[0] == x);
        },
        _ => {},
    }
}
} // verus!
