//! Checking and compiling whole functions and programs.
use vstd::prelude::*;

use crate::ast::{Db, Def, ExprData, ExprId, FnDef, Ident, PatternId};
use vstd::string::StrSliceExecFns;
use crate::diagnostic::{Diagnostic, DiagnosticV};
use crate::input::Source;
use crate::resolve::parse_fn_signature;
use crate::tp::{
    types_wf, Env, EnvV, InferValue, InferenceResult, TypeDataV, TypeId, Types,
    VarBinding,
};
use crate::typing::{
    check_pat_spec, check_spec, extend_spec, infer_free, struct_names_ok, unit, zonk_map_spec, zonk_within,
};
use crate::bytecode::{Func, FuncSig, Layout, LayoutV, Prog};
use crate::lowerer::{blocks_view, compile_spec, initial_builder, Builder, BuilderV, LowerCtx, LoweringResult};

verus! {

/// The state of inference when a function of `db` starts to be checked,
/// with type table `types`.
pub open spec fn initial_env(db: Db, types: Seq<TypeDataV>) -> EnvV {
    EnvV {
        scopes: seq![Map::<usize, VarBinding>::empty()],
        unif: Seq::<(nat, InferValue)>::empty(),
        type_map: Seq::new(db.exprs@.len(), |i: int| None::<TypeId>),
        diags: Seq::<DiagnosticV>::empty(),
        types,
    }
}

/// Binds the parameters `args[i..]` by their patterns, in order.
pub open spec fn check_params_spec(db: Db, src: Source, st: EnvV, args: Seq<(PatternId, TypeId)>, i: int) -> EnvV
    decreases args.len() - i,
{
    if i < 0 || i >= args.len() {
        st
    } else {
        let (bs, s1) = check_pat_spec(db, src, st, args[i].0, args[i].1);
        check_params_spec(db, src, extend_spec(s1, bs), args, i + 1)
    }
}

/// Checking a function: its parameters are bound, and its body is checked
/// against its return type (unit when it names none).
pub open spec fn check_fn_spec(db: Db, func: FnDef, st: EnvV) -> EnvV {
    let fd = db.fns@[func.0 as int];
    let s1 = check_params_spec(db, fd.sf, st, fd.args@, 0);
    let (ret, s2) = match fd.ret {
        Some(t) => (t, s1),
        None => unit(s1),
    };
    match fd.body {
        Some(b) => check_spec(db, fd.sf, s2, b, ret, false),
        None => s2,
    }
}

/// A type table that a function can be checked with: well formed, with no
/// inference variables, and with named types that name structs.
pub open spec fn types_ok(db: Db, types: Seq<TypeDataV>) -> bool {
    &&& db.wf(types.len())
    &&& types_wf(types)
    &&& forall|i: int| 0 <= i < types.len() ==> !((#[trigger] types[i]) is Infer)
    &&& forall|i: int|
        0 <= i < types.len() ==> ((#[trigger] types[i]) matches TypeDataV::Var(sf, x) ==> sf.0
            < db.files@.len() && crate::tp::names_struct(db, sf, x))
}

/// Infers the types of function `func`: its parameters are bound, its
/// body is checked against its return type, and the recorded types are
/// zonked. A function without a body must be external.
pub fn type_check_func(db: &Db, types: Types, func: FnDef) -> (r: InferenceResult)
    requires
        func.0 < db.fns@.len(),
        types_ok(*db, types@),
        db.fns@[func.0 as int].body matches Some(b) ==> struct_names_ok(*db, db.fns@[func.0 as int].sf, b),
        db.fns@[func.0 as int].body is None ==> db.fns@[func.0 as int].is_ext,
    ensures
        ({
            let st = check_fn_spec(*db, func, initial_env(*db, types@));
            let (m, fin) = zonk_map_spec(st, st.type_map, 0, st.types.len());
            &&& r.type_map@ == m
            &&& r.types@ == fin.types
            &&& r.diagnostics@.map_values(|d: Diagnostic| d@) == fin.diags
            &&& forall|i: int|
                0 <= i < st.type_map.len() && (#[trigger] st.type_map[i]) is Some && zonk_within(
                    st,
                    st.type_map[i].unwrap(),
                    st.types.len(),
                ) ==> r.type_map@[i] is Some && infer_free(r.types@, r.type_map@[i].unwrap(), st.types.len())
        }),
        crate::tp::result_ok(*db, r),
{
    let fd = &db.fns[func.0];
    let src = fd.sf;
    let mut env = Env::new(db, src, types);
    let ghost st0 = env@;
    assert(st0 == initial_env(*db, types@));
    let n = fd.args.len();
    for i in 0..n
        invariant
            fd == db.fns@[func.0 as int],
            func.0 < db.fns@.len(),
            n == fd.args@.len(),
            env.wf(*db),
            env.source == src,
            check_params_spec(*db, src, st0, fd.args@, 0) == check_params_spec(*db, src, env@, fd.args@, i as int),
    {
        proof {
            let f = db.fns@[func.0 as int];
            assert(f.args@[i as int].0.0 < db.patterns@.len() && f.args@[i as int].1.0 < env@.types.len());
        }
        let (p, t) = fd.args[i];
        let bindings = env.check_pat(db, p, t);
        env.extend(db, bindings);
    }
    proof {
        crate::tp::lemma_db_wf_grow(*db, env@.types.len(), env@.types.len() + 1);
    }
    let ghost s1 = env@;
    let sig = parse_fn_signature(db, &mut env.types, func);
    proof {
        if fd.ret is None {
            crate::tp::lemma_wf_wrap(*db, src, s1, TypeDataV::Tuple(Seq::empty()));
            assert(env@ =~= unit(s1).1);
        } else {
            assert(env@ =~= s1);
        }
    }
    match fd.body {
        Some(body) => env.check_expr(db, body, sig.ret, false),
        None => {},
    }
    env.finish(db)
}


/// The reports of checking function `func` with type table `types`.
pub open spec fn fn_diags(db: Db, types: Seq<TypeDataV>, func: FnDef) -> Seq<DiagnosticV> {
    let st = check_fn_spec(db, func, initial_env(db, types));
    zonk_map_spec(st, st.type_map, 0, st.types.len()).1.diags
}

/// Every function of the program can be checked with `types`.
pub open spec fn program_ok(db: Db, types: Seq<TypeDataV>) -> bool {
    &&& types_ok(db, types)
    &&& forall|f: int|
        0 <= f < db.fns@.len() ==> {
            &&& ((#[trigger] db.fns@[f]).body matches Some(b) ==> struct_names_ok(db, db.fns@[f].sf, b))
            &&& (db.fns@[f].body is None ==> db.fns@[f].is_ext)
        }
}

/// What checking has done so far: the sources and functions checked, by
/// index, and the reports made, in order.
pub struct CheckState {
    pub srcs: Seq<bool>,
    pub fns: Seq<bool>,
    pub diags: Seq<DiagnosticV>,
}

/// Checking source `sf`: once only; its functions in order, each once,
/// and an imported source where its import stands.
pub open spec fn check_src_spec(db: Db, types: Seq<TypeDataV>, sf: int, st: CheckState) -> CheckState
    decreases sf, 1int, 0int,
{
    if sf < 0 || sf >= db.files@.len() || sf >= st.srcs.len() || st.srcs[sf] {
        st
    } else {
        let st1 = CheckState { srcs: st.srcs.update(sf, true), ..st };
        check_defs_spec(db, types, sf, st1, db.files@[sf].defs@.len() as int)
    }
}

/// Checking the first `k` definitions of source `sf`.
pub open spec fn check_defs_spec(db: Db, types: Seq<TypeDataV>, sf: int, st: CheckState, k: int) -> CheckState
    decreases sf, 0int, k,
{
    if k <= 0 || sf < 0 || sf >= db.files@.len() || k > db.files@[sf].defs@.len() {
        st
    } else {
        let s1 = check_defs_spec(db, types, sf, st, k - 1);
        match db.files@[sf].defs@[k - 1] {
            Def::Fn(f) => if f.0 < s1.fns.len() && !s1.fns[f.0 as int] {
                CheckState { fns: s1.fns.update(f.0 as int, true), diags: s1.diags + fn_diags(db, types, f), ..s1 }
            } else {
                s1
            },
            Def::Struct(_) => s1,
            Def::Import(_, c) => if c.0 < sf {
                check_src_spec(db, types, c.0 as int, s1)
            } else {
                s1
            },
        }
    }
}

/// Checks source `sf` and, through its imports, the sources it uses;
/// each source and function once. Gives the reports made, in order.
pub fn type_check(db: &Db, types: &Types, sf: Source) -> (r: Vec<Diagnostic>)
    requires
        program_ok(*db, types@),
        sf.0 < db.files@.len(),
    ensures
        r@.map_values(|d: Diagnostic| d@) == check_src_spec(
            *db,
            types@,
            sf.0 as int,
            CheckState {
                srcs: Seq::new(db.files@.len(), |i: int| false),
                fns: Seq::new(db.fns@.len(), |i: int| false),
                diags: Seq::empty(),
            },
        ).diags,
{
    let mut srcs: Vec<bool> = Vec::new();
    for i in 0..db.files.len()
        invariant
            srcs@ == Seq::new(i as nat, |i: int| false),
    {
        srcs.push(false);
        assert(srcs@ =~= Seq::new((i + 1) as nat, |i: int| false));
    }
    let mut fns: Vec<bool> = Vec::new();
    for i in 0..db.fns.len()
        invariant
            fns@ == Seq::new(i as nat, |i: int| false),
    {
        fns.push(false);
        assert(fns@ =~= Seq::new((i + 1) as nat, |i: int| false));
    }
    let mut diags: Vec<Diagnostic> = Vec::new();
    assert(diags@.map_values(|d: Diagnostic| d@) =~= Seq::<DiagnosticV>::empty());
    check_src(db, types, sf.0, &mut srcs, &mut fns, &mut diags);
    diags
}

fn check_src(db: &Db, types: &Types, sf: usize, srcs: &mut Vec<bool>, fns: &mut Vec<bool>, diags: &mut Vec<Diagnostic>)
    requires
        program_ok(*db, types@),
        old(srcs)@.len() == db.files@.len(),
        old(fns)@.len() == db.fns@.len(),
    ensures
        ({
            let st = check_src_spec(
                *db,
                types@,
                sf as int,
                CheckState { srcs: old(srcs)@, fns: old(fns)@, diags: old(diags)@.map_values(|d: Diagnostic| d@) },
            );
            &&& final(srcs)@ == st.srcs
            &&& final(fns)@ == st.fns
            &&& final(diags)@.map_values(|d: Diagnostic| d@) == st.diags
        }),
        final(srcs)@.len() == db.files@.len(),
        final(fns)@.len() == db.fns@.len(),
    decreases sf, 1int, 0int,
{
    if sf >= srcs.len() || srcs[sf] {
        return;
    }
    srcs.set(sf, true);
    let n = db.files[sf].defs.len();
    check_defs(db, types, sf, srcs, fns, diags, n);
}

fn check_defs(
    db: &Db,
    types: &Types,
    sf: usize,
    srcs: &mut Vec<bool>,
    fns: &mut Vec<bool>,
    diags: &mut Vec<Diagnostic>,
    k: usize,
)
    requires
        program_ok(*db, types@),
        old(srcs)@.len() == db.files@.len(),
        old(fns)@.len() == db.fns@.len(),
        sf < db.files@.len(),
        k <= db.files@[sf as int].defs@.len(),
    ensures
        ({
            let st = check_defs_spec(
                *db,
                types@,
                sf as int,
                CheckState { srcs: old(srcs)@, fns: old(fns)@, diags: old(diags)@.map_values(|d: Diagnostic| d@) },
                k as int,
            );
            &&& final(srcs)@ == st.srcs
            &&& final(fns)@ == st.fns
            &&& final(diags)@.map_values(|d: Diagnostic| d@) == st.diags
        }),
        final(srcs)@.len() == db.files@.len(),
        final(fns)@.len() == db.fns@.len(),
    decreases sf, 0int, k,
{
    if k == 0 {
        return;
    }
    check_defs(db, types, sf, srcs, fns, diags, k - 1);
    proof {
        assert(db.defs_wf());
    }
    match db.files[sf].defs[k - 1] {
        Def::Fn(f) => {
            if !fns[f.0] {
                fns.set(f.0, true);
                let r = type_check_func(db, types.copy(), f);
                let ghost before = diags@.map_values(|d: Diagnostic| d@);
                let mut ds = r.diagnostics;
                let ghost dv = ds@.map_values(|d: Diagnostic| d@);
                diags.append(&mut ds);
                assert(diags@.map_values(|d: Diagnostic| d@) =~= before + dv);
            }
        },
        Def::Struct(_) => {},
        Def::Import(_, c) => {
            check_src(db, types, c.0, srcs, fns, diags);
        },
    }
}

/// What lowering function `func` gives: the builder after its body, the
/// layouts of its parameters and of its result; none if it cannot be
/// lowered.
pub open spec fn fn_lowering(db: Db, types: Seq<TypeDataV>, func: FnDef) -> Option<(BuilderV, Seq<LayoutV>, LayoutV)> {
    let st = check_fn_spec(db, func, initial_env(db, types));
    let (m, fin) = zonk_map_spec(st, st.type_map, 0, st.types.len());
    compile_spec(LowerCtx { db, types: fin.types, tmap: m }, initial_builder(), func)
}

/// Compiled function `f` is the lowering `r`.
pub open spec fn func_is(f: Func, r: (BuilderV, Seq<LayoutV>, LayoutV)) -> bool {
    &&& blocks_view(f.blocks@) == r.0.blocks
    &&& f.variables@ == r.0.variables.map_values(|l: LayoutV| l.size as u32)
    &&& f.sig.args@.map_values(|l: Layout| l@) == r.1
    &&& f.sig.rets@.map_values(|l: Layout| l@) == seq![r.2]
}

/// Signature `s` is the one of lowering `r`.
pub open spec fn sig_is(s: FuncSig, r: (BuilderV, Seq<LayoutV>, LayoutV)) -> bool {
    &&& s.args@.map_values(|l: Layout| l@) == r.1
    &&& s.rets@.map_values(|l: Layout| l@) == seq![r.2]
}

/// Every function of the program can be checked and lowered with `types`.
pub open spec fn program_compiles(db: Db, types: Seq<TypeDataV>) -> bool {
    &&& program_ok(db, types)
    &&& forall|f: FnDef| f.0 < db.fns@.len() ==> (#[trigger] fn_lowering(db, types, f)) is Some
}

/// An association list with `v` put at key `k`: replacing the value of an
/// existing key, or added at the end.
pub open spec fn assoc_put(m: Seq<(Seq<char>, FnDef)>, k: Seq<char>, v: FnDef) -> Seq<(Seq<char>, FnDef)> {
    if exists|i: int| 0 <= i < m.len() && (#[trigger] m[i]).0 == k {
        let i = choose|i: int| 0 <= i < m.len() && (#[trigger] m[i]).0 == k;
        m.update(i, (k, v))
    } else {
        m.push((k, v))
    }
}

/// Which definition each compiled function and each external function
/// comes from, by name.
pub struct Compiled {
    pub funcs: Seq<(Seq<char>, FnDef)>,
    pub externs: Seq<(Seq<char>, FnDef)>,
}

/// The functions among the first `k` definitions of source `sf` put into
/// `acc`, in order: with a body as compiled functions, without one as
/// external ones.
pub open spec fn compile_defs_spec(db: Db, sf: int, acc: Compiled, k: int) -> Compiled
    decreases k,
{
    if k <= 0 || sf < 0 || sf >= db.files@.len() || k > db.files@[sf].defs@.len() {
        acc
    } else {
        let a1 = compile_defs_spec(db, sf, acc, k - 1);
        match db.files@[sf].defs@[k - 1] {
            Def::Fn(f) => {
                let name = db.idents@[db.fns@[f.0 as int].name.0 as int]@;
                if db.fns@[f.0 as int].body is Some {
                    Compiled { funcs: assoc_put(a1.funcs, name, f), ..a1 }
                } else {
                    Compiled { externs: assoc_put(a1.externs, name, f), ..a1 }
                }
            },
            _ => a1,
        }
    }
}

/// The sources that the first `k` definitions of `sf` import, in order.
pub open spec fn imports_of(db: Db, sf: int, k: int) -> Seq<int>
    decreases k,
{
    if k <= 0 || sf < 0 || sf >= db.files@.len() || k > db.files@[sf].defs@.len() {
        Seq::empty()
    } else {
        match db.files@[sf].defs@[k - 1] {
            Def::Import(_, c) => imports_of(db, sf, k - 1).push(c.0 as int),
            _ => imports_of(db, sf, k - 1),
        }
    }
}

/// Compiling source `sf`: its functions in order, then the sources it
/// imports, the last import first, each with the sources it imports.
pub open spec fn compile_src_spec(db: Db, sf: int, acc: Compiled) -> Compiled
    decreases sf, 1int, 0int,
{
    if sf < 0 || sf >= db.files@.len() {
        acc
    } else {
        let n = db.files@[sf].defs@.len() as int;
        let cs = imports_of(db, sf, n);
        compile_children_spec(db, sf, compile_defs_spec(db, sf, acc, n), cs, cs.len() as int)
    }
}

/// Compiling the imported sources `cs[..j]`, the last first.
pub open spec fn compile_children_spec(db: Db, sf: int, acc: Compiled, cs: Seq<int>, j: int) -> Compiled
    decreases sf, 0int, j,
{
    if j <= 0 || j > cs.len() || cs[j - 1] >= sf || cs[j - 1] < 0 {
        acc
    } else {
        compile_children_spec(db, sf, compile_src_spec(db, cs[j - 1], acc), cs, j - 1)
    }
}

/// No key occurs twice.
pub open spec fn distinct_keys(m: Seq<(Seq<char>, FnDef)>) -> bool {
    forall|i: int, j: int| 0 <= i < j < m.len() ==> (#[trigger] m[i]).0 != (#[trigger] m[j]).0
}

/// The program holds, in order, the lowerings of the definitions that
/// `c` names.
pub open spec fn prog_is(db: Db, types: Seq<TypeDataV>, p: Prog, c: Compiled) -> bool {
    &&& p.funcs@.len() == c.funcs.len()
    &&& p.externs@.len() == c.externs.len()
    &&& forall|i: int|
        0 <= i < c.funcs.len() ==> (#[trigger] p.funcs@[i]).0@ == c.funcs[i].0 && func_is(
            p.funcs@[i].1,
            fn_lowering(db, types, c.funcs[i].1).unwrap(),
        )
    &&& forall|i: int|
        0 <= i < c.externs.len() ==> (#[trigger] p.externs@[i]).0@ == c.externs[i].0 && sig_is(
            p.externs@[i].1,
            fn_lowering(db, types, c.externs[i].1).unwrap(),
        )
    &&& distinct_keys(c.funcs)
    &&& distinct_keys(c.externs)
}

/// Compiles source `sf` and the sources it imports, through its imports
/// in reverse order, into one program: for each name, the function last
/// compiled under it.
pub fn compile(db: &Db, types: &Types, sf: Source) -> (r: Prog)
    requires
        program_compiles(*db, types@),
        sf.0 < db.files@.len(),
    ensures
        prog_is(*db, types@, r, compile_src_spec(*db, sf.0 as int, Compiled { funcs: Seq::empty(), externs: Seq::empty() })),
        crate::vm::names_distinct(r.funcs@),
{
    let mut prog = Prog { funcs: Vec::new(), externs: Vec::new() };
    let ghost c0 = Compiled { funcs: Seq::empty(), externs: Seq::empty() };
    compile_src(db, types, sf.0, &mut prog, Ghost(c0));
    proof {
        let c = compile_src_spec(*db, sf.0 as int, c0);
        assert forall|i: int, j: int| 0 <= i < j < prog.funcs@.len() implies (#[trigger] prog.funcs@[i]).0@
            != (#[trigger] prog.funcs@[j]).0@ by {
            assert(prog.funcs@[i].0@ == c.funcs[i].0);
            assert(prog.funcs@[j].0@ == c.funcs[j].0);
        }
    }
    prog
}

/// Whether `name` names a struct that source `src` defines or imports.
pub fn names_struct_exec(db: &Db, src: Source, name: Ident) -> (ok: bool)
    ensures
        ok == crate::tp::names_struct(*db, src, name),
{
    if src.0 >= db.files.len() {
        return false;
    }
    match crate::resolve::get_item(db, src, name) {
        Some(crate::resolve::Item::Type { .. }) => true,
        _ => false,
    }
}

/// Whether the struct expressions of `e`, and of the expressions it is
/// made of, name structs of source `src`.
pub fn struct_names_ok_exec(db: &Db, src: Source, e: ExprId) -> (ok: bool)
    requires
        e.0 < db.exprs@.len(),
    ensures
        ok == struct_names_ok(*db, src, e),
    decreases e.0,
{
    let d = &db.exprs[e.0].data;
    match d {
        ExprData::Struct(n, _) => if !names_struct_exec(db, src, *n) {
            return false;
        },
        _ => {},
    }
    let ch = crate::ast::children_of(d);
    for k in 0..ch.len()
        invariant
            e.0 < db.exprs@.len(),
            ch@ == crate::ast::expr_children(crate::typing::expr_at(*db, e)),
            forall|k2: int| 0 <= k2 < k && (#[trigger] ch@[k2]).0 < e.0 ==> struct_names_ok(*db, src, ch@[k2]),
    {
        if ch[k].0 < e.0 {
            if !struct_names_ok_exec(db, src, ch[k]) {
                assert(crate::ast::expr_children(crate::typing::expr_at(*db, e))[k as int] == ch@[k as int]);
                return false;
            }
        }
    }
    assert forall|k: int|
        0 <= k < crate::ast::expr_children(crate::typing::expr_at(*db, e)).len() && (#[trigger] crate::ast::expr_children(
            crate::typing::expr_at(*db, e),
        )[k]).0 < e.0 implies struct_names_ok(*db, src, crate::ast::expr_children(crate::typing::expr_at(*db, e))[k]) by {
        assert(ch@[k] == crate::ast::expr_children(crate::typing::expr_at(*db, e))[k]);
    }
    true
}

/// Whether a type table can be used with syntax `db` (see `types_ok`).
pub fn types_usable(db: &Db, types: &Types) -> (ok: bool)
    ensures
        ok == types_ok(*db, types@),
{
    if !db.is_wf(types.data.len()) {
        return false;
    }
    let n = types.data.len();
    for i in 0..n
        invariant
            n == types@.len(),
            forall|j: int, k: int|
                0 <= j < i && 0 <= k < crate::tp::type_children(types@[j]).len() ==> (#[trigger] crate::tp::type_children(
                    types@[j],
                )[k]).0 < j,
            forall|j: int| 0 <= j < i ==> !((#[trigger] types@[j]) is Infer),
            forall|j: int|
                0 <= j < i ==> ((#[trigger] types@[j]) matches TypeDataV::Var(sf, x) ==> sf.0 < db.files@.len()
                    && crate::tp::names_struct(*db, sf, x)),
    {
        let d = &types.data[i];
        assert(types@[i as int] == d@);
        let ch = crate::tp::type_children_of(d);
        for k in 0..ch.len()
            invariant
                n == types@.len(),
                i < n,
                ch@ == crate::tp::type_children(types@[i as int]),
                forall|k2: int| 0 <= k2 < k ==> (#[trigger] ch@[k2]).0 < i,
        {
            if ch[k].0 >= i {
                assert(crate::tp::type_children(types@[i as int])[k as int] == ch@[k as int]);
                return false;
            }
        }
        match d {
            crate::tp::TypeData::Infer(_) => return false,
            crate::tp::TypeData::Var(sf, x) => {
                if sf.0 >= db.files.len() || !names_struct_exec(db, *sf, *x) {
                    return false;
                }
            },
            _ => {},
        }
    }
    true
}

/// Whether a program can be type checked with `types`: the syntax and the
/// table are well formed, the struct expressions of each function name
/// structs of its source, and only external functions lack a body.
pub fn checkable(db: &Db, types: &Types) -> (ok: bool)
    ensures
        ok == program_ok(*db, types@),
{
    if !types_usable(db, types) {
        return false;
    }
    let n = db.fns.len();
    for f in 0..n
        invariant
            n == db.fns@.len(),
            types_ok(*db, types@),
            forall|g: int|
                0 <= g < f ==> {
                    &&& ((#[trigger] db.fns@[g]).body matches Some(b) ==> struct_names_ok(*db, db.fns@[g].sf, b))
                    &&& (db.fns@[g].body is None ==> db.fns@[g].is_ext)
                },
    {
        let fd = &db.fns[f];
        match fd.body {
            Some(b) => {
                if !struct_names_ok_exec(db, fd.sf, b) {
                    return false;
                }
            },
            None => {
                if !fd.is_ext {
                    return false;
                }
            },
        }
    }
    true
}

/// Whether every function of the program can be lowered, that is,
/// whether a program that can be checked can also be compiled.
pub fn lowers_all(db: &Db, types: &Types) -> (ok: bool)
    requires
        program_ok(*db, types@),
    ensures
        ok == program_compiles(*db, types@),
{
    let n = db.fns.len();
    for f in 0..n
        invariant
            n == db.fns@.len(),
            program_ok(*db, types@),
            forall|g: FnDef| g.0 < f ==> (#[trigger] fn_lowering(*db, types@, g)) is Some,
    {
        let func = FnDef(f);
        let b = Builder::new(db, types.copy(), func);
        match b.try_compile(db) {
            Some(_) => {},
            None => {
                assert(fn_lowering(*db, types@, func) is None);
                return false;
            },
        }
        assert forall|g: FnDef| g.0 < f + 1 implies (#[trigger] fn_lowering(*db, types@, g)) is Some by {
            if g.0 == f {
                assert(g == func);
            }
        }
    }
    true
}

fn compile_src(db: &Db, types: &Types, sf: usize, prog: &mut Prog, Ghost(acc): Ghost<Compiled>)
    requires
        program_compiles(*db, types@),
        prog_is(*db, types@, *old(prog), acc),
    ensures
        prog_is(*db, types@, *final(prog), compile_src_spec(*db, sf as int, acc)),
    decreases sf, 1int, 0int,
{
    if sf >= db.files.len() {
        return;
    }
    let n = db.files[sf].defs.len();
    compile_defs(db, types, sf, prog, Ghost(acc), n);
    let ghost a1 = compile_defs_spec(*db, sf as int, acc, n as int);
    compile_children(db, types, sf, prog, Ghost(a1), n);
}

fn compile_children(db: &Db, types: &Types, sf: usize, prog: &mut Prog, Ghost(acc): Ghost<Compiled>, k: usize)
    requires
        program_compiles(*db, types@),
        prog_is(*db, types@, *old(prog), acc),
        sf < db.files@.len(),
        k <= db.files@[sf as int].defs@.len(),
    ensures
        prog_is(
            *db,
            types@,
            *final(prog),
            compile_children_spec(*db, sf as int, acc, imports_of(*db, sf as int, db.files@[sf as int].defs@.len() as int), imports_of(*db, sf as int, k as int).len() as int),
        ),
    decreases sf, 0int, k,
{
    proof {
        lemma_imports_prefix(*db, sf as int, k as int, db.files@[sf as int].defs@.len() as int);
    }
    if k == 0 {
        return;
    }
    match db.files[sf].defs[k - 1] {
        Def::Import(_, c) => {
            proof {
                assert(db.defs_wf());
            }
            let ghost cs = imports_of(*db, sf as int, db.files@[sf as int].defs@.len() as int);
            let ghost j = imports_of(*db, sf as int, k as int).len() as int;
            assert(imports_of(*db, sf as int, k as int) == imports_of(*db, sf as int, k - 1).push(c.0 as int));
            assert(imports_of(*db, sf as int, k as int)[j - 1] == c.0 as int);
            assert(cs[j - 1] == c.0 as int);
            compile_src(db, types, c.0, prog, Ghost(acc));
            compile_children(db, types, sf, prog, Ghost(compile_src_spec(*db, c.0 as int, acc)), k - 1);
        },
        _ => {
            compile_children(db, types, sf, prog, Ghost(acc), k - 1);
        },
    }
}

/// The imports of a prefix of the definitions are a prefix of the imports.
proof fn lemma_imports_prefix(db: Db, sf: int, k: int, n: int)
    requires
        0 <= sf < db.files@.len(),
        0 <= k <= n <= db.files@[sf].defs@.len(),
    ensures
        imports_of(db, sf, k).len() <= imports_of(db, sf, n).len(),
        forall|i: int| 0 <= i < imports_of(db, sf, k).len() ==> imports_of(db, sf, n)[i] == (#[trigger] imports_of(db, sf, k)[i]),
    decreases n - k,
{
    if k < n {
        lemma_imports_prefix(db, sf, k, n - 1);
    }
}

#[verifier::spinoff_prover]
#[verifier::rlimit(40)]
fn compile_defs(db: &Db, types: &Types, sf: usize, prog: &mut Prog, Ghost(acc): Ghost<Compiled>, k: usize)
    requires
        program_compiles(*db, types@),
        prog_is(*db, types@, *old(prog), acc),
        sf < db.files@.len(),
        k <= db.files@[sf as int].defs@.len(),
    ensures
        prog_is(*db, types@, *final(prog), compile_defs_spec(*db, sf as int, acc, k as int)),
    decreases k,
{
    if k == 0 {
        return;
    }
    compile_defs(db, types, sf, prog, Ghost(acc), k - 1);
    let ghost a1 = compile_defs_spec(*db, sf as int, acc, k - 1);
    proof {
        assert(db.defs_wf());
    }
    match db.files[sf].defs[k - 1] {
        Def::Fn(f) => {
            let fd = &db.fns[f.0];
            proof {
                assert(db.wf(types@.len()));
                assert(fd.name.0 < db.idents@.len());
                assert(fn_lowering(*db, types@, f) is Some);
            }
            let name = db.idents[fd.name.0].clone();
            let b = Builder::new(db, types.copy(), f);
            match b.compile(db) {
                LoweringResult::Function(func) => {
                    put_func(prog, name, func, Ghost(*db), Ghost(types@), Ghost(a1), Ghost(f));
                },
                LoweringResult::Extern(sig) => {
                    put_extern(prog, name, sig, Ghost(*db), Ghost(types@), Ghost(a1), Ghost(f));
                },
            }
        },
        _ => {},
    }
}

fn put_func(
    prog: &mut Prog,
    name: String,
    func: Func,
    Ghost(db): Ghost<Db>,
    Ghost(types): Ghost<Seq<TypeDataV>>,
    Ghost(acc): Ghost<Compiled>,
    Ghost(f): Ghost<FnDef>,
)
    requires
        prog_is(db, types, *old(prog), acc),
        fn_lowering(db, types, f) is Some,
        func_is(func, fn_lowering(db, types, f).unwrap()),
    ensures
        prog_is(db, types, *final(prog), Compiled { funcs: assoc_put(acc.funcs, name@, f), ..acc }),
{
    let ghost nv = name@;
    let ghost c = Compiled { funcs: assoc_put(acc.funcs, nv, f), ..acc };
    match find_name(&prog.funcs, &name) {
        Some(i) => {
            proof {
                assert(acc.funcs[i as int].0 == nv);
                let w = choose|w: int| 0 <= w < acc.funcs.len() && (#[trigger] acc.funcs[w]).0 == nv;
                assert(w == i);
            }
            prog.funcs.set(i, (name, func));
            proof {
                assert forall|j: int| 0 <= j < c.funcs.len() implies (#[trigger] prog.funcs@[j]).0@ == c.funcs[j].0 && func_is(
                    prog.funcs@[j].1,
                    fn_lowering(db, types, c.funcs[j].1).unwrap(),
                ) by {
                    if j != i {
                        assert(prog.funcs@[j] == old(prog).funcs@[j]);
                    }
                }
            }
        },
        None => {
            proof {
                assert forall|w: int| 0 <= w < acc.funcs.len() implies (#[trigger] acc.funcs[w]).0 != nv by {
                    assert(prog.funcs@[w].0@ == acc.funcs[w].0);
                }
            }
            let n = prog.funcs.len();
            prog.funcs.push((name, func));
            proof {
                assert forall|j: int| 0 <= j < c.funcs.len() implies (#[trigger] prog.funcs@[j]).0@ == c.funcs[j].0 && func_is(
                    prog.funcs@[j].1,
                    fn_lowering(db, types, c.funcs[j].1).unwrap(),
                ) by {
                    if j < n {
                        assert(prog.funcs@[j] == old(prog).funcs@[j]);
                    }
                }
            }
        },
    }
}

fn put_extern(
    prog: &mut Prog,
    name: String,
    sig: FuncSig,
    Ghost(db): Ghost<Db>,
    Ghost(types): Ghost<Seq<TypeDataV>>,
    Ghost(acc): Ghost<Compiled>,
    Ghost(f): Ghost<FnDef>,
)
    requires
        prog_is(db, types, *old(prog), acc),
        fn_lowering(db, types, f) is Some,
        sig_is(sig, fn_lowering(db, types, f).unwrap()),
    ensures
        prog_is(db, types, *final(prog), Compiled { externs: assoc_put(acc.externs, name@, f), ..acc }),
{
    let ghost nv = name@;
    let ghost c = Compiled { externs: assoc_put(acc.externs, nv, f), ..acc };
    match find_name(&prog.externs, &name) {
        Some(i) => {
            proof {
                assert(acc.externs[i as int].0 == nv);
                let w = choose|w: int| 0 <= w < acc.externs.len() && (#[trigger] acc.externs[w]).0 == nv;
                assert(w == i);
            }
            prog.externs.set(i, (name, sig));
            proof {
                assert forall|j: int| 0 <= j < c.externs.len() implies (#[trigger] prog.externs@[j]).0@ == c.externs[j].0 && sig_is(
                    prog.externs@[j].1,
                    fn_lowering(db, types, c.externs[j].1).unwrap(),
                ) by {
                    if j != i {
                        assert(prog.externs@[j] == old(prog).externs@[j]);
                    }
                }
            }
        },
        None => {
            proof {
                assert forall|w: int| 0 <= w < acc.externs.len() implies (#[trigger] acc.externs[w]).0 != nv by {
                    assert(prog.externs@[w].0@ == acc.externs[w].0);
                }
            }
            let n = prog.externs.len();
            prog.externs.push((name, sig));
            proof {
                assert forall|j: int| 0 <= j < c.externs.len() implies (#[trigger] prog.externs@[j]).0@ == c.externs[j].0 && sig_is(
                    prog.externs@[j].1,
                    fn_lowering(db, types, c.externs[j].1).unwrap(),
                ) by {
                    if j < n {
                        assert(prog.externs@[j] == old(prog).externs@[j]);
                    }
                }
            }
        },
    }
}

/// The first index of an entry named `name`.
fn find_name<T>(v: &Vec<(String, T)>, name: &String) -> (r: Option<usize>)
    ensures
        match r {
            Some(i) => i < v@.len() && v@[i as int].0@ == name@,
            None => forall|j: int| 0 <= j < v@.len() ==> (#[trigger] v@[j]).0@ != name@,
        },
{
    let n = v.len();
    for i in 0..n
        invariant
            n == v@.len(),
            forall|j: int| 0 <= j < i ==> (#[trigger] v@[j]).0@ != name@,
    {
        if same_name(&v[i].0, name) {
            return Some(i);
        }
    }
    None
}

fn same_name(a: &String, b: &String) -> (r: bool)
    ensures
        r == (a@ == b@),
{
    let n = a.as_str().unicode_len();
    if n != b.as_str().unicode_len() {
        return false;
    }
    for k in 0..n
        invariant
            n == a@.len(),
            n == b@.len(),
            a@.take(k as int) == b@.take(k as int),
    {
        if a.as_str().get_char(k) != b.as_str().get_char(k) {
            assert(a@[k as int] != b@[k as int]);
            return false;
        }
        assert(a@.take(k + 1) =~= a@.take(k as int).push(a@[k as int]));
        assert(b@.take(k + 1) =~= b@.take(k as int).push(b@[k as int]));
    }
    assert(a@ =~= a@.take(n as int));
    assert(b@ =~= b@.take(n as int));
    true
}
} // verus!
