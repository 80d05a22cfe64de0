use rcomp::ast::{
    Db, Def, ExprData, ExprId, ExprNode, File, FnDef, FnDefData, Ident, PatternData, PatternId,
    PatternNode, Span, StructDef, StructDefData,
};
use rcomp::bytecode::{Inst, Terminator, Type};
use rcomp::codegen::{
    clif_binop_of, clif_unop_of, declarations, define_fn, fn_signature, ClifBinop, ClifOp, ClifTy, ClifUnop,
    IntCmp,
};
use rcomp::common::{Binop, Unop};
use rcomp::driver::{compile, type_check, type_check_func};
use rcomp::input::Source;
use rcomp::lowerer::{Builder, LoweringResult};
use rcomp::tp::{combine_values, Env, InferValue, TypeData, TypeId, Types, VarBinding};
use rcomp::vm::{Event, Value, VM};

fn sp(a: usize, b: usize) -> Span {
    Span { start_byte: a, end_byte: b }
}

/// A syntax tree under construction, with its type table.
struct Prog {
    db: Db,
    types: Types,
}

impl Prog {
    fn new() -> Self {
        Prog {
            db: Db {
                files: vec![File { defs: vec![] }],
                exprs: vec![],
                patterns: vec![],
                fns: vec![],
                structs: vec![],
                idents: vec![],
                strs: vec![],
            },
            types: Types { data: vec![] },
        }
    }

    fn ident(&mut self, s: &str) -> Ident {
        self.db.idents.push(s.to_string());
        Ident(self.db.idents.len() - 1)
    }

    fn e(&mut self, d: ExprData) -> ExprId {
        let n = self.db.exprs.len();
        self.db.exprs.push(ExprNode { data: d, span: sp(n, n + 1) });
        ExprId(n)
    }

    fn pat(&mut self, d: PatternData) -> PatternId {
        let n = self.db.patterns.len();
        self.db.patterns.push(PatternNode { data: d, span: sp(100 + n, 101 + n) });
        PatternId(n)
    }

    fn ty(&mut self, d: TypeData) -> TypeId {
        self.types.data.push(d);
        TypeId(self.types.data.len() - 1)
    }

    fn func(&mut self, name: &str, args: Vec<(PatternId, TypeId)>, ret: Option<TypeId>, body: Option<ExprId>) -> FnDef {
        let name = self.ident(name);
        self.db.fns.push(FnDefData {
            is_ext: body.is_none(),
            name,
            span: sp(0, 0),
            args,
            ret,
            body,
            sf: Source(0),
        });
        let f = FnDef(self.db.fns.len() - 1);
        self.db.files[0].defs.push(Def::Fn(f));
        f
    }
}

fn is_prim(types: &Types, t: TypeId, p: Type) -> bool {
    matches!(&types.data[t.0], TypeData::Primitive(q) if *q == p)
}

#[test]
fn sum_is_typed_as_int64() {
    let mut p = Prog::new();
    let i64t = p.ty(TypeData::Primitive(Type::Int64));
    let one = p.e(ExprData::Number(1));
    let two = p.e(ExprData::Number(2));
    let sum = p.e(ExprData::Binop(Binop::Add, one, two));
    let f = p.func("main", vec![], Some(i64t), Some(sum));
    let r = type_check_func(&p.db, p.types, f);
    assert!(r.diagnostics.is_empty());
    for e in [one, two, sum] {
        let t = r.type_map[e.0].unwrap();
        assert!(is_prim(&r.types, t, Type::Int64));
    }
}

/// Whether type `t` mentions an inference variable.
fn mentions_var(types: &Types, t: TypeId) -> bool {
    match &types.data[t.0] {
        TypeData::Infer(_) => true,
        TypeData::Fn(sig) => sig.args.iter().any(|a| mentions_var(types, *a)) || mentions_var(types, sig.ret),
        TypeData::Ptr(p, _) | TypeData::Slice(p, _) | TypeData::Array(_, p) => mentions_var(types, *p),
        TypeData::Tuple(ts) => ts.iter().any(|a| mentions_var(types, *a)),
        _ => false,
    }
}

#[test]
fn finished_types_hold_no_variables() {
    let mut p = Prog::new();
    let n = p.e(ExprData::Number(3));
    let m = p.e(ExprData::Number(4));
    let pair = p.e(ExprData::Tuple(vec![n, m]));
    let addr = p.e(ExprData::AddressOf(pair));
    let arr = p.e(ExprData::Array(vec![n, m]));
    let body = p.e(ExprData::Sequence(addr, arr));
    let f = p.func("f", vec![], None, Some(body));
    let r = type_check_func(&p.db, p.types, f);
    for e in [n, m, pair, addr, arr, body] {
        let t = r.type_map[e.0].unwrap();
        assert!(!mentions_var(&r.types, t));
    }
    assert!(matches!(&r.types.data[r.type_map[addr.0].unwrap().0], TypeData::Ptr(..)));
}

#[test]
fn unconstrained_number_defaults_to_int64() {
    let mut p = Prog::new();
    let n = p.e(ExprData::Number(7));
    let neg = p.e(ExprData::Unop(Unop::Neg, n));
    let body = p.e(ExprData::Sequence(neg, n));
    let unit = p.ty(TypeData::Tuple(vec![]));
    let _ = unit;
    let f = p.func("f", vec![], None, Some(body));
    let r = type_check_func(&p.db, p.types, f);
    let t = r.type_map[neg.0].unwrap();
    assert!(is_prim(&r.types, t, Type::Int64));
    // The body's value is a number where unit is expected.
    assert_eq!(r.diagnostics.len(), 1);
    assert!(r.diagnostics[0].message.starts_with("type mismatch. expected: TypeId("));
}

#[test]
fn bool_body_against_int_return_is_a_mismatch() {
    let mut p = Prog::new();
    let i64t = p.ty(TypeData::Primitive(Type::Int64));
    let b = p.e(ExprData::Bool(true));
    let f = p.func("f", vec![], Some(i64t), Some(b));
    let r = type_check_func(&p.db, p.types, f);
    assert_eq!(r.diagnostics.len(), 1);
    let d = &r.diagnostics[0];
    let got = r.type_map[b.0].unwrap();
    assert_eq!(d.message, format!("type mismatch. expected: TypeId(0), got: TypeId({})", got.0));
    assert_eq!((d.start_byte, d.end_byte), (0, 1));
    assert!(d.notes.is_empty());
}

#[test]
fn calling_a_number_is_reported() {
    let mut p = Prog::new();
    let n = p.e(ExprData::Number(1));
    let call = p.e(ExprData::FnCall(n, vec![]));
    let body = p.e(ExprData::Sequence(call, call));
    let f = p.func("f", vec![], None, Some(body));
    let r = type_check_func(&p.db, p.types, f);
    assert!(r.diagnostics.iter().any(|d| d.message == "this expression is not a function and cannot be called"));
    // A call of something that is not a function gets no recorded type.
    assert!(r.type_map[call.0].is_none());
}

#[test]
fn call_arguments_are_counted() {
    let mut p = Prog::new();
    let i64t = p.ty(TypeData::Primitive(Type::Int64));
    let x = p.ident("x");
    let px = p.pat(PatternData::Var(x, false));
    let xv = p.e(ExprData::Var(x));
    let g = p.func("g", vec![(px, i64t)], Some(i64t), Some(xv));
    let _ = g;
    let gname = Ident(p.db.fns[0].name.0);
    let callee = p.e(ExprData::Var(gname));
    let a1 = p.e(ExprData::Number(1));
    let a2 = p.e(ExprData::Number(2));
    let too_many = p.e(ExprData::FnCall(callee, vec![a1, a2]));
    let callee2 = p.e(ExprData::Var(gname));
    let too_few = p.e(ExprData::FnCall(callee2, vec![]));
    let body = p.e(ExprData::Sequence(too_many, too_few));
    let f = p.func("f", vec![], Some(i64t), Some(body));
    let r = type_check_func(&p.db, p.types, f);
    let msgs: Vec<String> = r.diagnostics.iter().map(|d| d.message.clone()).collect();
    assert!(msgs.contains(&"unexpected arg #2".to_string()));
    assert!(msgs.contains(&"missing arg #0 of type TypeId(0)".to_string()));
}

#[test]
fn assigning_to_an_immutable_variable_is_reported() {
    let mut p = Prog::new();
    let x = p.ident("x");
    let px = p.pat(PatternData::Var(x, false));
    let one = p.e(ExprData::Number(1));
    let xv = p.e(ExprData::Var(x));
    let two = p.e(ExprData::Number(2));
    let assign = p.e(ExprData::Assign(xv, two));
    let body = p.e(ExprData::Let(px, one, assign));
    let f = p.func("f", vec![], None, Some(body));
    let r = type_check_func(&p.db, p.types, f);
    assert_eq!(r.diagnostics.len(), 1);
    assert_eq!(r.diagnostics[0].message, "this expression cannot be mutated");
    assert_eq!(r.diagnostics[0].start_byte, xv.0);
}

#[test]
fn dereferencing_and_indexing_errors_are_reported() {
    let mut p = Prog::new();
    let one = p.e(ExprData::Number(1));
    let d = p.e(ExprData::Deref(one));
    let t = p.e(ExprData::Bool(true));
    let two = p.e(ExprData::Number(2));
    let idx = p.e(ExprData::Index(t, two));
    let s1 = p.e(ExprData::Sequence(d, idx));
    let arr_elem = p.e(ExprData::Number(3));
    let arr = p.e(ExprData::Array(vec![arr_elem]));
    let b = p.e(ExprData::Bool(false));
    let idx2 = p.e(ExprData::Index(arr, b));
    let s2 = p.e(ExprData::Sequence(s1, idx2));
    let unit = p.e(ExprData::Tuple(vec![]));
    let body = p.e(ExprData::Sequence(s2, unit));
    let f = p.func("f", vec![], None, Some(body));
    let r = type_check_func(&p.db, p.types, f);
    let msgs: Vec<String> = r.diagnostics.iter().map(|d| d.message.clone()).collect();
    assert_eq!(
        msgs,
        vec![
            "this expression cannot be dereferenced".to_string(),
            "this expression cannot be indexed".to_string(),
            "this expression cannot be use as an index".to_string(),
        ]
    );
}

#[test]
fn struct_fields_are_checked() {
    let mut p = Prog::new();
    let i64t = p.ty(TypeData::Primitive(Type::Int64));
    let sname = p.ident("P");
    let fx = p.ident("x");
    let fy = p.ident("y");
    p.db.structs.push(StructDefData { name: sname, span: sp(0, 0), fields: vec![(fx, i64t), (fy, i64t)], sf: Source(0) });
    p.db.files[0].defs.push(Def::Struct(StructDef(0)));
    let a = p.e(ExprData::Number(1));
    let b = p.e(ExprData::Number(2));
    let lit = p.e(ExprData::Struct(sname, vec![(fx, a), (fx, b)]));
    let fz = p.ident("z");
    let acc = p.e(ExprData::Field(lit, fz));
    let unit = p.e(ExprData::Tuple(vec![]));
    let body = p.e(ExprData::Sequence(acc, unit));
    let f = p.func("f", vec![], None, Some(body));
    let r = type_check_func(&p.db, p.types, f);
    let msgs: Vec<String> = r.diagnostics.iter().map(|d| d.message.clone()).collect();
    assert_eq!(msgs[0], "duplicate field: \"x\"");
    assert_eq!(msgs[1], "missing field: \"y\"");
    assert!(msgs[2].starts_with("no field named \"z\" on type TypeId("));
}

#[test]
fn a_struct_of_the_importing_file_is_checked_there() {
    let mut p = Prog::new();
    let i64t = p.ty(TypeData::Primitive(Type::Int64));
    let one = p.e(ExprData::Number(1));
    let helper = p.func("helper", vec![], Some(i64t), Some(one));
    let _ = helper;
    p.db.strs.push("lib.c".to_string());
    let sname = p.ident("P");
    let fx = p.ident("x");
    p.db.structs.push(StructDefData { name: sname, span: sp(0, 0), fields: vec![(fx, i64t)], sf: Source(1) });
    let two = p.e(ExprData::Number(2));
    let lit = p.e(ExprData::Struct(sname, vec![(fx, two)]));
    let v = p.ident("v");
    let pv = p.pat(PatternData::Var(v, false));
    let var = p.e(ExprData::Var(v));
    let acc = p.e(ExprData::Field(var, fx));
    let body = p.e(ExprData::Let(pv, lit, acc));
    let main = p.ident("main");
    p.db.fns.push(FnDefData {
        is_ext: false,
        name: main,
        span: sp(0, 0),
        args: vec![],
        ret: Some(i64t),
        body: Some(body),
        sf: Source(1),
    });
    p.db.files.push(File {
        defs: vec![
            Def::Import(rcomp::ast::StrLit(0), Source(0)),
            Def::Struct(StructDef(0)),
            Def::Fn(FnDef(1)),
        ],
    });
    let diags = type_check(&p.db, &p.types, Source(1));
    assert!(diags.is_empty());
    let prog = compile(&p.db, &p.types, Source(1));
    assert_eq!(prog.funcs.len(), 2);
    let mut vm = VM::new(&prog.funcs);
    assert_eq!(vm.eval_func("main", 1000), Event::Finished);
    assert_eq!(vm.finish(), Some(Value::Int64(2)));
}

#[test]
fn tuple_pattern_against_a_number_is_reported() {
    let mut p = Prog::new();
    let pw = p.pat(PatternData::Wildcard);
    let pt = p.pat(PatternData::Tuple(vec![pw]));
    let one = p.e(ExprData::Number(1));
    let unit = p.e(ExprData::Tuple(vec![]));
    let body = p.e(ExprData::Let(pt, one, unit));
    let f = p.func("f", vec![], None, Some(body));
    let r = type_check_func(&p.db, p.types, f);
    assert_eq!(r.diagnostics.len(), 1);
    assert!(r.diagnostics[0].message.starts_with("expected TypeId("));
    assert!(r.diagnostics[0].message.ends_with(", but this matches 1-element tuple"));
    assert_eq!(r.diagnostics[0].start_byte, 101);
}

#[test]
fn if_without_else_must_be_unit() {
    let mut p = Prog::new();
    let c = p.e(ExprData::Bool(true));
    let one = p.e(ExprData::Number(1));
    let e = p.e(ExprData::If(c, one, None));
    let unit = p.e(ExprData::Tuple(vec![]));
    let body = p.e(ExprData::Sequence(e, unit));
    let f = p.func("f", vec![], None, Some(body));
    let r = type_check_func(&p.db, p.types, f);
    assert_eq!(r.diagnostics.len(), 1);
    assert!(r.diagnostics[0].message.starts_with("missing else branch of type TypeId("));
}

#[test]
fn env_scopes_shadow_and_close() {
    let mut p = Prog::new();
    let x = p.ident("x");
    let i64t = p.ty(TypeData::Primitive(Type::Int64));
    let boolt = p.ty(TypeData::Primitive(Type::Bool));
    let db = p.db;
    let mut env = Env::new(&db, Source(0), p.types);
    env.add_var(&db, x, VarBinding { tp: i64t, is_mut: false });
    env.push_scope(&db);
    env.extend(&db, vec![(x, VarBinding { tp: boolt, is_mut: true })]);
    assert_eq!(env.get_var(&db, x), Some(VarBinding { tp: boolt, is_mut: true }));
    env.pop_scope(&db);
    assert_eq!(env.get_var(&db, x), Some(VarBinding { tp: i64t, is_mut: false }));
}

#[test]
fn unification_binds_and_zonks() {
    let mut p = Prog::new();
    let i64t = p.ty(TypeData::Primitive(Type::Int64));
    let boolt = p.ty(TypeData::Primitive(Type::Bool));
    let tup = p.ty(TypeData::Tuple(vec![]));
    let db = p.db;
    let mut env = Env::new(&db, Source(0), p.types);
    let v = env.new_numeric_var(&db);
    let w = env.new_unbound_var(&db);
    assert!(env.coerce_into(&db, v, w));
    assert!(!env.coerce_into(&db, v, tup));
    assert!(env.coerce_into(&db, w, i64t));
    assert_eq!(env.weak_resolve(&db, v), i64t);
    assert!(!env.coerce_into(&db, boolt, i64t));
    let u = env.new_unbound_var(&db);
    let z = env.zonk(&db, u);
    assert!(matches!(env.types.data[z.0], TypeData::Error));
    let n = env.new_numeric_var(&db);
    let z = env.zonk(&db, n);
    assert!(matches!(env.types.data[z.0], TypeData::Primitive(Type::Int64)));
}

#[test]
fn coercion_is_reflexive_and_drops_mutability() {
    let mut p = Prog::new();
    let i64t = p.ty(TypeData::Primitive(Type::Int64));
    let boolt = p.ty(TypeData::Primitive(Type::Bool));
    let pair = p.ty(TypeData::Tuple(vec![i64t, boolt]));
    let mp = p.ty(TypeData::Ptr(pair, true));
    let sp_ = p.ty(TypeData::Ptr(pair, false));
    let ms = p.ty(TypeData::Slice(i64t, true));
    let ss = p.ty(TypeData::Slice(i64t, false));
    let db = p.db;
    let mut env = Env::new(&db, Source(0), p.types);
    for t in [i64t, pair, mp, sp_, ms, ss] {
        assert!(env.coerce_into(&db, t, t));
    }
    assert!(env.coerce_into(&db, mp, sp_));
    assert!(!env.coerce_into(&db, sp_, mp));
    assert!(env.coerce_into(&db, ms, ss));
    assert!(!env.coerce_into(&db, ss, ms));
}

#[test]
fn zonking_keeps_resolved_types() {
    let mut p = Prog::new();
    let i64t = p.ty(TypeData::Primitive(Type::Int64));
    let pair = p.ty(TypeData::Tuple(vec![i64t, i64t]));
    let ptr = p.ty(TypeData::Ptr(pair, true));
    let db = p.db;
    let mut env = Env::new(&db, Source(0), p.types);
    let before = env.types.data.len();
    assert_eq!(env.zonk(&db, ptr), ptr);
    assert_eq!(env.types.data.len(), before);
    let v = env.new_numeric_var(&db);
    let pv = env.types.wrap(TypeData::Ptr(v, false));
    let z = env.zonk(&db, pv);
    assert_ne!(z, pv);
    assert!(matches!(env.types.data[z.0], TypeData::Ptr(t, false) if matches!(env.types.data[t.0], TypeData::Primitive(Type::Int64))));
    let after = env.types.data.len();
    assert_eq!(env.zonk(&db, z), z);
    assert_eq!(env.types.data.len(), after);
}

fn add_main(p: &mut Prog) -> FnDef {
    let i64t = p.ty(TypeData::Primitive(Type::Int64));
    let one = p.e(ExprData::Number(40));
    let two = p.e(ExprData::Number(2));
    let sum = p.e(ExprData::Binop(Binop::Add, one, two));
    p.func("main", vec![], Some(i64t), Some(sum))
}

#[test]
fn lowered_sum_runs_to_its_value() {
    let mut p = Prog::new();
    let f = add_main(&mut p);
    let b = Builder::new(&p.db, p.types, f);
    let func = match b.compile(&p.db) {
        LoweringResult::Function(func) => func,
        LoweringResult::Extern(_) => panic!("expected a function"),
    };
    let text = func.text();
    assert!(text.starts_with("block 0:\n\tpush 40\n\tset $1 +0\n\tpush 2\n\tset $2 +0\n"));
    assert!(text.ends_with("\tget $0 +0 Int64\n\tret\n"));
    let funcs = vec![("main".to_string(), func)];
    let mut vm = VM::new(&funcs);
    assert_eq!(vm.eval_func("main", 1000), Event::Finished);
    assert_eq!(vm.finish(), Some(Value::Int64(42)));
}

#[test]
fn program_compiles_by_name() {
    let mut p = Prog::new();
    let f = add_main(&mut p);
    let _ = f;
    let ext = p.func("must_print", vec![], None, None);
    let _ = ext;
    let prog = compile(&p.db, &p.types, Source(0));
    assert_eq!(prog.funcs.len(), 1);
    assert_eq!(prog.funcs[0].0, "main");
    assert_eq!(prog.externs.len(), 1);
    assert_eq!(prog.externs[0].0, "must_print");
    let listing = prog.text();
    assert!(listing.starts_with("\"main\" (3):\nblock 0:\n"));
    let diags = type_check(&p.db, &p.types, Source(0));
    assert!(diags.is_empty());
}

#[test]
fn machine_code_plan_follows_the_stack() {
    let mut p = Prog::new();
    let f = add_main(&mut p);
    let _ = f;
    let prog = compile(&p.db, &p.types, Source(0));
    let decls = declarations(&prog);
    assert_eq!(decls.len(), 1);
    let own = fn_signature(&prog.funcs[0].1.sig);
    assert!(own.params.is_empty());
    assert_eq!(own.results, vec![ClifTy::I64]);
    let blocks = define_fn(&decls, &own, &prog.funcs[0].1).unwrap();
    assert_eq!(blocks.len(), 1);
    match &blocks[0][0] {
        ClifOp::Iconst { ty, imm, res } => {
            assert_eq!(*ty, ClifTy::I64);
            assert_eq!(*imm, 40);
            assert_eq!(*res, 0);
        }
        _ => panic!("expected a constant"),
    }
    match blocks[0].last().unwrap() {
        ClifOp::Return { vals } => assert_eq!(vals.len(), 1),
        _ => panic!("expected a return"),
    }
    let _ = Inst::Drop;
    let _ = Terminator::Ret;
}

/// The values that a machine instruction uses and defines.
fn uses_defs(op: &ClifOp) -> (Vec<usize>, Vec<usize>) {
    match op {
        ClifOp::Iconst { res, .. } | ClifOp::StackLoad { res, .. } | ClifOp::StackAddr { res, .. } => (vec![], vec![*res]),
        ClifOp::Binary { a, b, res, .. } => (vec![*a, *b], vec![*res]),
        ClifOp::Unary { a, res, .. } => (vec![*a], vec![*res]),
        ClifOp::Load { ptr, res, .. } => (vec![*ptr], vec![*res]),
        ClifOp::StackStore { val, .. } => (vec![*val], vec![]),
        ClifOp::Store { val, ptr, .. } => (vec![*val, *ptr], vec![]),
        ClifOp::Call { args, results, .. } => (args.clone(), results.clone()),
        ClifOp::MemCopy { dest, src, .. } => (vec![*dest, *src], vec![]),
        ClifOp::Jump { .. } => (vec![], vec![]),
        ClifOp::Brif { cond, .. } => (vec![*cond], vec![]),
        ClifOp::Return { vals } => (vals.clone(), vec![]),
    }
}

#[test]
fn machine_code_defines_values_before_use() {
    let mut p = Prog::new();
    let f = add_main(&mut p);
    let _ = f;
    let prog = compile(&p.db, &p.types, Source(0));
    let decls = declarations(&prog);
    let own = fn_signature(&prog.funcs[0].1.sig);
    let blocks = define_fn(&decls, &own, &prog.funcs[0].1).unwrap();
    let mut defined = own.params.len();
    let mut count = 0;
    for ops in &blocks {
        for op in ops {
            let (uses, defs) = uses_defs(op);
            assert!(uses.iter().all(|u| *u < defined));
            for (k, d) in defs.iter().enumerate() {
                assert_eq!(*d, defined + k);
            }
            defined += defs.len();
            count += 1;
        }
    }
    assert!(count > 4);
    assert!(defined >= 4);
}

#[test]
fn popping_an_empty_stack_has_no_machine_code() {
    let sig = rcomp::bytecode::FuncSig { args: vec![], rets: vec![] };
    let own = fn_signature(&sig);
    let f = rcomp::bytecode::Func {
        blocks: vec![rcomp::bytecode::Block { insts: vec![Inst::Drop], terminator: Terminator::Ret }],
        variables: vec![],
        sig,
    };
    assert!(define_fn(&vec![], &own, &f).is_none());
    let g = rcomp::bytecode::Func {
        blocks: vec![rcomp::bytecode::Block { insts: vec![Inst::PushInt(1)], terminator: Terminator::Jmp(3) }],
        variables: vec![],
        sig: rcomp::bytecode::FuncSig { args: vec![], rets: vec![] },
    };
    assert!(define_fn(&vec![], &own, &g).is_none());
}

#[test]
fn type_layouts() {
    let mut p = Prog::new();
    let i64t = p.ty(TypeData::Primitive(Type::Int64));
    let boolt = p.ty(TypeData::Primitive(Type::Bool));
    let tup = p.ty(TypeData::Tuple(vec![boolt, i64t]));
    let arr = p.ty(TypeData::Array(3, i64t));
    let sl = p.ty(TypeData::Slice(i64t, false));
    let rng = p.ty(TypeData::Range);
    let sname = p.ident("P");
    let fa = p.ident("a");
    let fb = p.ident("b");
    p.db.structs.push(StructDefData { name: sname, span: sp(0, 0), fields: vec![(fa, boolt), (fb, tup)], sf: Source(0) });
    p.db.files[0].defs.push(Def::Struct(StructDef(0)));
    let st = p.ty(TypeData::Var(Source(0), sname));
    let l = tup.layout(&p.db, &p.types);
    assert_eq!(l.size(), 9);
    assert_eq!(arr.layout(&p.db, &p.types).size(), 24);
    assert_eq!(sl.layout(&p.db, &p.types).size(), 16);
    assert_eq!(rng.layout(&p.db, &p.types).size(), 16);
    let ls = st.layout(&p.db, &p.types);
    assert_eq!(ls.size(), 10);
    match &ls.fields {
        rcomp::bytecode::Fields::Struct { fields } => {
            assert_eq!(fields.iter().map(|f| f.0).collect::<Vec<_>>(), vec![0, 1]);
        }
        _ => panic!("not a struct"),
    }
}

#[test]
fn names_resolve_through_imports() {
    let mut p = Prog::new();
    let i64t = p.ty(TypeData::Primitive(Type::Int64));
    let body = p.e(ExprData::Number(1));
    let f = p.func("helper", vec![], Some(i64t), Some(body));
    let _ = f;
    p.db.strs.push("lib.c".to_string());
    p.db.files.push(File { defs: vec![Def::Import(rcomp::ast::StrLit(0), Source(0))] });
    let helper = Ident(p.db.fns[0].name.0);
    match rcomp::resolve::get_item(&p.db, Source(1), helper) {
        Some(rcomp::resolve::Item::Function { def, .. }) => assert_eq!(def, FnDef(0)),
        _ => panic!("expected the imported function"),
    }
    let missing = p.ident("nope");
    assert!(rcomp::resolve::get_item(&p.db, Source(1), missing).is_none());
    let defs = rcomp::resolve::get_defs(&p.db, Source(1));
    assert_eq!(defs.items.len(), 1);
    let sig = rcomp::resolve::parse_fn_signature(&p.db, &mut p.types, FnDef(0));
    assert!(sig.args.is_empty());
    assert_eq!(sig.ret, i64t);
}

#[test]
fn bound_variables_stay_bound_when_classes_merge() {
    let mut p = Prog::new();
    let i64t = p.ty(TypeData::Primitive(Type::Int64));
    let db = p.db;
    let mut env = Env::new(&db, Source(0), p.types);
    let v = env.new_unbound_var(&db);
    assert!(env.coerce_into(&db, v, i64t));
    let w = env.new_numeric_var(&db);
    let x = env.new_unbound_var(&db);
    assert!(env.coerce_into(&db, w, x));
    assert!(env.coerce_into(&db, x, v));
    assert_eq!(env.weak_resolve(&db, v), i64t);
    assert_eq!(env.weak_resolve(&db, w), i64t);
    assert_eq!(env.weak_resolve(&db, x), i64t);
}

#[test]
fn inference_keeps_earlier_types_and_reports() {
    let mut p = Prog::new();
    let i64t = p.ty(TypeData::Primitive(Type::Int64));
    let b = p.e(ExprData::Bool(true));
    let one = p.e(ExprData::Number(1));
    let db = p.db;
    let mut env = Env::new(&db, Source(0), p.types);
    env.check_expr(&db, b, i64t, false);
    assert_eq!(env.diagnostics.len(), 1);
    let n = env.types.data.len();
    let _ = env.infer_expr(&db, one);
    assert_eq!(env.diagnostics.len(), 1);
    assert!(env.types.data.len() > n);
    assert!(matches!(env.types.data[i64t.0], TypeData::Primitive(Type::Int64)));
}

#[test]
fn unified_values_keep_their_constraints() {
    let b = InferValue::Bound(TypeId(3));
    let c = InferValue::Bound(TypeId(5));
    assert_eq!(combine_values(&InferValue::Numeric, &b), b);
    assert_eq!(combine_values(&b, &InferValue::Unbound), b);
    assert_eq!(combine_values(&b, &c), b);
    assert_eq!(combine_values(&InferValue::Unbound, &InferValue::Numeric), InferValue::Numeric);
    assert_eq!(combine_values(&InferValue::Unbound, &InferValue::Unbound), InferValue::Unbound);
}

#[test]
fn an_unbound_variable_cannot_be_lowered() {
    let mut p = Prog::new();
    let i64t = p.ty(TypeData::Primitive(Type::Int64));
    let x = p.ident("x");
    let body = p.e(ExprData::Var(x));
    let f = p.func("main", vec![], Some(i64t), Some(body));
    let diags = type_check(&p.db, &p.types, Source(0));
    assert!(diags.is_empty());
    assert!(!rcomp::driver::lowers_all(&p.db, &p.types));
    let b = Builder::new(&p.db, p.types.copy(), f);
    assert!(b.try_compile(&p.db).is_none());
}

#[test]
fn a_well_typed_sum_can_be_lowered() {
    let mut p = Prog::new();
    let f = add_main(&mut p);
    assert!(rcomp::driver::lowers_all(&p.db, &p.types));
    let b = Builder::new(&p.db, p.types.copy(), f);
    assert!(b.try_compile(&p.db).is_some());
}

#[test]
fn a_program_is_checkable_when_its_struct_names_resolve() {
    let mut p = Prog::new();
    let f = add_main(&mut p);
    let _ = f;
    assert!(p.db.is_wf(p.types.data.len()));
    assert!(rcomp::driver::checkable(&p.db, &p.types));
    let q = p.ident("Q");
    let lit = p.e(ExprData::Struct(q, vec![]));
    let g = p.func("g", vec![], None, Some(lit));
    let _ = g;
    assert!(p.db.is_wf(p.types.data.len()));
    assert!(!rcomp::driver::checkable(&p.db, &p.types));
}

#[test]
fn a_node_that_refers_forward_is_malformed() {
    let mut p = Prog::new();
    let later = ExprId(5);
    let neg = p.e(ExprData::Unop(Unop::Neg, later));
    let _ = neg;
    assert!(!p.db.is_wf(p.types.data.len()));
    assert!(!rcomp::driver::checkable(&p.db, &p.types));
}

#[test]
fn operators_map_to_signed_machine_instructions() {
    assert_eq!(clif_binop_of(Binop::Add), ClifBinop::Iadd);
    assert_eq!(clif_binop_of(Binop::Div), ClifBinop::Sdiv);
    assert_eq!(clif_binop_of(Binop::Mod), ClifBinop::Srem);
    assert_eq!(clif_binop_of(Binop::Lt), ClifBinop::Icmp(IntCmp::SignedLessThan));
    assert_eq!(clif_binop_of(Binop::Ge), ClifBinop::Icmp(IntCmp::SignedGreaterThanOrEqual));
    assert_eq!(clif_binop_of(Binop::NEq), ClifBinop::Icmp(IntCmp::NotEqual));
    assert_eq!(clif_binop_of(Binop::Or), ClifBinop::Bor);
    assert_eq!(clif_unop_of(Unop::Neg), ClifUnop::Ineg);
    assert_eq!(clif_unop_of(Unop::Not), ClifUnop::Bnot);
}

#[test]
fn lowering_a_variable_gives_back_its_place() {
    let mut p = Prog::new();
    let i64t = p.ty(TypeData::Primitive(Type::Int64));
    let x = p.ident("x");
    let px = p.pat(PatternData::Var(x, false));
    let forty = p.e(ExprData::Number(40));
    let xv = p.e(ExprData::Var(x));
    let body = p.e(ExprData::Let(px, forty, xv));
    let f = p.func("main", vec![], Some(i64t), Some(body));
    let mut b = Builder::new(&p.db, p.types, f);
    let slot = b.new_var(&p.db, x, i64t);
    let dest = b.new_tmp_var(&p.db, i64t);
    assert_eq!(b.lower(&p.db, xv, dest), Some(slot));
    assert_eq!(b.lower(&p.db, forty, dest), None);
}

#[test]
fn dereferencing_reads_the_pointee() {
    let mut p = Prog::new();
    let i64t = p.ty(TypeData::Primitive(Type::Int64));
    let x = p.ident("x");
    let r = p.ident("r");
    let px = p.pat(PatternData::Var(x, false));
    let pr = p.pat(PatternData::Var(r, false));
    let five = p.e(ExprData::Number(5));
    let xv = p.e(ExprData::Var(x));
    let addr = p.e(ExprData::AddressOf(xv));
    let rv = p.e(ExprData::Var(r));
    let d = p.e(ExprData::Deref(rv));
    let inner = p.e(ExprData::Let(pr, addr, d));
    let body = p.e(ExprData::Let(px, five, inner));
    let f = p.func("main", vec![], Some(i64t), Some(body));
    let b = Builder::new(&p.db, p.types, f);
    let func = match b.compile(&p.db) {
        LoweringResult::Function(func) => func,
        LoweringResult::Extern(_) => panic!("expected a function"),
    };
    let funcs = vec![("main".to_string(), func)];
    let mut vm = VM::new(&funcs);
    assert_eq!(vm.eval_func("main", 1000), Event::Finished);
    assert_eq!(vm.finish(), Some(Value::Int64(5)));
}

#[test]
fn lowering_a_let_gives_back_the_place_of_its_body() {
    let mut p = Prog::new();
    let i64t = p.ty(TypeData::Primitive(Type::Int64));
    let x = p.ident("x");
    let px = p.pat(PatternData::Var(x, false));
    let forty = p.e(ExprData::Number(40));
    let xv = p.e(ExprData::Var(x));
    let body = p.e(ExprData::Let(px, forty, xv));
    let f = p.func("main", vec![], Some(i64t), Some(body));
    let mut b = Builder::new(&p.db, p.types, f);
    let dest = b.new_tmp_var(&p.db, i64t);
    let r = b.lower(&p.db, body, dest);
    assert!(r.is_some());
    assert_eq!(b.lower(&p.db, xv, dest), r);
}
