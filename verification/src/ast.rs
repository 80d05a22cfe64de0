//! The syntax tree. Nodes live in arenas of a `Db` and refer to each other
//! by index; a node only refers to nodes created before it.
use vstd::prelude::*;

use crate::common::{Binop, Unop};
use crate::input::Source;
use crate::tp::TypeId;

verus! {

/// A byte range of a source file.
#[derive(Debug, Clone, Copy, PartialEq, Eq, Structural)]
pub struct Span {
    pub start_byte: usize,
    pub end_byte: usize,
}

/// An interned identifier: an index into the identifier table.
#[derive(Debug, Clone, Copy, PartialEq, Eq, Structural)]
pub struct Ident(pub usize);

/// An interned string literal: an index into the string table.
#[derive(Debug, Clone, Copy, PartialEq, Eq, Structural)]
pub struct StrLit(pub usize);

/// An expression: an index into the expression arena.
#[derive(Debug, Clone, Copy, PartialEq, Eq, Structural)]
pub struct ExprId(pub usize);

/// A pattern: an index into the pattern arena.
#[derive(Debug, Clone, Copy, PartialEq, Eq, Structural)]
pub struct PatternId(pub usize);

/// A function definition: an index into the function arena.
#[derive(Debug, Clone, Copy, PartialEq, Eq, Structural)]
pub struct FnDef(pub usize);

/// A struct definition: an index into the struct arena.
#[derive(Debug, Clone, Copy, PartialEq, Eq, Structural)]
pub struct StructDef(pub usize);

/// The kinds of expressions.
pub enum ExprData {
    Number(i64),
    Bool(bool),
    Char(u8),
    Str(StrLit),
    Binop(Binop, ExprId, ExprId),
    Unop(Unop, ExprId),
    Let(PatternId, ExprId, ExprId),
    Var(Ident),
    FnCall(ExprId, Vec<ExprId>),
    If(ExprId, ExprId, Option<ExprId>),
    While(ExprId, ExprId),
    Assign(ExprId, ExprId),
    Deref(ExprId),
    AddressOf(ExprId),
    Tuple(Vec<ExprId>),
    Sequence(ExprId, ExprId),
    Struct(Ident, Vec<(Ident, ExprId)>),
    Field(ExprId, Ident),
    Array(Vec<ExprId>),
    Index(ExprId, ExprId),
    Range(ExprId, ExprId),
    Cast(ExprId, TypeId),
    Error,
}

/// An expression with its place in the source.
pub struct ExprNode {
    pub data: ExprData,
    pub span: Span,
}

/// The kinds of patterns.
pub enum PatternData {
    Wildcard,
    /// A variable, mutable if the flag is set.
    Var(Ident, bool),
    Tuple(Vec<PatternId>),
}

/// A pattern with its place in the source.
pub struct PatternNode {
    pub data: PatternData,
    pub span: Span,
}

/// A function: a declaration only if it is external (`is_ext`, no body).
pub struct FnDefData {
    pub is_ext: bool,
    pub name: Ident,
    pub span: Span,
    pub args: Vec<(PatternId, TypeId)>,
    pub ret: Option<TypeId>,
    pub body: Option<ExprId>,
    pub sf: Source,
}

/// A struct type with named fields.
pub struct StructDefData {
    pub name: Ident,
    pub span: Span,
    pub fields: Vec<(Ident, TypeId)>,
    pub sf: Source,
}

/// A top-level definition. An import names a file and the source it was
/// resolved to.
#[derive(Debug, Clone, Copy, PartialEq, Eq, Structural)]
pub enum Def {
    Fn(FnDef),
    Struct(StructDef),
    Import(StrLit, Source),
}

/// The definitions of a source file, in order.
pub struct File {
    pub defs: Vec<Def>,
}

/// All the syntax of a program: a parsed file for each source (by the
/// source's index) and the arenas that the trees are stored in.
pub struct Db {
    pub files: Vec<File>,
    pub exprs: Vec<ExprNode>,
    pub patterns: Vec<PatternNode>,
    pub fns: Vec<FnDefData>,
    pub structs: Vec<StructDefData>,
    pub idents: Vec<String>,
    pub strs: Vec<String>,
}

/// The expressions an expression is made of.
pub open spec fn expr_children(d: ExprData) -> Seq<ExprId> {
    match d {
        ExprData::Binop(_, a, b) => seq![a, b],
        ExprData::Unop(_, a) => seq![a],
        ExprData::Let(_, a, b) => seq![a, b],
        ExprData::FnCall(f, args) => seq![f] + args@,
        ExprData::If(c, t, e) => match e {
            Some(e) => seq![c, t, e],
            None => seq![c, t],
        },
        ExprData::While(c, b) => seq![c, b],
        ExprData::Assign(a, b) => seq![a, b],
        ExprData::Deref(a) => seq![a],
        ExprData::AddressOf(a) => seq![a],
        ExprData::Tuple(es) => es@,
        ExprData::Sequence(a, b) => seq![a, b],
        ExprData::Struct(_, fs) => fs@.map_values(|f: (Ident, ExprId)| f.1),
        ExprData::Field(a, _) => seq![a],
        ExprData::Array(es) => es@,
        ExprData::Index(a, b) => seq![a, b],
        ExprData::Range(a, b) => seq![a, b],
        ExprData::Cast(a, _) => seq![a],
        _ => Seq::empty(),
    }
}

/// The identifiers an expression names directly.
pub open spec fn expr_idents(d: ExprData) -> Seq<Ident> {
    match d {
        ExprData::Var(x) => seq![x],
        ExprData::Struct(n, fs) => seq![n] + fs@.map_values(|f: (Ident, ExprId)| f.0),
        ExprData::Field(_, x) => seq![x],
        _ => Seq::empty(),
    }
}

/// The patterns a pattern is made of.
pub open spec fn pattern_children(d: PatternData) -> Seq<PatternId> {
    match d {
        PatternData::Tuple(ps) => ps@,
        _ => Seq::empty(),
    }
}

impl Db {
    /// Every node refers only to nodes created before it and to existing
    /// identifiers, strings, patterns, types, functions and structs; every
    /// import refers to a source with a smaller index than the importing one.
    pub open spec fn wf(&self, ntypes: nat) -> bool {
        &&& forall|i: int, k: int|
            0 <= i < self.exprs@.len() && 0 <= k < expr_children(self.exprs@[i].data).len()
                ==> (#[trigger] expr_children(self.exprs@[i].data)[k]).0 < i
        &&& forall|i: int, k: int|
            0 <= i < self.exprs@.len() && 0 <= k < expr_idents(self.exprs@[i].data).len()
                ==> (#[trigger] expr_idents(self.exprs@[i].data)[k]).0 < self.idents@.len()
        &&& forall|i: int|
            0 <= i < self.exprs@.len() ==> match (#[trigger] self.exprs@[i]).data {
                ExprData::Let(p, _, _) => p.0 < self.patterns@.len(),
                ExprData::Cast(_, t) => t.0 < ntypes,
                ExprData::Str(s) => s.0 < self.strs@.len(),
                _ => true,
            }
        &&& forall|i: int, k: int|
            0 <= i < self.patterns@.len() && 0 <= k < pattern_children(self.patterns@[i].data).len()
                ==> (#[trigger] pattern_children(self.patterns@[i].data)[k]).0 < i
        &&& forall|i: int|
            0 <= i < self.patterns@.len() ==> match (#[trigger] self.patterns@[i]).data {
                PatternData::Var(x, _) => x.0 < self.idents@.len(),
                _ => true,
            }
        &&& forall|i: int|
            0 <= i < self.fns@.len() ==> {
                let f = #[trigger] self.fns@[i];
                &&& f.name.0 < self.idents@.len()
                &&& f.sf.0 < self.files@.len()
                &&& (forall|k: int|
                    0 <= k < f.args@.len() ==> (#[trigger] f.args@[k]).0.0 < self.patterns@.len()
                        && f.args@[k].1.0 < ntypes)
                &&& (f.ret matches Some(t) ==> t.0 < ntypes)
                &&& (f.body matches Some(b) ==> b.0 < self.exprs@.len())
            }
        &&& forall|i: int|
            0 <= i < self.structs@.len() ==> {
                let s = #[trigger] self.structs@[i];
                &&& s.name.0 < self.idents@.len()
                &&& s.sf.0 < self.files@.len()
                &&& forall|k: int|
                    0 <= k < s.fields@.len() ==> (#[trigger] s.fields@[k]).0.0 < self.idents@.len()
                        && s.fields@[k].1.0 < ntypes
            }
        &&& self.defs_wf()
    }

    /// Every definition of a file exists, and every import refers to a
    /// source with a smaller index than the importing one.
    pub open spec fn defs_wf(&self) -> bool {
        forall|i: int, k: int|
            0 <= i < self.files@.len() && 0 <= k < self.files@[i].defs@.len() ==> match (
            #[trigger] self.files@[i].defs@[k]) {
                Def::Fn(f) => f.0 < self.fns@.len(),
                Def::Struct(s) => s.0 < self.structs@.len(),
                Def::Import(l, src) => l.0 < self.strs@.len() && src.0 < i,
            }
    }
}


/// Appends `es` to `r`.
fn push_all(r: &mut Vec<ExprId>, es: &Vec<ExprId>)
    ensures
        final(r)@ == old(r)@ + es@,
{
    let ghost r0 = r@;
    for k in 0..es.len()
        invariant
            r@ == r0 + es@.take(k as int),
    {
        r.push(es[k]);
        assert(r@ =~= r0 + es@.take(k + 1));
    }
    assert(es@.take(es@.len() as int) =~= es@);
}

/// The expressions that `d` is made of.
pub fn children_of(d: &ExprData) -> (r: Vec<ExprId>)
    ensures
        r@ == expr_children(*d),
{
    let mut r: Vec<ExprId> = Vec::new();
    match d {
        ExprData::Binop(_, a, b) => {
            r.push(*a);
            r.push(*b);
        },
        ExprData::Unop(_, a) => r.push(*a),
        ExprData::Let(_, a, b) => {
            r.push(*a);
            r.push(*b);
        },
        ExprData::FnCall(f, args) => {
            r.push(*f);
            push_all(&mut r, args);
        },
        ExprData::If(c, t, e) => {
            r.push(*c);
            r.push(*t);
            match e {
                Some(x) => r.push(*x),
                None => {},
            }
        },
        ExprData::While(c, b) => {
            r.push(*c);
            r.push(*b);
        },
        ExprData::Assign(a, b) => {
            r.push(*a);
            r.push(*b);
        },
        ExprData::Deref(a) => r.push(*a),
        ExprData::AddressOf(a) => r.push(*a),
        ExprData::Tuple(es) => push_all(&mut r, es),
        ExprData::Sequence(a, b) => {
            r.push(*a);
            r.push(*b);
        },
        ExprData::Struct(_, fs) => {
            for k in 0..fs.len()
                invariant
                    r@ == fs@.take(k as int).map_values(|f: (Ident, ExprId)| f.1),
            {
                r.push(fs[k].1);
                assert(r@ =~= fs@.take(k + 1).map_values(|f: (Ident, ExprId)| f.1));
            }
            assert(fs@.take(fs@.len() as int) =~= fs@);
        },
        ExprData::Field(a, _) => r.push(*a),
        ExprData::Array(es) => push_all(&mut r, es),
        ExprData::Index(a, b) => {
            r.push(*a);
            r.push(*b);
        },
        ExprData::Range(a, b) => {
            r.push(*a);
            r.push(*b);
        },
        ExprData::Cast(a, _) => r.push(*a),
        _ => {},
    }
    assert(r@ =~= expr_children(*d));
    r
}

/// The identifiers that `d` names directly.
pub fn idents_of(d: &ExprData) -> (r: Vec<Ident>)
    ensures
        r@ == expr_idents(*d),
{
    let mut r: Vec<Ident> = Vec::new();
    match d {
        ExprData::Var(x) => r.push(*x),
        ExprData::Struct(n, fs) => {
            r.push(*n);
            for k in 0..fs.len()
                invariant
                    r@ == seq![*n] + fs@.take(k as int).map_values(|f: (Ident, ExprId)| f.0),
            {
                r.push(fs[k].0);
                assert(r@ =~= seq![*n] + fs@.take(k + 1).map_values(|f: (Ident, ExprId)| f.0));
            }
            assert(fs@.take(fs@.len() as int) =~= fs@);
        },
        ExprData::Field(_, x) => r.push(*x),
        _ => {},
    }
    assert(r@ =~= expr_idents(*d));
    r
}

/// The patterns that `d` is made of.
pub fn pattern_children_of(d: &PatternData) -> (r: Vec<PatternId>)
    ensures
        r@ == pattern_children(*d),
{
    let mut r: Vec<PatternId> = Vec::new();
    match d {
        PatternData::Tuple(ps) => {
            for k in 0..ps.len()
                invariant
                    r@ == ps@.take(k as int),
            {
                r.push(ps[k]);
                assert(r@ =~= ps@.take(k + 1));
            }
            assert(ps@.take(ps@.len() as int) =~= ps@);
        },
        _ => {},
    }
    r
}

impl Db {
    /// Whether every node refers only to nodes created before it and to
    /// things that exist, with `ntypes` types (see `wf`).
    pub fn is_wf(&self, ntypes: usize) -> (ok: bool)
        ensures
            ok == self.wf(ntypes as nat),
    {
        self.exprs_ok(ntypes) && self.patterns_ok() && self.fns_ok(ntypes) && self.structs_ok(ntypes) && self.defs_ok()
    }

    fn exprs_ok(&self, ntypes: usize) -> (ok: bool)
        ensures
            ok == ({
                &&& forall|i: int, k: int|
                    0 <= i < self.exprs@.len() && 0 <= k < expr_children(self.exprs@[i].data).len()
                        ==> (#[trigger] expr_children(self.exprs@[i].data)[k]).0 < i
                &&& forall|i: int, k: int|
                    0 <= i < self.exprs@.len() && 0 <= k < expr_idents(self.exprs@[i].data).len()
                        ==> (#[trigger] expr_idents(self.exprs@[i].data)[k]).0 < self.idents@.len()
                &&& forall|i: int|
                    0 <= i < self.exprs@.len() ==> match (#[trigger] self.exprs@[i]).data {
                        ExprData::Let(p, _, _) => p.0 < self.patterns@.len(),
                        ExprData::Cast(_, t) => t.0 < ntypes,
                        ExprData::Str(s) => s.0 < self.strs@.len(),
                        _ => true,
                    }
            }),
    {
        let n = self.exprs.len();
        for i in 0..n
            invariant
                n == self.exprs@.len(),
                forall|j: int, k: int|
                    0 <= j < i && 0 <= k < expr_children(self.exprs@[j].data).len()
                        ==> (#[trigger] expr_children(self.exprs@[j].data)[k]).0 < j,
                forall|j: int, k: int|
                    0 <= j < i && 0 <= k < expr_idents(self.exprs@[j].data).len()
                        ==> (#[trigger] expr_idents(self.exprs@[j].data)[k]).0 < self.idents@.len(),
                forall|j: int|
                    0 <= j < i ==> match (#[trigger] self.exprs@[j]).data {
                        ExprData::Let(p, _, _) => p.0 < self.patterns@.len(),
                        ExprData::Cast(_, t) => t.0 < ntypes,
                        ExprData::Str(s) => s.0 < self.strs@.len(),
                        _ => true,
                    },
        {
            let d = &self.exprs[i].data;
            let ch = children_of(d);
            for k in 0..ch.len()
                invariant
                    n == self.exprs@.len(),
                    i < n,
                    ch@ == expr_children(self.exprs@[i as int].data),
                    forall|k2: int| 0 <= k2 < k ==> (#[trigger] ch@[k2]).0 < i,
            {
                if ch[k].0 >= i {
                    assert(expr_children(self.exprs@[i as int].data)[k as int] == ch@[k as int]);
                    return false;
                }
            }
            let ids = idents_of(d);
            for k in 0..ids.len()
                invariant
                    n == self.exprs@.len(),
                    i < n,
                    ids@ == expr_idents(self.exprs@[i as int].data),
                    forall|k2: int| 0 <= k2 < k ==> (#[trigger] ids@[k2]).0 < self.idents@.len(),
            {
                if ids[k].0 >= self.idents.len() {
                    assert(expr_idents(self.exprs@[i as int].data)[k as int] == ids@[k as int]);
                    return false;
                }
            }
            match d {
                ExprData::Let(p, _, _) => if p.0 >= self.patterns.len() {
                    return false;
                },
                ExprData::Cast(_, t) => if t.0 >= ntypes {
                    return false;
                },
                ExprData::Str(st) => if st.0 >= self.strs.len() {
                    return false;
                },
                _ => {},
            }
        }
        true
    }

    fn patterns_ok(&self) -> (ok: bool)
        ensures
            ok == ({
                &&& forall|i: int, k: int|
                    0 <= i < self.patterns@.len() && 0 <= k < pattern_children(self.patterns@[i].data).len()
                        ==> (#[trigger] pattern_children(self.patterns@[i].data)[k]).0 < i
                &&& forall|i: int|
                    0 <= i < self.patterns@.len() ==> match (#[trigger] self.patterns@[i]).data {
                        PatternData::Var(x, _) => x.0 < self.idents@.len(),
                        _ => true,
                    }
            }),
    {
        let n = self.patterns.len();
        for i in 0..n
            invariant
                n == self.patterns@.len(),
                forall|j: int, k: int|
                    0 <= j < i && 0 <= k < pattern_children(self.patterns@[j].data).len()
                        ==> (#[trigger] pattern_children(self.patterns@[j].data)[k]).0 < j,
                forall|j: int|
                    0 <= j < i ==> match (#[trigger] self.patterns@[j]).data {
                        PatternData::Var(x, _) => x.0 < self.idents@.len(),
                        _ => true,
                    },
        {
            let d = &self.patterns[i].data;
            let ch = pattern_children_of(d);
            for k in 0..ch.len()
                invariant
                    n == self.patterns@.len(),
                    i < n,
                    ch@ == pattern_children(self.patterns@[i as int].data),
                    forall|k2: int| 0 <= k2 < k ==> (#[trigger] ch@[k2]).0 < i,
            {
                if ch[k].0 >= i {
                    assert(pattern_children(self.patterns@[i as int].data)[k as int] == ch@[k as int]);
                    return false;
                }
            }
            match d {
                PatternData::Var(x, _) => if x.0 >= self.idents.len() {
                    return false;
                },
                _ => {},
            }
        }
        true
    }

    fn fns_ok(&self, ntypes: usize) -> (ok: bool)
        ensures
            ok == (forall|i: int|
                0 <= i < self.fns@.len() ==> {
                    let f = #[trigger] self.fns@[i];
                    &&& f.name.0 < self.idents@.len()
                    &&& f.sf.0 < self.files@.len()
                    &&& (forall|k: int|
                        0 <= k < f.args@.len() ==> (#[trigger] f.args@[k]).0.0 < self.patterns@.len()
                            && f.args@[k].1.0 < ntypes)
                    &&& (f.ret matches Some(t) ==> t.0 < ntypes)
                    &&& (f.body matches Some(b) ==> b.0 < self.exprs@.len())
                }),
    {
        let n = self.fns.len();
        for i in 0..n
            invariant
                n == self.fns@.len(),
                forall|j: int|
                    0 <= j < i ==> {
                        let f = #[trigger] self.fns@[j];
                        &&& f.name.0 < self.idents@.len()
                        &&& f.sf.0 < self.files@.len()
                        &&& (forall|k: int|
                            0 <= k < f.args@.len() ==> (#[trigger] f.args@[k]).0.0 < self.patterns@.len()
                                && f.args@[k].1.0 < ntypes)
                        &&& (f.ret matches Some(t) ==> t.0 < ntypes)
                        &&& (f.body matches Some(b) ==> b.0 < self.exprs@.len())
                    },
        {
            let f = &self.fns[i];
            if f.name.0 >= self.idents.len() || f.sf.0 >= self.files.len() {
                return false;
            }
            for k in 0..f.args.len()
                invariant
                    n == self.fns@.len(),
                    i < n,
                    f == self.fns@[i as int],
                    forall|k2: int|
                        0 <= k2 < k ==> (#[trigger] f.args@[k2]).0.0 < self.patterns@.len() && f.args@[k2].1.0 < ntypes,
            {
                if f.args[k].0.0 >= self.patterns.len() || f.args[k].1.0 >= ntypes {
                    return false;
                }
            }
            match f.ret {
                Some(t) => if t.0 >= ntypes {
                    return false;
                },
                None => {},
            }
            match f.body {
                Some(b) => if b.0 >= self.exprs.len() {
                    return false;
                },
                None => {},
            }
        }
        true
    }

    fn structs_ok(&self, ntypes: usize) -> (ok: bool)
        ensures
            ok == (forall|i: int|
                0 <= i < self.structs@.len() ==> {
                    let s = #[trigger] self.structs@[i];
                    &&& s.name.0 < self.idents@.len()
                    &&& s.sf.0 < self.files@.len()
                    &&& forall|k: int|
                        0 <= k < s.fields@.len() ==> (#[trigger] s.fields@[k]).0.0 < self.idents@.len()
                            && s.fields@[k].1.0 < ntypes
                }),
    {
        let n = self.structs.len();
        for i in 0..n
            invariant
                n == self.structs@.len(),
                forall|j: int|
                    0 <= j < i ==> {
                        let s = #[trigger] self.structs@[j];
                        &&& s.name.0 < self.idents@.len()
                        &&& s.sf.0 < self.files@.len()
                        &&& forall|k: int|
                            0 <= k < s.fields@.len() ==> (#[trigger] s.fields@[k]).0.0 < self.idents@.len()
                                && s.fields@[k].1.0 < ntypes
                    },
        {
            let s = &self.structs[i];
            if s.name.0 >= self.idents.len() || s.sf.0 >= self.files.len() {
                return false;
            }
            for k in 0..s.fields.len()
                invariant
                    n == self.structs@.len(),
                    i < n,
                    s == self.structs@[i as int],
                    forall|k2: int|
                        0 <= k2 < k ==> (#[trigger] s.fields@[k2]).0.0 < self.idents@.len() && s.fields@[k2].1.0 < ntypes,
            {
                if s.fields[k].0.0 >= self.idents.len() || s.fields[k].1.0 >= ntypes {
                    return false;
                }
            }
        }
        true
    }

    fn defs_ok(&self) -> (ok: bool)
        ensures
            ok == self.defs_wf(),
    {
        let n = self.files.len();
        for i in 0..n
            invariant
                n == self.files@.len(),
                forall|j: int, k: int|
                    0 <= j < i && 0 <= k < self.files@[j].defs@.len() ==> match (
                    #[trigger] self.files@[j].defs@[k]) {
                        Def::Fn(f) => f.0 < self.fns@.len(),
                        Def::Struct(s) => s.0 < self.structs@.len(),
                        Def::Import(l, src) => l.0 < self.strs@.len() && src.0 < j,
                    },
        {
            let defs = &self.files[i].defs;
            for k in 0..defs.len()
                invariant
                    n == self.files@.len(),
                    i < n,
                    defs == self.files@[i as int].defs,
                    forall|k2: int|
                        0 <= k2 < k ==> match (#[trigger] defs@[k2]) {
                            Def::Fn(f) => f.0 < self.fns@.len(),
                            Def::Struct(s) => s.0 < self.structs@.len(),
                            Def::Import(l, src) => l.0 < self.strs@.len() && src.0 < i,
                        },
            {
                let ok = match defs[k] {
                    Def::Fn(f) => f.0 < self.fns.len(),
                    Def::Struct(s) => s.0 < self.structs.len(),
                    Def::Import(l, src) => l.0 < self.strs.len() && src.0 < i,
                };
                if !ok {
                    return false;
                }
            }
        }
        true
    }
}

} // verus!
