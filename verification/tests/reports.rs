use rcomp::ast::{Span};
use rcomp::bytecode::{Block, Func, FuncSig, Inst, Prog, Terminator, Type};
use rcomp::common::{Binop, Unop};
use rcomp::diagnostic::{Diagnostic, ParseFailure, Severity};
use rcomp::input::Source;
use rcomp::tp::TypeId;
use rcomp::ast::{Db, File};

fn empty_db() -> Db {
    Db {
        files: vec![File { defs: vec![] }],
        exprs: vec![],
        patterns: vec![],
        fns: vec![],
        structs: vec![],
        idents: vec!["len".to_string()],
        strs: vec![],
    }
}

#[test]
fn error_report_covers_its_span() {
    let d = Diagnostic::error(Source(3), Span { start_byte: 4, end_byte: 9 }, "oops".to_string());
    assert_eq!(d.severity, Severity::Error);
    assert_eq!(d.source, Source(3));
    assert_eq!((d.start_byte, d.end_byte), (4, 9));
    assert_eq!(d.message, "oops");
    assert!(d.notes.is_empty());
}

#[test]
fn type_error_messages() {
    let db = empty_db();
    let sp = Span { start_byte: 1, end_byte: 2 };
    let s = Source(0);
    let x = rcomp::ast::Ident(0);
    assert_eq!(Diagnostic::type_mismatch(&db, sp, TypeId(3), TypeId(12), s).message, "type mismatch. expected: TypeId(3), got: TypeId(12)");
    assert_eq!(Diagnostic::missing_argument(&db, 2, sp, TypeId(0), s).message, "missing arg #2 of type TypeId(0)");
    assert_eq!(Diagnostic::unexpected_argument(&db, 3, sp, s).message, "unexpected arg #3");
    assert_eq!(Diagnostic::unbound_var(&db, sp, x, s).message, "unbound var: \"len\"");
    assert_eq!(Diagnostic::unknown_type(&db, sp, "Foo".to_string(), s).message, "unknown type: \"Foo\"");
    assert_eq!(Diagnostic::duplicate_field(&db, sp, x, s).message, "duplicate field: \"len\"");
    assert_eq!(Diagnostic::missing_field(&db, sp, x, s).message, "missing field: \"len\"");
    assert_eq!(Diagnostic::no_field_on_type(&db, sp, x, TypeId(7), s).message, "no field named \"len\" on type TypeId(7)");
    assert_eq!(Diagnostic::not_a_function(&db, sp, s).message, "this expression is not a function and cannot be called");
    assert_eq!(Diagnostic::cannot_assign(&db, sp, s).message, "this expression cannot be mutated");
    assert_eq!(Diagnostic::cannot_index(&db, sp, s).message, "this expression cannot be indexed");
    assert_eq!(Diagnostic::cannot_index_with(&db, sp, s).message, "this expression cannot be use as an index");
    assert_eq!(Diagnostic::cannot_dereference(&db, sp, s).message, "this expression cannot be dereferenced");
    assert_eq!(Diagnostic::unexpected_tuple(&db, sp, 2, TypeId(5), s).message, "expected TypeId(5), but this matches 2-element tuple");
    assert_eq!(Diagnostic::missing_else_branch(&db, sp, TypeId(1), s).message, "missing else branch of type TypeId(1)");
}

#[test]
fn parse_failures_become_reports() {
    let s = Source(0);
    let d = Diagnostic::parser_error(s, ParseFailure::InvalidToken { location: 5 });
    assert_eq!((d.start_byte, d.end_byte, d.message.as_str()), (5, 5, "invalid token"));
    assert!(d.notes.is_empty());
    let d = Diagnostic::parser_error(s, ParseFailure::UnrecognizedEof { location: 8, expected: vec!["\"(\"".to_string(), "ident".to_string()] });
    assert_eq!(d.message, "unexpected end of file");
    assert_eq!(d.notes, vec!["expected one of:\n\"(\"\nident".to_string()]);
    let d = Diagnostic::parser_error(
        s,
        ParseFailure::UnrecognizedToken { token: (2, "}".to_string(), 3), expected: vec!["\";\"".to_string()] },
    );
    assert_eq!((d.start_byte, d.end_byte), (2, 3));
    assert_eq!(d.message, "unexpected token: }");
    assert_eq!(d.notes, vec!["expected one of:\n\";\"".to_string()]);
    let d = Diagnostic::parser_error(s, ParseFailure::ExtraToken { token: (10, "fn".to_string(), 12) });
    assert_eq!(d.message, "unexpected token: fn");
    assert!(d.notes.is_empty());
}

#[test]
fn instructions_print() {
    assert_eq!(Inst::PushInt(-12).text(), "push -12");
    assert_eq!(Inst::PushInt(i64::MIN).text(), "push -9223372036854775808");
    assert_eq!(Inst::PushBool(true).text(), "push true");
    assert_eq!(Inst::Binop(Binop::Sub).text(), "sub");
    assert_eq!(Inst::Unop(Unop::Not).text(), "not");
    assert_eq!(Inst::SetLocal { id: 2, offset: 8 }.text(), "set $2 +8");
    assert_eq!(Inst::Get { id: 1, offset: 0, tp: Type::Bool }.text(), "get $1 +0 Bool");
    assert_eq!(Inst::LocalAddr { id: 0, offset: 4 }.text(), "addr $0 +4");
    assert_eq!(Inst::Load { offset: 3, tp: Type::Ptr }.text(), "load +3 Ptr");
    assert_eq!(Inst::Store { offset: 16 }.text(), "store +16");
    assert_eq!(Inst::MemCopy { size: 24 }.text(), "memcpy 24");
    assert_eq!(Inst::CapOffset.text(), "capoffset");
    assert_eq!(Inst::Drop.text(), "drop");
    assert_eq!(Inst::Dup.text(), "dup");
    assert_eq!(Inst::Call("f".to_string()).text(), "call \"f\"");
    assert_eq!(Terminator::Jmp(3).text(), "jmp blk3");
    assert_eq!(Terminator::Br(1, 2).text(), "br blk1 blk2");
    assert_eq!(Terminator::Ret.text(), "ret");
}

#[test]
fn programs_print() {
    let f = Func {
        blocks: vec![
            Block { insts: vec![Inst::PushBool(false)], terminator: Terminator::Br(1, 1) },
            Block { insts: vec![], terminator: Terminator::Ret },
        ],
        variables: vec![8, 1],
        sig: FuncSig { args: vec![], rets: vec![] },
    };
    assert_eq!(f.blocks[0].text(), "\tpush false\n\tbr blk1 blk1\n");
    assert_eq!(f.text(), "block 0:\n\tpush false\n\tbr blk1 blk1\nblock 1:\n\tret\n");
    let p = Prog { funcs: vec![("main".to_string(), f)], externs: vec![] };
    assert_eq!(p.text(), "\"main\" (2):\nblock 0:\n\tpush false\n\tbr blk1 blk1\nblock 1:\n\tret\n\n");
}
