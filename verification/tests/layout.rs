use rcomp::bytecode::{Abi, Block, Fields, Layout, Terminator, Type};
use rcomp::common::{Binop, Unop};

fn offsets(l: &Layout) -> Vec<u32> {
    match &l.fields {
        Fields::Struct { fields } => fields.iter().map(|f| f.0).collect(),
        _ => panic!("not a struct"),
    }
}

#[test]
fn primitive_sizes_equal_alignments() {
    for t in [Type::Int64, Type::Bool, Type::Ptr, Type::UInt8, Type::UInt64] {
        assert_eq!(t.size(), t.align());
        let l = t.as_layout();
        assert_eq!(l.size() as u32, t.size());
        assert_eq!(l.abi(), Abi::Scalar(t));
    }
    assert_eq!(Type::Bool.size(), 1);
    assert_eq!(Type::Int64.size(), 8);
}

#[test]
fn struct_fields_follow_each_other() {
    let l = Layout::strct(&[Layout::bool(), Layout::int64(), Layout::ptr()]);
    assert_eq!(offsets(&l), vec![0, 1, 9]);
    assert_eq!(l.size(), 17);
    assert_eq!(l.align(), 8);
    // Each field starts where the one before it ends, and the last ends
    // with the struct.
    let sizes = [1u32, 8, 8];
    let offs = offsets(&l);
    for i in 0..2 {
        assert_eq!(offs[i + 1], offs[i] + sizes[i]);
    }
    assert_eq!(offs[2] as usize + 8, l.size());
}

#[test]
fn empty_struct_is_unit() {
    let l = Layout::strct(&[]);
    assert_eq!(l.size(), 0);
    assert_eq!(l.align(), 0);
    assert_eq!(l.abi(), Abi::Unit);
    assert_eq!(Layout::unit().abi(), Abi::Unit);
    assert!(Layout::unit().primitives().is_empty());
}

#[test]
fn abi_follows_primitives() {
    let one = Layout::strct(&[Layout::int64()]);
    assert_eq!(one.abi(), Abi::Scalar(Type::Int64));
    let two = Layout::strct(&[Layout::ptr(), Layout::int64()]);
    assert_eq!(two.abi(), Abi::ScalarPair(Type::Ptr, Type::Int64));
    let three = Layout::strct(&[Layout::bool(), Layout::bool(), Layout::bool()]);
    assert_eq!(three.abi(), Abi::Struct);
    let arr = Layout::array(2, Layout::int64());
    assert_eq!(arr.abi(), Abi::Struct);
    assert_eq!(arr.size(), 16);
    assert_eq!(arr.primitives(), vec![Type::Int64, Type::Int64]);
    let nested = Layout::strct(&[Layout::bool(), Layout::array(3, Layout::bool())]);
    assert_eq!(nested.primitives(), vec![Type::Bool; 4]);
    assert_eq!(nested.size(), 4);
}

#[test]
fn empty_block_returns() {
    let b = Block::empty();
    assert!(b.insts.is_empty());
    assert_eq!(b.terminator, Terminator::Ret);
}

#[test]
fn operators_have_names_and_result_types() {
    assert_eq!(Binop::Add.mnemonic(), "add");
    assert_eq!(Binop::NEq.mnemonic(), "neq");
    assert_eq!(Binop::Or.mnemonic(), "or");
    assert_eq!(Unop::Not.mnemonic(), "not");
    assert_eq!(Unop::Neg.mnemonic(), "neg");
    assert_eq!(Binop::Mul.ret_tp(), Type::Int64);
    assert_eq!(Binop::Lt.ret_tp(), Type::Bool);
    assert_eq!(Binop::And.ret_tp(), Type::Bool);
    assert_eq!(Unop::Neg.ret_tp(), Type::Int64);
    assert_eq!(Unop::Not.ret_tp(), Type::Bool);
}

#[test]
fn primitives_compose() {
    let inner = Layout::strct(&[Layout::bool(), Layout::int64()]);
    let outer = Layout::strct(&[inner.copy(), Layout::ptr()]);
    assert_eq!(outer.primitives(), vec![Type::Bool, Type::Int64, Type::Ptr]);
    let arr = Layout::array(3, inner);
    assert_eq!(arr.primitives(), vec![Type::Bool, Type::Int64, Type::Bool, Type::Int64, Type::Bool, Type::Int64]);
    assert_eq!(Layout::strct(&[]).primitives(), Vec::<Type>::new());
}
