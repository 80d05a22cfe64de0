//! Generating machine-level instructions from bytecode functions, in
//! SSA form. Each operation here stands for one instruction that the
//! code generator emits; the operand stack of the bytecode becomes a stack
//! of SSA value numbers.
use vstd::prelude::*;

use crate::bytecode::{abi_of, Abi, Block, Func, FuncSig, Inst, Layout, Prog, Terminator, Type};
use crate::common::{Binop, Unop};

verus! {

/// The machine integer types.
#[derive(Debug, Clone, Copy, PartialEq, Eq, Structural)]
pub enum ClifTy {
    I8,
    I64,
}

/// A comparison of two machine integers.
#[derive(Debug, Clone, Copy, PartialEq, Eq, Structural)]
pub enum IntCmp {
    Equal,
    NotEqual,
    SignedLessThan,
    SignedGreaterThan,
    SignedLessThanOrEqual,
    SignedGreaterThanOrEqual,
}

/// A machine instruction on two integers.
#[derive(Debug, Clone, Copy, PartialEq, Eq, Structural)]
pub enum ClifBinop {
    Iadd,
    Isub,
    Imul,
    Sdiv,
    Srem,
    Icmp(IntCmp),
    Band,
    Bor,
}

/// A machine instruction on one integer.
#[derive(Debug, Clone, Copy, PartialEq, Eq, Structural)]
pub enum ClifUnop {
    Bnot,
    Ineg,
}

/// The machine instruction for a binary operator: the operands are
/// signed integers or booleans, so division, remainder and the orderings
/// are the signed ones.
pub open spec fn clif_binop(op: Binop) -> ClifBinop {
    match op {
        Binop::Add => ClifBinop::Iadd,
        Binop::Sub => ClifBinop::Isub,
        Binop::Mul => ClifBinop::Imul,
        Binop::Div => ClifBinop::Sdiv,
        Binop::Mod => ClifBinop::Srem,
        Binop::Eq => ClifBinop::Icmp(IntCmp::Equal),
        Binop::Lt => ClifBinop::Icmp(IntCmp::SignedLessThan),
        Binop::Gt => ClifBinop::Icmp(IntCmp::SignedGreaterThan),
        Binop::Le => ClifBinop::Icmp(IntCmp::SignedLessThanOrEqual),
        Binop::Ge => ClifBinop::Icmp(IntCmp::SignedGreaterThanOrEqual),
        Binop::NEq => ClifBinop::Icmp(IntCmp::NotEqual),
        Binop::And => ClifBinop::Band,
        Binop::Or => ClifBinop::Bor,
    }
}

/// Whether a machine comparison holds between two integers, the signed
/// ones comparing them as signed numbers.
pub open spec fn comparison_holds(c: IntCmp, x: int, y: int) -> bool {
    match c {
        IntCmp::Equal => x == y,
        IntCmp::NotEqual => x != y,
        IntCmp::SignedLessThan => x < y,
        IntCmp::SignedGreaterThan => x > y,
        IntCmp::SignedLessThanOrEqual => x <= y,
        IntCmp::SignedGreaterThanOrEqual => x >= y,
    }
}

/// The quotient of `x` by `y` rounded toward zero.
pub open spec fn trunc_div(x: int, y: int) -> int {
    let a = if x < 0 { -x } else { x };
    let b = if y < 0 { -y } else { y };
    if (x < 0) != (y < 0) {
        -(a / b)
    } else {
        a / b
    }
}

/// The remainder of `x` by `y` that goes with `trunc_div`: it has the sign
/// of `x`.
pub open spec fn trunc_rem(x: int, y: int) -> int {
    let a = if x < 0 { -x } else { x };
    let b = if y < 0 { -y } else { y };
    if x < 0 {
        -(a % b)
    } else {
        a % b
    }
}

/// A boolean held in a machine integer: 1 for true, 0 for false.
pub open spec fn bit(b: bool) -> int {
    if b {
        1
    } else {
        0
    }
}

/// The bitwise and of the low bytes of two integers.
pub open spec fn byte_and(x: int, y: int) -> int {
    ((x as u8) & (y as u8)) as int
}

/// The bitwise or of the low bytes of two integers.
pub open spec fn byte_or(x: int, y: int) -> int {
    ((x as u8) | (y as u8)) as int
}

/// What a machine instruction on two integers computes, as Cranelift
/// documents it, for results that fit: sum, difference and product; signed
/// division and remainder, which round toward zero; 1 or 0 for a
/// comparison; and the bitwise and / or of two bytes.
pub open spec fn clif_binop_value(op: ClifBinop, x: int, y: int) -> int {
    match op {
        ClifBinop::Iadd => x + y,
        ClifBinop::Isub => x - y,
        ClifBinop::Imul => x * y,
        ClifBinop::Sdiv => trunc_div(x, y),
        ClifBinop::Srem => trunc_rem(x, y),
        ClifBinop::Icmp(c) => bit(comparison_holds(c, x, y)),
        ClifBinop::Band => byte_and(x, y),
        ClifBinop::Bor => byte_or(x, y),
    }
}

/// Each operator's machine instruction computes what the operator means,
/// and what the interpreter computes for it: on integers the sum,
/// difference and product, the quotient and remainder rounding toward
/// zero, and 1 or 0 for each comparison, the left operand first; on
/// booleans held as 1 or 0, their conjunction and disjunction.
pub proof fn lemma_clif_binop_meaning(x: i64, y: i64, p: bool, q: bool)
    ensures
        clif_binop_value(clif_binop(Binop::Add), x as int, y as int) == x + y,
        clif_binop_value(clif_binop(Binop::Sub), x as int, y as int) == x - y,
        clif_binop_value(clif_binop(Binop::Mul), x as int, y as int) == x * y,
        clif_binop_value(clif_binop(Binop::Eq), x as int, y as int) == bit(x == y),
        clif_binop_value(clif_binop(Binop::NEq), x as int, y as int) == bit(x != y),
        clif_binop_value(clif_binop(Binop::Lt), x as int, y as int) == bit(x < y),
        clif_binop_value(clif_binop(Binop::Gt), x as int, y as int) == bit(x > y),
        clif_binop_value(clif_binop(Binop::Le), x as int, y as int) == bit(x <= y),
        clif_binop_value(clif_binop(Binop::Ge), x as int, y as int) == bit(x >= y),
        clif_binop_value(clif_binop(Binop::And), bit(p), bit(q)) == bit(p && q),
        clif_binop_value(clif_binop(Binop::Or), bit(p), bit(q)) == bit(p || q),
        y != 0 && !(x == i64::MIN && y == -1) ==> {
            &&& crate::vm::binop_result(Binop::Div, crate::vm::Value::Int64(y), crate::vm::Value::Int64(x))
                == Some(crate::vm::Value::Int64(clif_binop_value(clif_binop(Binop::Div), x as int, y as int) as i64))
            &&& crate::vm::binop_result(Binop::Mod, crate::vm::Value::Int64(y), crate::vm::Value::Int64(x))
                == Some(crate::vm::Value::Int64(clif_binop_value(clif_binop(Binop::Mod), x as int, y as int) as i64))
        },
{
    assert((1u8 & 1u8) == 1u8 && (1u8 & 0u8) == 0u8 && (0u8 & 1u8) == 0u8 && (0u8 & 0u8) == 0u8) by (bit_vector);
    assert((1u8 | 1u8) == 1u8 && (1u8 | 0u8) == 1u8 && (0u8 | 1u8) == 1u8 && (0u8 | 0u8) == 0u8) by (bit_vector);
    if y != 0 && !(x == i64::MIN && y == -1) {
        crate::vm::lemma_div_mod(x, y);
    }
}

/// The machine instruction for a binary operator.
pub fn clif_binop_of(op: Binop) -> (r: ClifBinop)
    ensures
        r == clif_binop(op),
{
    match op {
        Binop::Add => ClifBinop::Iadd,
        Binop::Sub => ClifBinop::Isub,
        Binop::Mul => ClifBinop::Imul,
        Binop::Div => ClifBinop::Sdiv,
        Binop::Mod => ClifBinop::Srem,
        Binop::Eq => ClifBinop::Icmp(IntCmp::Equal),
        Binop::Lt => ClifBinop::Icmp(IntCmp::SignedLessThan),
        Binop::Gt => ClifBinop::Icmp(IntCmp::SignedGreaterThan),
        Binop::Le => ClifBinop::Icmp(IntCmp::SignedLessThanOrEqual),
        Binop::Ge => ClifBinop::Icmp(IntCmp::SignedGreaterThanOrEqual),
        Binop::NEq => ClifBinop::Icmp(IntCmp::NotEqual),
        Binop::And => ClifBinop::Band,
        Binop::Or => ClifBinop::Bor,
    }
}

/// The machine instruction for a unary operator: bitwise not for `!`
/// (on a boolean), two's-complement negation for `-`.
pub open spec fn clif_unop(op: Unop) -> ClifUnop {
    match op {
        Unop::Not => ClifUnop::Bnot,
        Unop::Neg => ClifUnop::Ineg,
    }
}

/// The machine instruction for a unary operator.
pub fn clif_unop_of(op: Unop) -> (r: ClifUnop)
    ensures
        r == clif_unop(op),
{
    match op {
        Unop::Not => ClifUnop::Bnot,
        Unop::Neg => ClifUnop::Ineg,
    }
}

/// The machine type of a primitive type.
pub open spec fn clif_ty(t: Type) -> ClifTy {
    match t {
        Type::Int64 => ClifTy::I64,
        Type::Bool => ClifTy::I8,
        Type::Ptr => ClifTy::I64,
        Type::UInt8 => ClifTy::I8,
        Type::UInt64 => ClifTy::I64,
    }
}

impl Type {
    /// The machine type of this primitive type.
    pub fn as_cranelift_tp(self) -> (t: ClifTy)
        ensures
            t == clif_ty(self),
    {
        match self {
            Type::Int64 => ClifTy::I64,
            Type::Bool => ClifTy::I8,
            Type::Ptr => ClifTy::I64,
            Type::UInt8 => ClifTy::I8,
            Type::UInt64 => ClifTy::I64,
        }
    }
}

/// A parameter of a machine signature; `struct_return` marks the pointer
/// to the memory that a result passed by address goes to.
#[derive(Debug, Clone, Copy, PartialEq, Eq, Structural)]
pub struct ClifParam {
    pub ty: ClifTy,
    pub struct_return: bool,
}

/// A machine signature.
pub struct ClifSig {
    pub params: Vec<ClifParam>,
    pub results: Vec<ClifTy>,
}

/// The machine types that a layout is passed as: none, one, two, or a
/// pointer.
pub open spec fn abi_tys(l: crate::bytecode::LayoutV) -> Seq<ClifTy> {
    match abi_of(l) {
        Abi::Unit => Seq::empty(),
        Abi::Scalar(t) => seq![clif_ty(t)],
        Abi::ScalarPair(a, b) => seq![clif_ty(a), clif_ty(b)],
        Abi::Struct => seq![ClifTy::I64],
    }
}

/// The parameters that the results `rets[..n]` add: a result passed by
/// address adds the pointer it goes to.
pub open spec fn ret_params(rets: Seq<crate::bytecode::LayoutV>, n: int) -> Seq<ClifParam>
    decreases n,
{
    if n <= 0 || n > rets.len() {
        Seq::empty()
    } else {
        ret_params(rets, n - 1) + if abi_of(rets[n - 1]) is Struct {
            seq![ClifParam { ty: ClifTy::I64, struct_return: true }]
        } else {
            Seq::empty()
        }
    }
}

/// The machine results of the results `rets[..n]`.
pub open spec fn ret_returns(rets: Seq<crate::bytecode::LayoutV>, n: int) -> Seq<ClifTy>
    decreases n,
{
    if n <= 0 || n > rets.len() {
        Seq::empty()
    } else {
        ret_returns(rets, n - 1) + if abi_of(rets[n - 1]) is Struct {
            Seq::empty()
        } else {
            abi_tys(rets[n - 1])
        }
    }
}

/// The machine parameters of the arguments `args[..n]`.
pub open spec fn arg_params(args: Seq<crate::bytecode::LayoutV>, n: int) -> Seq<ClifParam>
    decreases n,
{
    if n <= 0 || n > args.len() {
        Seq::empty()
    } else {
        arg_params(args, n - 1) + abi_tys(args[n - 1]).map_values(|t: ClifTy| ClifParam { ty: t, struct_return: false })
    }
}

/// The machine signature of a function: the pointers for results passed
/// by address, then the arguments; the results passed in registers.
pub open spec fn sig_spec(sig: FuncSig) -> (Seq<ClifParam>, Seq<ClifTy>) {
    let rets = sig.rets@.map_values(|l: Layout| l@);
    let args = sig.args@.map_values(|l: Layout| l@);
    (ret_params(rets, rets.len() as int) + arg_params(args, args.len() as int), ret_returns(rets, rets.len() as int))
}

fn abi_tys_exec(l: &Layout) -> (r: Vec<ClifTy>)
    ensures
        r@ == abi_tys(l@),
{
    let mut r: Vec<ClifTy> = Vec::new();
    match l.abi() {
        Abi::Unit => {},
        Abi::Scalar(t) => r.push(t.as_cranelift_tp()),
        Abi::ScalarPair(a, b) => {
            r.push(a.as_cranelift_tp());
            r.push(b.as_cranelift_tp());
        },
        Abi::Struct => r.push(Type::Ptr.as_cranelift_tp()),
    }
    assert(r@ =~= abi_tys(l@));
    r
}

/// The machine signature of a function with signature `f`.
pub fn fn_signature(f: &FuncSig) -> (s: ClifSig)
    ensures
        (s.params@, s.results@) == sig_spec(*f),
{
    let ghost rets = f.rets@.map_values(|l: Layout| l@);
    let ghost args = f.args@.map_values(|l: Layout| l@);
    let mut params: Vec<ClifParam> = Vec::new();
    let mut outs: Vec<ClifTy> = Vec::new();
    for i in 0..f.rets.len()
        invariant
            rets == f.rets@.map_values(|l: Layout| l@),
            params@ == ret_params(rets, i as int),
            outs@ == ret_returns(rets, i as int),
    {
        let ghost (p0, r0) = (params@, outs@);
        assert(rets[i as int] == f.rets@[i as int]@);
        match f.rets[i].abi() {
            Abi::Struct => {
                params.push(ClifParam { ty: Type::Ptr.as_cranelift_tp(), struct_return: true });
                assert(params@ =~= p0 + seq![ClifParam { ty: ClifTy::I64, struct_return: true }]);
                assert(outs@ =~= r0 + Seq::<ClifTy>::empty());
            },
            _ => {
                let mut ts = abi_tys_exec(&f.rets[i]);
                outs.append(&mut ts);
                assert(params@ =~= p0 + Seq::<ClifParam>::empty());
            },
        }
    }
    for i in 0..f.args.len()
        invariant
            args == f.args@.map_values(|l: Layout| l@),
            rets == f.rets@.map_values(|l: Layout| l@),
            params@ == ret_params(rets, rets.len() as int) + arg_params(args, i as int),
            outs@ == ret_returns(rets, rets.len() as int),
    {
        let ghost p0 = params@;
        assert(args[i as int] == f.args@[i as int]@);
        let ts = abi_tys_exec(&f.args[i]);
        for k in 0..ts.len()
            invariant
                params@ == p0 + ts@.take(k as int).map_values(|t: ClifTy| ClifParam { ty: t, struct_return: false }),
        {
            params.push(ClifParam { ty: ts[k], struct_return: false });
            assert(params@ =~= p0 + ts@.take(k + 1).map_values(|t: ClifTy| ClifParam { ty: t, struct_return: false }));
        }
        assert(ts@.take(ts@.len() as int) =~= ts@);
        assert(params@ =~= ret_params(rets, rets.len() as int) + arg_params(args, i + 1));
    }
    ClifSig { params, results: outs }
}

/// One machine instruction, on SSA values named by numbers; `res` names
/// the value an instruction defines.
pub enum ClifOp {
    Iconst { ty: ClifTy, imm: i64, res: usize },
    Binary { op: ClifBinop, a: usize, b: usize, res: usize },
    Unary { op: ClifUnop, a: usize, res: usize },
    StackStore { val: usize, slot: usize, offset: i32 },
    StackLoad { ty: ClifTy, slot: usize, offset: i32, res: usize },
    StackAddr { slot: usize, offset: i32, res: usize },
    Load { ty: ClifTy, ptr: usize, offset: i32, res: usize },
    Store { val: usize, ptr: usize, offset: i32 },
    Call { name: String, args: Vec<usize>, results: Vec<usize> },
    MemCopy { dest: usize, src: usize, size: u64 },
    Jump { block: usize },
    Brif { cond: usize, then_block: usize, else_block: usize },
    Return { vals: Vec<usize> },
}

/// The mathematical value of a machine instruction.
pub enum ClifOpV {
    Iconst { ty: ClifTy, imm: i64, res: nat },
    Binary { op: ClifBinop, a: nat, b: nat, res: nat },
    Unary { op: ClifUnop, a: nat, res: nat },
    StackStore { val: nat, slot: nat, offset: i32 },
    StackLoad { ty: ClifTy, slot: nat, offset: i32, res: nat },
    StackAddr { slot: nat, offset: i32, res: nat },
    Load { ty: ClifTy, ptr: nat, offset: i32, res: nat },
    Store { val: nat, ptr: nat, offset: i32 },
    Call { name: Seq<char>, args: Seq<nat>, results: Seq<nat> },
    MemCopy { dest: nat, src: nat, size: u64 },
    Jump { block: nat },
    Brif { cond: nat, then_block: nat, else_block: nat },
    Return { vals: Seq<nat> },
}

/// Numbers as naturals.
pub open spec fn nats(v: Seq<usize>) -> Seq<nat> {
    v.map_values(|x: usize| x as nat)
}

impl View for ClifOp {
    type V = ClifOpV;

    open spec fn view(&self) -> ClifOpV {
        match self {
            ClifOp::Iconst { ty, imm, res } => ClifOpV::Iconst { ty: *ty, imm: *imm, res: *res as nat },
            ClifOp::Binary { op, a, b, res } => ClifOpV::Binary { op: *op, a: *a as nat, b: *b as nat, res: *res as nat },
            ClifOp::Unary { op, a, res } => ClifOpV::Unary { op: *op, a: *a as nat, res: *res as nat },
            ClifOp::StackStore { val, slot, offset } => ClifOpV::StackStore { val: *val as nat, slot: *slot as nat, offset: *offset },
            ClifOp::StackLoad { ty, slot, offset, res } => ClifOpV::StackLoad {
                ty: *ty,
                slot: *slot as nat,
                offset: *offset,
                res: *res as nat,
            },
            ClifOp::StackAddr { slot, offset, res } => ClifOpV::StackAddr { slot: *slot as nat, offset: *offset, res: *res as nat },
            ClifOp::Load { ty, ptr, offset, res } => ClifOpV::Load { ty: *ty, ptr: *ptr as nat, offset: *offset, res: *res as nat },
            ClifOp::Store { val, ptr, offset } => ClifOpV::Store { val: *val as nat, ptr: *ptr as nat, offset: *offset },
            ClifOp::Call { name, args, results } => ClifOpV::Call { name: name@, args: nats(args@), results: nats(results@) },
            ClifOp::MemCopy { dest, src, size } => ClifOpV::MemCopy { dest: *dest as nat, src: *src as nat, size: *size },
            ClifOp::Jump { block } => ClifOpV::Jump { block: *block as nat },
            ClifOp::Brif { cond, then_block, else_block } => ClifOpV::Brif {
                cond: *cond as nat,
                then_block: *then_block as nat,
                else_block: *else_block as nat,
            },
            ClifOp::Return { vals } => ClifOpV::Return { vals: nats(vals@) },
        }
    }
}

/// The state of code generation: the stack of SSA values and the number
/// of values defined so far.
pub struct PlanState {
    pub stack: Seq<nat>,
    pub next: nat,
}

/// The signature of the function named `name` among `decls`: its latest
/// declaration.
pub open spec fn find_decl(decls: Seq<(Seq<char>, Seq<ClifParam>, Seq<ClifTy>)>, name: Seq<char>) -> Option<
    (Seq<ClifParam>, Seq<ClifTy>),
>
    decreases decls.len(),
{
    if decls.len() == 0 {
        None
    } else if decls.last().0 == name {
        Some((decls.last().1, decls.last().2))
    } else {
        find_decl(decls.drop_last(), name)
    }
}

/// A new value pushed onto the stack.
pub open spec fn push_new(st: PlanState) -> PlanState {
    PlanState { stack: st.stack.push(st.next), next: st.next + 1 }
}

/// `n` new values, numbered in order.
pub open spec fn fresh(next: nat, n: nat) -> Seq<nat> {
    Seq::new(n, |i: int| (next + i) as nat)
}

/// The machine code of one bytecode instruction with `nslots` stack slots:
/// the machine instructions and the state after; none where the bytecode
/// pops an empty stack or names a slot or function that does not exist.
pub open spec fn inst_plan(
    decls: Seq<(Seq<char>, Seq<ClifParam>, Seq<ClifTy>)>,
    nslots: nat,
    st: PlanState,
    inst: Inst,
) -> Option<(Seq<ClifOpV>, PlanState)> {
    let s = st.stack;
    let n = st.next;
    if n + new_values(decls, inst) > usize::MAX {
        None
    } else {
    match inst {
        Inst::PushInt(v) => Some((seq![ClifOpV::Iconst { ty: ClifTy::I64, imm: v, res: n }], push_new(st))),
        Inst::PushBool(v) => Some(
            (seq![ClifOpV::Iconst { ty: ClifTy::I8, imm: if v { 1 } else { 0 }, res: n }], push_new(st)),
        ),
        Inst::Binop(op) => if s.len() < 2 {
            None
        } else {
            let st1 = PlanState { stack: s.drop_last().drop_last(), next: n };
            Some((seq![ClifOpV::Binary { op: clif_binop(op), a: s[s.len() - 2], b: s.last(), res: n }], push_new(st1)))
        },
        Inst::Unop(op) => if s.len() < 1 {
            None
        } else {
            let st1 = PlanState { stack: s.drop_last(), next: n };
            Some((seq![ClifOpV::Unary { op: clif_unop(op), a: s.last(), res: n }], push_new(st1)))
        },
        Inst::SetLocal { id, offset } => if s.len() < 1 || id >= nslots {
            None
        } else {
            Some(
                (
                    seq![ClifOpV::StackStore { val: s.last(), slot: id as nat, offset: offset as i32 }],
                    PlanState { stack: s.drop_last(), next: n },
                ),
            )
        },
        Inst::Get { id, offset, tp } => if id >= nslots {
            None
        } else {
            Some((seq![ClifOpV::StackLoad { ty: clif_ty(tp), slot: id as nat, offset: offset as i32, res: n }], push_new(st)))
        },
        Inst::LocalAddr { id, offset } => if id >= nslots {
            None
        } else {
            Some((seq![ClifOpV::StackAddr { slot: id as nat, offset: offset as i32, res: n }], push_new(st)))
        },
        Inst::Load { offset, tp } => if s.len() < 1 {
            None
        } else {
            let st1 = PlanState { stack: s.drop_last(), next: n };
            Some((seq![ClifOpV::Load { ty: clif_ty(tp), ptr: s.last(), offset: offset as i32, res: n }], push_new(st1)))
        },
        Inst::Store { offset } => if s.len() < 2 {
            None
        } else {
            Some(
                (
                    seq![ClifOpV::Store { val: s[s.len() - 2], ptr: s.last(), offset: offset as i32 }],
                    PlanState { stack: s.drop_last().drop_last(), next: n },
                ),
            )
        },
        Inst::CapOffset => if s.len() < 2 {
            None
        } else {
            let st1 = PlanState { stack: s.drop_last().drop_last(), next: n };
            Some((seq![ClifOpV::Binary { op: ClifBinop::Iadd, a: s.last(), b: s[s.len() - 2], res: n }], push_new(st1)))
        },
        Inst::Drop => if s.len() < 1 {
            None
        } else {
            Some((Seq::empty(), PlanState { stack: s.drop_last(), next: n }))
        },
        Inst::Dup => if s.len() < 1 {
            None
        } else {
            Some((Seq::empty(), PlanState { stack: s.push(s.last()), next: n }))
        },
        Inst::MemCopy { size } => if s.len() < 2 {
            None
        } else {
            Some(
                (
                    seq![ClifOpV::MemCopy { dest: s[s.len() - 2], src: s.last(), size: size as u64 }],
                    PlanState { stack: s.drop_last().drop_last(), next: n },
                ),
            )
        },
        Inst::Call(name) => match find_decl(decls, name@) {
            Some((params, rets)) => if s.len() < params.len() {
                None
            } else {
                let k = params.len();
                let args = s.subrange(s.len() - k, s.len() as int);
                let results = fresh(n, rets.len());
                Some(
                    (
                        seq![ClifOpV::Call { name: name@, args, results }],
                        PlanState { stack: s.subrange(0, s.len() - k) + results, next: n + rets.len() },
                    ),
                )
            },
            None => None,
        },
    }
    }
}

/// The number of values that an instruction defines.
pub open spec fn new_values(decls: Seq<(Seq<char>, Seq<ClifParam>, Seq<ClifTy>)>, inst: Inst) -> nat {
    match inst {
        Inst::PushInt(_) | Inst::PushBool(_) | Inst::Binop(_) | Inst::Unop(_) | Inst::Get { .. }
        | Inst::LocalAddr { .. } | Inst::Load { .. } | Inst::CapOffset => 1,
        Inst::Call(name) => match find_decl(decls, name@) {
            Some((_, rets)) => rets.len(),
            None => 0,
        },
        _ => 0,
    }
}

/// The machine code of a terminator of a function with `nrets` machine
/// results and `nblocks` blocks.
pub open spec fn term_plan(nrets: nat, nblocks: nat, st: PlanState, t: Terminator) -> Option<(ClifOpV, PlanState)> {
    let s = st.stack;
    match t {
        Terminator::Jmp(b) => if b >= nblocks {
            None
        } else {
            Some((ClifOpV::Jump { block: b as nat }, st))
        },
        Terminator::Br(th, el) => if th >= nblocks || el >= nblocks || s.len() < 1 {
            None
        } else {
            Some((ClifOpV::Brif { cond: s.last(), then_block: th as nat, else_block: el as nat }, PlanState { stack: s.drop_last(), next: st.next }))
        },
        Terminator::Ret => if s.len() < nrets {
            None
        } else {
            Some(
                (
                    ClifOpV::Return { vals: s.subrange(s.len() - nrets, s.len() as int) },
                    PlanState { stack: s.subrange(0, s.len() - nrets), next: st.next },
                ),
            )
        },
    }
}

/// The machine code keeps the bytecode's stack discipline: a pushed
/// integer or boolean becomes a new value holding it (a boolean as 1 or
/// 0); an operator becomes one machine instruction on the two values on
/// top of the stack, the deeper one as its left operand, whose new result
/// replaces them; a conditional branch tests the value on top and goes to
/// the block that the bytecode names first when it holds.
pub proof fn lemma_plan_stack(
    decls: Seq<(Seq<char>, Seq<ClifParam>, Seq<ClifTy>)>,
    nslots: nat,
    nrets: nat,
    nblocks: nat,
    st: PlanState,
    n: i64,
    v: bool,
    op: Binop,
    t: usize,
    f: usize,
)
    requires
        st.next + 1 <= usize::MAX,
        st.stack.len() >= 2,
        t < nblocks,
        f < nblocks,
    ensures
        inst_plan(decls, nslots, st, Inst::PushInt(n)) == Some(
            (
                seq![ClifOpV::Iconst { ty: ClifTy::I64, imm: n, res: st.next }],
                PlanState { stack: st.stack.push(st.next), next: st.next + 1 },
            ),
        ),
        inst_plan(decls, nslots, st, Inst::PushBool(v)) == Some(
            (
                seq![ClifOpV::Iconst { ty: ClifTy::I8, imm: if v { 1i64 } else { 0i64 }, res: st.next }],
                PlanState { stack: st.stack.push(st.next), next: st.next + 1 },
            ),
        ),
        inst_plan(decls, nslots, st, Inst::Binop(op)) == Some(
            (
                seq![
                    ClifOpV::Binary {
                        op: clif_binop(op),
                        a: st.stack[st.stack.len() - 2],
                        b: st.stack[st.stack.len() - 1],
                        res: st.next,
                    },
                ],
                PlanState { stack: st.stack.subrange(0, st.stack.len() - 2).push(st.next), next: st.next + 1 },
            ),
        ),
        term_plan(nrets, nblocks, st, Terminator::Br(t, f)) == Some(
            (
                ClifOpV::Brif { cond: st.stack[st.stack.len() - 1], then_block: t as nat, else_block: f as nat },
                PlanState { stack: st.stack.subrange(0, st.stack.len() - 1), next: st.next },
            ),
        ),
{
    assert(st.stack.drop_last().drop_last() =~= st.stack.subrange(0, st.stack.len() - 2));
    assert(st.stack.drop_last() =~= st.stack.subrange(0, st.stack.len() - 1));
}

/// The machine code of the instructions `insts[..k]` from state `st`.
pub open spec fn insts_plan(
    decls: Seq<(Seq<char>, Seq<ClifParam>, Seq<ClifTy>)>,
    nslots: nat,
    st: PlanState,
    insts: Seq<Inst>,
    k: int,
) -> Option<(Seq<ClifOpV>, PlanState)>
    decreases k,
{
    if k <= 0 || k > insts.len() {
        Some((Seq::empty(), st))
    } else {
        match insts_plan(decls, nslots, st, insts, k - 1) {
            Some((ops, st1)) => match inst_plan(decls, nslots, st1, insts[k - 1]) {
                Some((ops2, st2)) => Some((ops + ops2, st2)),
                None => None,
            },
            None => None,
        }
    }
}

/// The machine code of blocks `blocks[..k]`, in order, with one stack
/// carried from each block to the next.
pub open spec fn blocks_plan(
    decls: Seq<(Seq<char>, Seq<ClifParam>, Seq<ClifTy>)>,
    nslots: nat,
    nrets: nat,
    st: PlanState,
    blocks: Seq<Block>,
    k: int,
) -> Option<(Seq<Seq<ClifOpV>>, PlanState)>
    decreases k,
{
    if k <= 0 || k > blocks.len() {
        Some((Seq::empty(), st))
    } else {
        match blocks_plan(decls, nslots, nrets, st, blocks, k - 1) {
            Some((bs, st1)) => match insts_plan(decls, nslots, st1, blocks[k - 1].insts@, blocks[k - 1].insts@.len() as int) {
                Some((ops, st2)) => match term_plan(nrets, blocks.len(), st2, blocks[k - 1].terminator) {
                    Some((t, st3)) => Some((bs.push(ops.push(t)), st3)),
                    None => None,
                },
                None => None,
            },
            None => None,
        }
    }
}

/// The machine code of a function whose machine signature has `nparams`
/// parameters and `nrets` results: the parameters are the first values,
/// on the stack in order.
pub open spec fn define_spec(
    decls: Seq<(Seq<char>, Seq<ClifParam>, Seq<ClifTy>)>,
    nparams: nat,
    nrets: nat,
    f: Func,
) -> Option<Seq<Seq<ClifOpV>>> {
    let st = PlanState { stack: fresh(0, nparams), next: nparams };
    match blocks_plan(decls, f.variables@.len(), nrets, st, f.blocks@, f.blocks@.len() as int) {
        Some((bs, _)) => Some(bs),
        None => None,
    }
}


/// Every value on the stack has been defined.
pub open spec fn stack_defined(st: PlanState) -> bool {
    forall|k: int| 0 <= k < st.stack.len() ==> (#[trigger] st.stack[k]) < st.next
}

/// Generating code for an instruction only uses values defined before it: when
/// every value on the stack is defined, so is every value on the stack
/// after it, and no value is defined twice (the count only grows).
pub proof fn lemma_inst_plan_defined(
    decls: Seq<(Seq<char>, Seq<ClifParam>, Seq<ClifTy>)>,
    nslots: nat,
    st: PlanState,
    inst: Inst,
)
    requires
        stack_defined(st),
        inst_plan(decls, nslots, st, inst) is Some,
    ensures
        stack_defined(inst_plan(decls, nslots, st, inst).unwrap().1),
        st.next <= inst_plan(decls, nslots, st, inst).unwrap().1.next,
{
    let s = st.stack;
    let r = inst_plan(decls, nslots, st, inst).unwrap().1;
    match inst {
        Inst::Call(name) => {
            let (params, rets) = find_decl(decls, name@).unwrap();
            let k = params.len();
            assert forall|j: int| 0 <= j < r.stack.len() implies (#[trigger] r.stack[j]) < r.next by {
                if j < s.len() - k {
                    assert(r.stack[j] == s[j]);
                }
            }
        },
        _ => {
            assert forall|j: int| 0 <= j < r.stack.len() implies (#[trigger] r.stack[j]) < r.next by {
                if j < s.len() {
                    assert(s[j] < st.next);
                }
            }
        },
    }
}

/// Generating code for instructions in order only uses values defined before.
pub proof fn lemma_insts_plan_defined(
    decls: Seq<(Seq<char>, Seq<ClifParam>, Seq<ClifTy>)>,
    nslots: nat,
    st: PlanState,
    insts: Seq<Inst>,
    k: int,
)
    requires
        stack_defined(st),
        insts_plan(decls, nslots, st, insts, k) is Some,
    ensures
        stack_defined(insts_plan(decls, nslots, st, insts, k).unwrap().1),
        st.next <= insts_plan(decls, nslots, st, insts, k).unwrap().1.next,
    decreases k,
{
    if 0 < k <= insts.len() {
        lemma_insts_plan_defined(decls, nslots, st, insts, k - 1);
        let st1 = insts_plan(decls, nslots, st, insts, k - 1).unwrap().1;
        lemma_inst_plan_defined(decls, nslots, st1, insts[k - 1]);
    }
}

/// The values that a machine instruction uses.
pub open spec fn op_uses(o: ClifOpV) -> Seq<nat> {
    match o {
        ClifOpV::Binary { a, b, .. } => seq![a, b],
        ClifOpV::Unary { a, .. } => seq![a],
        ClifOpV::StackStore { val, .. } => seq![val],
        ClifOpV::Load { ptr, .. } => seq![ptr],
        ClifOpV::Store { val, ptr, .. } => seq![val, ptr],
        ClifOpV::Call { args, .. } => args,
        ClifOpV::MemCopy { dest, src, .. } => seq![dest, src],
        ClifOpV::Brif { cond, .. } => seq![cond],
        ClifOpV::Return { vals } => vals,
        _ => Seq::empty(),
    }
}

/// The values that a machine instruction defines.
pub open spec fn op_defs(o: ClifOpV) -> Seq<nat> {
    match o {
        ClifOpV::Iconst { res, .. } => seq![res],
        ClifOpV::Binary { res, .. } => seq![res],
        ClifOpV::Unary { res, .. } => seq![res],
        ClifOpV::StackLoad { res, .. } => seq![res],
        ClifOpV::StackAddr { res, .. } => seq![res],
        ClifOpV::Load { res, .. } => seq![res],
        ClifOpV::Call { results, .. } => results,
        _ => Seq::empty(),
    }
}

/// A machine instruction after `n` values are defined, in a function with
/// `nslots` stack slots and `nblocks` blocks: it uses only defined values,
/// defines the next values in order, and names slots and blocks that
/// exist.
pub open spec fn op_ok(o: ClifOpV, n: nat, nslots: nat, nblocks: nat) -> bool {
    &&& forall|k: int| 0 <= k < op_uses(o).len() ==> #[trigger] op_uses(o)[k] < n
    &&& op_defs(o) == fresh(n, op_defs(o).len())
    &&& match o {
        ClifOpV::StackStore { slot, .. } => slot < nslots,
        ClifOpV::StackLoad { slot, .. } => slot < nslots,
        ClifOpV::StackAddr { slot, .. } => slot < nslots,
        ClifOpV::Jump { block } => block < nblocks,
        ClifOpV::Brif { then_block, else_block, .. } => then_block < nblocks && else_block < nblocks,
        _ => true,
    }
}

/// The number of values defined after instructions `ops`, from `n` values
/// defined, when each of them is as `op_ok` says; none otherwise.
pub open spec fn ssa_count(ops: Seq<ClifOpV>, n: nat, nslots: nat, nblocks: nat) -> Option<nat>
    decreases ops.len(),
{
    if ops.len() == 0 {
        Some(n)
    } else {
        match ssa_count(ops.drop_last(), n, nslots, nblocks) {
            Some(m) => if op_ok(ops.last(), m, nslots, nblocks) {
                Some(m + op_defs(ops.last()).len())
            } else {
                None
            },
            None => None,
        }
    }
}

/// The instructions of blocks `bs`, in order.
pub open spec fn flatten_ops(bs: Seq<Seq<ClifOpV>>) -> Seq<ClifOpV>
    decreases bs.len(),
{
    if bs.len() == 0 {
        Seq::empty()
    } else {
        flatten_ops(bs.drop_last()) + bs.last()
    }
}

/// Instructions one after the other: the count after both is the count
/// after the second, from the count after the first.
pub proof fn lemma_ssa_count_concat(a: Seq<ClifOpV>, b: Seq<ClifOpV>, n: nat, nslots: nat, nblocks: nat)
    ensures
        ssa_count(a + b, n, nslots, nblocks) == match ssa_count(a, n, nslots, nblocks) {
            Some(m) => ssa_count(b, m, nslots, nblocks),
            None => None,
        },
    decreases b.len(),
{
    if b.len() == 0 {
        assert(a + b =~= a);
    } else {
        lemma_ssa_count_concat(a, b.drop_last(), n, nslots, nblocks);
        assert((a + b).drop_last() =~= a + b.drop_last());
        assert((a + b).last() == b.last());
    }
}

/// The code of one instruction, from a state whose stack holds defined
/// values, is in SSA order and ends with the count of its state after.
proof fn lemma_inst_plan_ssa(
    decls: Seq<(Seq<char>, Seq<ClifParam>, Seq<ClifTy>)>,
    nslots: nat,
    nblocks: nat,
    st: PlanState,
    inst: Inst,
)
    requires
        stack_defined(st),
        inst_plan(decls, nslots, st, inst) is Some,
    ensures
        ssa_count(inst_plan(decls, nslots, st, inst).unwrap().0, st.next, nslots, nblocks) == Some(
            inst_plan(decls, nslots, st, inst).unwrap().1.next,
        ),
{
    let (o, st2) = inst_plan(decls, nslots, st, inst).unwrap();
    let s = st.stack;
    let n = st.next;
    if o.len() == 1 {
        assert(o.drop_last() =~= Seq::<ClifOpV>::empty());
        assert(ssa_count(o.drop_last(), n, nslots, nblocks) == Some(n));
        let x = o[0];
        assert(o.last() == x);
        match inst {
            Inst::Call(name) => {
                let (params, rets) = find_decl(decls, name@).unwrap();
                let k = params.len();
                assert forall|j: int| 0 <= j < op_uses(x).len() implies #[trigger] op_uses(x)[j] < n by {
                    assert(op_uses(x)[j] == s[s.len() - k + j]);
                }
                assert(op_defs(x) =~= fresh(n, op_defs(x).len()));
            },
            Inst::Binop(_) | Inst::Store { .. } | Inst::CapOffset | Inst::MemCopy { .. } => {
                assert(s[s.len() - 2] < n && s[s.len() - 1] < n);
                assert(op_defs(x) =~= fresh(n, op_defs(x).len()));
            },
            _ => {
                if s.len() >= 1 {
                    assert(s[s.len() - 1] < n);
                }
                assert(op_defs(x) =~= fresh(n, op_defs(x).len()));
            },
        }
        assert(op_ok(x, n, nslots, nblocks));
        assert(st2.next == n + op_defs(x).len());
    } else {
        assert(o =~= Seq::<ClifOpV>::empty());
        assert(st2.next == n);
    }
}

/// The code of instructions `insts[..k]`, from a state whose stack holds
/// defined values, is in SSA order and ends with the count of its state
/// after.
proof fn lemma_insts_plan_ssa(
    decls: Seq<(Seq<char>, Seq<ClifParam>, Seq<ClifTy>)>,
    nslots: nat,
    nblocks: nat,
    st: PlanState,
    insts: Seq<Inst>,
    k: int,
)
    requires
        stack_defined(st),
        insts_plan(decls, nslots, st, insts, k) is Some,
    ensures
        ssa_count(insts_plan(decls, nslots, st, insts, k).unwrap().0, st.next, nslots, nblocks) == Some(
            insts_plan(decls, nslots, st, insts, k).unwrap().1.next,
        ),
    decreases k,
{
    if 0 < k <= insts.len() {
        lemma_insts_plan_ssa(decls, nslots, nblocks, st, insts, k - 1);
        lemma_insts_plan_defined(decls, nslots, st, insts, k - 1);
        let (ops, st1) = insts_plan(decls, nslots, st, insts, k - 1).unwrap();
        lemma_inst_plan_ssa(decls, nslots, nblocks, st1, insts[k - 1]);
        let (ops2, st2) = inst_plan(decls, nslots, st1, insts[k - 1]).unwrap();
        lemma_ssa_count_concat(ops, ops2, st.next, nslots, nblocks);
    } else {
        assert(insts_plan(decls, nslots, st, insts, k).unwrap().0.len() == 0);
    }
}

/// The code of blocks `blocks[..k]`, from a state whose stack holds
/// defined values, is in SSA order and ends with the count of its state
/// after, whose stack holds defined values.
proof fn lemma_blocks_plan_ssa(
    decls: Seq<(Seq<char>, Seq<ClifParam>, Seq<ClifTy>)>,
    nslots: nat,
    nrets: nat,
    st: PlanState,
    blocks: Seq<Block>,
    k: int,
)
    requires
        stack_defined(st),
        blocks_plan(decls, nslots, nrets, st, blocks, k) is Some,
    ensures
        ssa_count(flatten_ops(blocks_plan(decls, nslots, nrets, st, blocks, k).unwrap().0), st.next, nslots, blocks.len())
            == Some(blocks_plan(decls, nslots, nrets, st, blocks, k).unwrap().1.next),
        stack_defined(blocks_plan(decls, nslots, nrets, st, blocks, k).unwrap().1),
    decreases k,
{
    let nb = blocks.len();
    if 0 < k <= blocks.len() {
        lemma_blocks_plan_ssa(decls, nslots, nrets, st, blocks, k - 1);
        let (bs, st1) = blocks_plan(decls, nslots, nrets, st, blocks, k - 1).unwrap();
        let insts = blocks[k - 1].insts@;
        lemma_insts_plan_ssa(decls, nslots, nb, st1, insts, insts.len() as int);
        lemma_insts_plan_defined(decls, nslots, st1, insts, insts.len() as int);
        let (ops, st2) = insts_plan(decls, nslots, st1, insts, insts.len() as int).unwrap();
        let (t, st3) = term_plan(nrets, nb, st2, blocks[k - 1].terminator).unwrap();
        let s = st2.stack;
        assert(op_ok(t, st2.next, nslots, nb)) by {
            if s.len() >= 1 {
                assert(s[s.len() - 1] < st2.next);
            }
            match t {
                ClifOpV::Return { vals } => {
                    assert forall|j: int| 0 <= j < op_uses(t).len() implies #[trigger] op_uses(t)[j] < st2.next by {
                        assert(op_uses(t)[j] == s[s.len() - nrets + j]);
                    }
                },
                _ => {},
            }
            assert(op_defs(t) =~= fresh(st2.next, 0));
        }
        let blk = ops.push(t);
        assert(blk =~= ops + seq![t]);
        assert(seq![t].drop_last() =~= Seq::<ClifOpV>::empty());
        assert(op_defs(t).len() == 0);
        assert(ssa_count(seq![t].drop_last(), st2.next, nslots, nb) == Some(st2.next));
        assert(ssa_count(seq![t], st2.next, nslots, nb) == Some(st2.next));
        assert(st3.next == st2.next);
        lemma_ssa_count_concat(ops, seq![t], st1.next, nslots, nb);
        let nbs = bs.push(blk);
        assert(nbs.drop_last() =~= bs);
        assert(nbs.last() == blk);
        assert(flatten_ops(nbs) == flatten_ops(bs) + blk);
        assert(blocks_plan(decls, nslots, nrets, st, blocks, k) == Some((nbs, st3)));
        lemma_ssa_count_concat(flatten_ops(bs), blk, st.next, nslots, nb);
        assert(ssa_count(blk, st1.next, nslots, nb) == Some(st3.next));
        assert forall|j: int| 0 <= j < st3.stack.len() implies (#[trigger] st3.stack[j]) < st3.next by {
            assert(st3.stack[j] == s[j]);
        }
    } else {
        assert(flatten_ops(Seq::<Seq<ClifOpV>>::empty()) =~= Seq::<ClifOpV>::empty());
    }
}

/// The machine code of a function is in SSA form: its instructions, in
/// order, use only the parameters and values defined before them, define
/// the next values in order, and name only slots and blocks that exist.
pub proof fn lemma_define_ssa(
    decls: Seq<(Seq<char>, Seq<ClifParam>, Seq<ClifTy>)>,
    nparams: nat,
    nrets: nat,
    f: Func,
)
    requires
        define_spec(decls, nparams, nrets, f) is Some,
    ensures
        ssa_count(flatten_ops(define_spec(decls, nparams, nrets, f).unwrap()), nparams, f.variables@.len(), f.blocks@.len())
            is Some,
{
    let st = PlanState { stack: fresh(0, nparams), next: nparams };
    lemma_blocks_plan_ssa(decls, f.variables@.len(), nrets, st, f.blocks@, f.blocks@.len() as int);
}

/// The declared signatures, as values.
pub open spec fn decls_view(decls: Seq<(String, ClifSig)>) -> Seq<(Seq<char>, Seq<ClifParam>, Seq<ClifTy>)> {
    decls.map_values(|d: (String, ClifSig)| (d.0@, d.1.params@, d.1.results@))
}

/// The values of a sequence of machine instructions.
pub open spec fn ops_view(ops: Seq<ClifOp>) -> Seq<ClifOpV> {
    ops.map_values(|o: ClifOp| o@)
}

fn find_decl_exec(decls: &Vec<(String, ClifSig)>, name: &String) -> (r: Option<usize>)
    ensures
        match r {
            Some(i) => i < decls@.len() && find_decl(decls_view(decls@), name@) == Some(
                (decls@[i as int].1.params@, decls@[i as int].1.results@),
            ),
            None => find_decl(decls_view(decls@), name@) is None,
        },
{
    let ghost dv = decls_view(decls@);
    let mut i = decls.len();
    assert(dv.take(i as int) =~= dv);
    while i > 0
        invariant
            i <= decls@.len(),
            dv == decls_view(decls@),
            find_decl(dv, name@) == find_decl(dv.take(i as int), name@),
        decreases i,
    {
        assert(dv.take(i as int).drop_last() =~= dv.take(i - 1));
        if decls[i - 1].0 == *name {
            return Some(i - 1);
        }
        i = i - 1;
    }
    assert(dv.take(0) =~= dv.take(0).take(0));
    None
}

/// Pops the top of the stack.
fn pop_val(stack: &mut Vec<usize>) -> (v: usize)
    requires
        old(stack)@.len() >= 1,
    ensures
        v == old(stack)@.last(),
        final(stack)@ == old(stack)@.drop_last(),
{
    let v = stack.pop().unwrap();
    v
}

proof fn lemma_nats_push(s: Seq<usize>, x: usize)
    ensures
        nats(s.push(x)) == nats(s).push(x as nat),
{
    assert(nats(s.push(x)) =~= nats(s).push(x as nat));
}

proof fn lemma_nats_drop_last(s: Seq<usize>)
    requires
        s.len() >= 1,
    ensures
        nats(s.drop_last()) == nats(s).drop_last(),
        nats(s).last() == s.last() as nat,
{
    assert(nats(s.drop_last()) =~= nats(s).drop_last());
}

/// Generates the code of one instruction, appending its machine instructions to
/// `ops` and updating the stack of values.
fn plan_inst(
    decls: &Vec<(String, ClifSig)>,
    nslots: usize,
    stack: &mut Vec<usize>,
    next: &mut usize,
    inst: &Inst,
    ops: &mut Vec<ClifOp>,
)
    requires
        inst_plan(decls_view(decls@), nslots as nat, PlanState { stack: nats(old(stack)@), next: *old(next) as nat }, *inst) is Some,
    ensures
        ({
            let (o, st) = inst_plan(decls_view(decls@), nslots as nat, PlanState { stack: nats(old(stack)@), next: *old(next) as nat }, *inst).unwrap();
            &&& ops_view(final(ops)@) == ops_view(old(ops)@) + o
            &&& nats(final(stack)@) == st.stack
            &&& *final(next) as nat == st.next
        }),
{
    let ghost s0 = stack@;
    let ghost o0 = ops@;
    let n = *next;
    proof {
        if s0.len() >= 1 {
            lemma_nats_drop_last(s0);
        }
        if s0.len() >= 2 {
            lemma_nats_drop_last(s0.drop_last());
            assert(nats(s0)[s0.len() - 2] == s0[s0.len() - 2] as nat);
        }
    }
    match inst {
        Inst::PushInt(v) => {
            ops.push(ClifOp::Iconst { ty: ClifTy::I64, imm: *v, res: n });
            stack.push(n);
            *next = n + 1;
        },
        Inst::PushBool(v) => {
            ops.push(ClifOp::Iconst { ty: ClifTy::I8, imm: if *v { 1 } else { 0 }, res: n });
            stack.push(n);
            *next = n + 1;
        },
        Inst::Binop(op) => {
            let b = pop_val(stack);
            let a = pop_val(stack);
            ops.push(ClifOp::Binary { op: clif_binop_of(*op), a, b, res: n });
            stack.push(n);
            *next = n + 1;
        },
        Inst::Unop(op) => {
            let a = pop_val(stack);
            ops.push(ClifOp::Unary { op: clif_unop_of(*op), a, res: n });
            stack.push(n);
            *next = n + 1;
        },
        Inst::SetLocal { id, offset } => {
            let val = pop_val(stack);
            ops.push(ClifOp::StackStore { val, slot: *id, offset: *offset as i32 });
        },
        Inst::Get { id, offset, tp } => {
            ops.push(ClifOp::StackLoad { ty: tp.as_cranelift_tp(), slot: *id, offset: *offset as i32, res: n });
            stack.push(n);
            *next = n + 1;
        },
        Inst::LocalAddr { id, offset } => {
            ops.push(ClifOp::StackAddr { slot: *id, offset: *offset as i32, res: n });
            stack.push(n);
            *next = n + 1;
        },
        Inst::Load { offset, tp } => {
            let ptr = pop_val(stack);
            ops.push(ClifOp::Load { ty: tp.as_cranelift_tp(), ptr, offset: *offset as i32, res: n });
            stack.push(n);
            *next = n + 1;
        },
        Inst::Store { offset } => {
            let ptr = pop_val(stack);
            let val = pop_val(stack);
            ops.push(ClifOp::Store { val, ptr, offset: *offset as i32 });
        },
        Inst::CapOffset => {
            let ptr = pop_val(stack);
            let val = pop_val(stack);
            ops.push(ClifOp::Binary { op: ClifBinop::Iadd, a: ptr, b: val, res: n });
            stack.push(n);
            *next = n + 1;
        },
        Inst::Drop => {
            let _ = pop_val(stack);
        },
        Inst::Dup => {
            let v = stack[stack.len() - 1];
            stack.push(v);
        },
        Inst::MemCopy { size } => {
            let src = pop_val(stack);
            let dest = pop_val(stack);
            ops.push(ClifOp::MemCopy { dest, src, size: *size as u64 });
        },
        Inst::Call(name) => {
            let d = find_decl_exec(decls, name).unwrap();
            let k = decls[d].1.params.len();
            let nr = decls[d].1.results.len();
            let l = stack.len();
            assert(k <= l);
            let mut args: Vec<usize> = Vec::new();
            let mut j = l - k;
            assert(nats(args@) =~= nats(s0).subrange(l - k, j as int));
            while j < l
                invariant
                    k <= l,
                    l == s0.len(),
                    stack@ == s0,
                    l - k <= j <= l,
                    nats(args@) == nats(s0).subrange(l - k, j as int),
                decreases l - j,
            {
                let ghost a0 = args@;
                args.push(stack[j]);
                proof {
                    lemma_nats_push(a0, s0[j as int]);
                    assert(nats(s0)[j as int] == s0[j as int] as nat);
                    assert(nats(s0).subrange(l - k, j + 1) =~= nats(s0).subrange(l - k, j as int).push(s0[j as int] as nat));
                }
                j = j + 1;
            }
            stack.truncate(l - k);
            assert(nats(stack@) =~= nats(s0).subrange(0, l - k) + fresh(n as nat, 0));
            let mut results: Vec<usize> = Vec::new();
            let mut r: usize = 0;
            assert(nats(results@) =~= fresh(n as nat, 0));
            while r < nr
                invariant
                    n + nr <= usize::MAX,
                    k <= l,
                    r <= nr,
                    nats(results@) == fresh(n as nat, r as nat),
                    nats(stack@) == nats(s0).subrange(0, l - k) + fresh(n as nat, r as nat),
                decreases nr - r,
            {
                let ghost r0 = results@;
                let ghost st0 = stack@;
                results.push(n + r);
                stack.push(n + r);
                proof {
                    lemma_nats_push(r0, (n + r) as usize);
                    lemma_nats_push(st0, (n + r) as usize);
                    assert(nats(results@) =~= fresh(n as nat, (r + 1) as nat));
                    assert(nats(stack@) =~= nats(s0).subrange(0, l - k) + fresh(n as nat, (r + 1) as nat));
                }
                r = r + 1;
            }
            proof {
                assert(stack@.len() >= 0);
            }
            ops.push(ClifOp::Call { name: name.clone(), args, results });
            *next = n + nr;
        },
    }
    proof {
        let (o, st) = inst_plan(decls_view(decls@), nslots as nat, PlanState { stack: nats(s0), next: n as nat }, *inst).unwrap();
        assert(ops_view(ops@) =~= ops_view(o0) + o);
        assert(nats(stack@) =~= st.stack);
    }
}

proof fn lemma_insts_prefix(
    decls: Seq<(Seq<char>, Seq<ClifParam>, Seq<ClifTy>)>,
    nslots: nat,
    st: PlanState,
    insts: Seq<Inst>,
    j: int,
    k: int,
)
    requires
        0 <= j <= k <= insts.len(),
        insts_plan(decls, nslots, st, insts, k) is Some,
    ensures
        insts_plan(decls, nslots, st, insts, j) is Some,
    decreases k - j,
{
    if j < k {
        assert(insts_plan(decls, nslots, st, insts, k - 1) is Some);
        lemma_insts_prefix(decls, nslots, st, insts, j, k - 1);
    }
}

proof fn lemma_blocks_prefix(
    decls: Seq<(Seq<char>, Seq<ClifParam>, Seq<ClifTy>)>,
    nslots: nat,
    nrets: nat,
    st: PlanState,
    blocks: Seq<Block>,
    j: int,
    k: int,
)
    requires
        0 <= j <= k <= blocks.len(),
        blocks_plan(decls, nslots, nrets, st, blocks, k) is Some,
    ensures
        blocks_plan(decls, nslots, nrets, st, blocks, j) is Some,
    decreases k - j,
{
    if j < k {
        assert(blocks_plan(decls, nslots, nrets, st, blocks, k - 1) is Some);
        lemma_blocks_prefix(decls, nslots, nrets, st, blocks, j, k - 1);
    }
}

/// Generates the code of a terminator, appending its machine instruction to `ops`.
fn plan_term(nrets: usize, nblocks: usize, stack: &mut Vec<usize>, next: usize, t: Terminator, ops: &mut Vec<ClifOp>)
    requires
        term_plan(nrets as nat, nblocks as nat, PlanState { stack: nats(old(stack)@), next: next as nat }, t) is Some,
    ensures
        ({
            let (o, st) = term_plan(nrets as nat, nblocks as nat, PlanState { stack: nats(old(stack)@), next: next as nat }, t).unwrap();
            &&& ops_view(final(ops)@) == ops_view(old(ops)@).push(o)
            &&& nats(final(stack)@) == st.stack
        }),
{
    let ghost s0 = stack@;
    let ghost o0 = ops@;
    proof {
        if s0.len() >= 1 {
            lemma_nats_drop_last(s0);
        }
    }
    match t {
        Terminator::Jmp(b) => {
            ops.push(ClifOp::Jump { block: b });
        },
        Terminator::Br(th, el) => {
            let c = pop_val(stack);
            ops.push(ClifOp::Brif { cond: c, then_block: th, else_block: el });
        },
        Terminator::Ret => {
            let l = stack.len();
            let mut vals: Vec<usize> = Vec::new();
            let mut j = l - nrets;
            assert(nats(vals@) =~= nats(s0).subrange(l - nrets, j as int));
            while j < l
                invariant
                    nrets <= l,
                    l == s0.len(),
                    stack@ == s0,
                    l - nrets <= j <= l,
                    nats(vals@) == nats(s0).subrange(l - nrets, j as int),
                decreases l - j,
            {
                let ghost a0 = vals@;
                vals.push(stack[j]);
                proof {
                    lemma_nats_push(a0, s0[j as int]);
                    assert(nats(s0)[j as int] == s0[j as int] as nat);
                    assert(nats(s0).subrange(l - nrets, j + 1) =~= nats(s0).subrange(l - nrets, j as int).push(s0[j as int] as nat));
                }
                j = j + 1;
            }
            stack.truncate(l - nrets);
            assert(nats(stack@) =~= nats(s0).subrange(0, l - nrets));
            ops.push(ClifOp::Return { vals });
        },
    }
    assert(ops_view(ops@) =~= ops_view(o0).push(ops@.last()@));
}

/// Whether the code of instruction `inst` can be generated with stack
/// `stack` after `next` values.
fn inst_plan_ok(decls: &Vec<(String, ClifSig)>, nslots: usize, stack: &Vec<usize>, next: usize, inst: &Inst) -> (ok: bool)
    ensures
        ok == inst_plan(decls_view(decls@), nslots as nat, PlanState { stack: nats(stack@), next: next as nat }, *inst) is Some,
{
    let l = stack.len();
    let nv: usize = match inst {
        Inst::PushInt(_) | Inst::PushBool(_) | Inst::Binop(_) | Inst::Unop(_) | Inst::Get { .. }
        | Inst::LocalAddr { .. } | Inst::Load { .. } | Inst::CapOffset => 1,
        Inst::Call(name) => match find_decl_exec(decls, name) {
            Some(d) => decls[d].1.results.len(),
            None => 0,
        },
        _ => 0,
    };
    if next > usize::MAX - nv {
        return false;
    }
    match inst {
        Inst::PushInt(_) | Inst::PushBool(_) => true,
        Inst::Binop(_) | Inst::Store { .. } | Inst::CapOffset | Inst::MemCopy { .. } => l >= 2,
        Inst::Unop(_) | Inst::Load { .. } | Inst::Drop | Inst::Dup => l >= 1,
        Inst::SetLocal { id, .. } => l >= 1 && *id < nslots,
        Inst::Get { id, .. } | Inst::LocalAddr { id, .. } => *id < nslots,
        Inst::Call(name) => match find_decl_exec(decls, name) {
            Some(d) => l >= decls[d].1.params.len(),
            None => false,
        },
    }
}

/// Whether the code of terminator `t` can be generated with stack `stack`.
fn term_plan_ok(nrets: usize, nblocks: usize, stack: &Vec<usize>, next: usize, t: Terminator) -> (ok: bool)
    ensures
        ok == term_plan(nrets as nat, nblocks as nat, PlanState { stack: nats(stack@), next: next as nat }, t) is Some,
{
    match t {
        Terminator::Jmp(b) => b < nblocks,
        Terminator::Br(th, el) => th < nblocks && el < nblocks && stack.len() >= 1,
        Terminator::Ret => stack.len() >= nrets,
    }
}

/// Generates the code of a function whose machine signature is `own`, given the
/// signatures `decls` of the functions it may call: the machine
/// instructions of each of its blocks, in order; none where the bytecode
/// pops an empty stack, names a local, block or function that does not
/// exist, or defines more values than a machine word counts.
pub fn define_fn(decls: &Vec<(String, ClifSig)>, own: &ClifSig, f: &Func) -> (r: Option<Vec<Vec<ClifOp>>>)
    ensures
        match r {
            Some(bs) => define_spec(decls_view(decls@), own.params@.len(), own.results@.len(), *f) == Some(
                bs@.map_values(|b: Vec<ClifOp>| ops_view(b@)),
            ),
            None => define_spec(decls_view(decls@), own.params@.len(), own.results@.len(), *f) is None,
        },
{
    let ghost dv = decls_view(decls@);
    let np = own.params.len();
    let nr = own.results.len();
    let nslots = f.variables.len();
    let nb = f.blocks.len();
    let mut stack: Vec<usize> = Vec::new();
    for i in 0..np
        invariant
            nats(stack@) == fresh(0, i as nat),
    {
        let ghost s0 = stack@;
        stack.push(i);
        proof {
            lemma_nats_push(s0, i);
            assert(nats(stack@) =~= fresh(0, (i + 1) as nat));
        }
    }
    let mut next = np;
    let ghost st0 = PlanState { stack: fresh(0, np as nat), next: np as nat };
    let mut out: Vec<Vec<ClifOp>> = Vec::new();
    proof {
        assert(out@.map_values(|b: Vec<ClifOp>| ops_view(b@)) =~= Seq::<Seq<ClifOpV>>::empty());
    }
    for k in 0..nb
        invariant
            nb == f.blocks@.len(),
            nslots == f.variables@.len(),
            dv == decls_view(decls@),
            st0 == (PlanState { stack: fresh(0, np as nat), next: np as nat }),
            np == own.params@.len(),
            nr == own.results@.len(),
            blocks_plan(dv, nslots as nat, nr as nat, st0, f.blocks@, k as int) == Some(
                (out@.map_values(|b: Vec<ClifOp>| ops_view(b@)), PlanState { stack: nats(stack@), next: next as nat }),
            ),
    {
        let blk = &f.blocks[k];
        let ghost sk = PlanState { stack: nats(stack@), next: next as nat };
        let ni = blk.insts.len();
        let mut ops: Vec<ClifOp> = Vec::new();
        proof {
            assert(ops_view(ops@) =~= Seq::<ClifOpV>::empty());
        }
        for i in 0..ni
            invariant
                ni == blk.insts@.len(),
                k < nb,
                nb == f.blocks@.len(),
                nslots == f.variables@.len(),
                dv == decls_view(decls@),
                st0 == (PlanState { stack: fresh(0, np as nat), next: np as nat }),
                np == own.params@.len(),
                nr == own.results@.len(),
                blk == f.blocks@[k as int],
                blocks_plan(dv, nslots as nat, nr as nat, st0, f.blocks@, k as int) == Some(
                    (out@.map_values(|b: Vec<ClifOp>| ops_view(b@)), sk),
                ),
                insts_plan(dv, nslots as nat, sk, blk.insts@, i as int) == Some(
                    (ops_view(ops@), PlanState { stack: nats(stack@), next: next as nat }),
                ),
        {
            if !inst_plan_ok(decls, nslots, &stack, next, &blk.insts[i]) {
                proof {
                    assert(insts_plan(dv, nslots as nat, sk, blk.insts@, i + 1) is None);
                    if insts_plan(dv, nslots as nat, sk, blk.insts@, ni as int) is Some {
                        lemma_insts_prefix(dv, nslots as nat, sk, blk.insts@, i + 1, ni as int);
                    }
                    assert(blocks_plan(dv, nslots as nat, nr as nat, st0, f.blocks@, k + 1) is None);
                    if blocks_plan(dv, nslots as nat, nr as nat, st0, f.blocks@, nb as int) is Some {
                        lemma_blocks_prefix(dv, nslots as nat, nr as nat, st0, f.blocks@, k + 1, nb as int);
                    }
                    assert(define_spec(dv, np as nat, nr as nat, *f) is None);
                }
                return None;
            }
            plan_inst(decls, nslots, &mut stack, &mut next, &blk.insts[i], &mut ops);
        }
        if !term_plan_ok(nr, nb, &stack, next, blk.terminator) {
            proof {
                assert(blocks_plan(dv, nslots as nat, nr as nat, st0, f.blocks@, k + 1) is None);
                if blocks_plan(dv, nslots as nat, nr as nat, st0, f.blocks@, nb as int) is Some {
                    lemma_blocks_prefix(dv, nslots as nat, nr as nat, st0, f.blocks@, k + 1, nb as int);
                }
                assert(define_spec(dv, np as nat, nr as nat, *f) is None);
            }
            return None;
        }
        plan_term(nr, nb, &mut stack, next, blk.terminator, &mut ops);
        let ghost ov = out@;
        out.push(ops);
        proof {
            assert(out@.map_values(|b: Vec<ClifOp>| ops_view(b@)) =~= ov.map_values(|b: Vec<ClifOp>| ops_view(b@)).push(ops_view(out@.last()@)));
        }
    }
    Some(out)
}

/// The machine signatures of a program's functions, then of the external
/// functions it calls, by name.
pub open spec fn decls_spec(prog: Prog) -> Seq<(Seq<char>, Seq<ClifParam>, Seq<ClifTy>)> {
    prog.funcs@.map_values(|f: (String, Func)| (f.0@, sig_spec(f.1.sig).0, sig_spec(f.1.sig).1)) + prog.externs@.map_values(
        |f: (String, FuncSig)| (f.0@, sig_spec(f.1).0, sig_spec(f.1).1),
    )
}

/// Declares the program's functions, then its external functions: the
/// name and machine signature of each.
pub fn declarations(prog: &Prog) -> (r: Vec<(String, ClifSig)>)
    ensures
        decls_view(r@) == decls_spec(*prog),
{
    let mut r: Vec<(String, ClifSig)> = Vec::new();
    let nf = prog.funcs.len();
    for i in 0..nf
        invariant
            nf == prog.funcs@.len(),
            decls_view(r@) == prog.funcs@.take(i as int).map_values(|f: (String, Func)| (f.0@, sig_spec(f.1.sig).0, sig_spec(f.1.sig).1)),
    {
        let s = fn_signature(&prog.funcs[i].1.sig);
        let ghost prev = r@;
        let name = prog.funcs[i].0.clone();
        let ghost item = (name@, s.params@, s.results@);
        r.push((name, s));
        assert(decls_view(r@) =~= decls_view(prev).push(item));
        assert(prog.funcs@.take(i + 1) =~= prog.funcs@.take(i as int).push(prog.funcs@[i as int]));
        assert(decls_view(r@) =~= prog.funcs@.take(i + 1).map_values(|f: (String, Func)| (f.0@, sig_spec(f.1.sig).0, sig_spec(f.1.sig).1)));
    }
    assert(prog.funcs@.take(nf as int) =~= prog.funcs@);
    let ghost fv = decls_view(r@);
    let ne = prog.externs.len();
    for i in 0..ne
        invariant
            ne == prog.externs@.len(),
            decls_view(r@) == fv + prog.externs@.take(i as int).map_values(|f: (String, FuncSig)| (f.0@, sig_spec(f.1).0, sig_spec(f.1).1)),
    {
        let s = fn_signature(&prog.externs[i].1);
        let ghost prev = r@;
        let name = prog.externs[i].0.clone();
        let ghost item = (name@, s.params@, s.results@);
        r.push((name, s));
        assert(decls_view(r@) =~= decls_view(prev).push(item));
        assert(prog.externs@.take(i + 1) =~= prog.externs@.take(i as int).push(prog.externs@[i as int]));
        assert(decls_view(r@) =~= fv + prog.externs@.take(i + 1).map_values(|f: (String, FuncSig)| (f.0@, sig_spec(f.1).0, sig_spec(f.1).1)));
    }
    assert(prog.externs@.take(ne as int) =~= prog.externs@);
    r
}
} // verus!
