//! An interpreter for the stack bytecode.
//!
//! The interpreter is a state machine: `step` executes one instruction or
//! terminator of the innermost function call and reports what happened.
//! Reading input and printing output are left to the caller, who sees them
//! as events and resumes the machine afterwards.
use vstd::prelude::*;

use crate::bytecode::{self, Func, Inst, Terminator, type_size};
use crate::common::{Binop, Unop};

verus! {

/// A value on the operand stack.
#[derive(Debug, Clone, Copy, PartialEq, Eq, Structural)]
pub enum Value {
    Int64(i64),
    Int128(i128),
    Bool(bool),
    Ref(usize),
}

/// 256 to the power `n`.
pub open spec fn pow256(n: nat) -> nat
    decreases n,
{
    if n == 0 {
        1
    } else {
        256 * pow256((n - 1) as nat)
    }
}

/// The `k` low bytes of `x`, least significant first.
pub open spec fn le_bytes(x: nat, k: nat) -> Seq<u8>
    decreases k,
{
    if k == 0 {
        Seq::empty()
    } else {
        seq![(x % 256) as u8] + le_bytes(x / 256, (k - 1) as nat)
    }
}

/// The number whose bytes, least significant first, are `b`.
pub open spec fn le_value(b: Seq<u8>) -> nat
    decreases b.len(),
{
    if b.len() == 0 {
        0
    } else {
        b[0] as nat + 256 * le_value(b.drop_first())
    }
}

/// The two's complement bit pattern of a 64-bit integer, as a number.
pub open spec fn i64_bits(n: i64) -> nat {
    if n < 0 {
        (n + 0x1_0000_0000_0000_0000) as nat
    } else {
        n as nat
    }
}

/// The two's complement bit pattern of a 128-bit integer, as a number.
pub open spec fn i128_bits(n: i128) -> nat {
    if n < 0 {
        (n + 0x1_0000_0000_0000_0000_0000_0000_0000_0000) as nat
    } else {
        n as nat
    }
}

/// The 64-bit integer with two's complement bit pattern `v`.
pub open spec fn i64_of_bits(v: nat) -> i64 {
    if v >= 0x8000_0000_0000_0000 {
        (v - 0x1_0000_0000_0000_0000) as i64
    } else {
        v as i64
    }
}

/// The bytes in which a value is stored in memory, least significant first.
pub open spec fn value_bytes(v: Value) -> Seq<u8> {
    match v {
        Value::Int64(n) => le_bytes(i64_bits(n), 8),
        Value::Int128(n) => le_bytes(i128_bits(n), 16),
        Value::Bool(b) => seq![if b { 1u8 } else { 0u8 }],
        Value::Ref(p) => le_bytes(p as nat, 8),
    }
}

/// The types whose values the machine can read from memory.
pub open spec fn readable(tp: bytecode::Type) -> bool {
    tp == bytecode::Type::Int64 || tp == bytecode::Type::Bool || tp == bytecode::Type::Ptr
}

/// The value of type `tp` stored in the first bytes of `b`.
pub open spec fn value_of_bytes(b: Seq<u8>, tp: bytecode::Type) -> Value
    recommends
        readable(tp),
{
    match tp {
        bytecode::Type::Int64 => Value::Int64(i64_of_bits(le_value(b.take(8)))),
        bytecode::Type::Bool => Value::Bool(b[0] != 0),
        _ => Value::Ref(le_value(b.take(8)) as usize),
    }
}

/// The bytecode type of a value, where it has one.
pub open spec fn type_of_value(v: Value) -> Option<bytecode::Type> {
    match v {
        Value::Int64(_) => Some(bytecode::Type::Int64),
        Value::Int128(_) => None,
        Value::Bool(_) => Some(bytecode::Type::Bool),
        Value::Ref(_) => Some(bytecode::Type::Ptr),
    }
}

pub proof fn lemma_le_bytes_len(x: nat, k: nat)
    ensures
        le_bytes(x, k).len() == k,
    decreases k,
{
    if k > 0 {
        lemma_le_bytes_len(x / 256, (k - 1) as nat);
    }
}

pub proof fn lemma_pow256_pos(n: nat)
    ensures
        pow256(n) >= 1,
    decreases n,
{
    if n > 0 {
        lemma_pow256_pos((n - 1) as nat);
    }
}

/// Decoding the `k` low bytes of `x` gives `x` back when `x` fits in `k` bytes.
pub proof fn lemma_le_roundtrip(x: nat, k: nat)
    requires
        x < pow256(k),
    ensures
        le_value(le_bytes(x, k)) == x,
    decreases k,
{
    if k > 0 {
        let b = le_bytes(x, k);
        lemma_le_roundtrip(x / 256, (k - 1) as nat);
        assert(b.drop_first() =~= le_bytes(x / 256, (k - 1) as nat));
    }
}

/// A decoded number is smaller than 256 to the number of bytes.
pub proof fn lemma_le_value_bound(b: Seq<u8>)
    ensures
        le_value(b) < pow256(b.len()),
    decreases b.len(),
{
    if b.len() > 0 {
        lemma_le_value_bound(b.drop_first());
    }
}

pub proof fn lemma_pow256_8()
    ensures
        pow256(8) == 0x1_0000_0000_0000_0000,
        pow256(16) == 0x1_0000_0000_0000_0000_0000_0000_0000_0000,
{
    reveal_with_fuel(pow256, 17);
}

/// What a value stores in memory reads back as the same value, for every
/// value with a bytecode type.
pub proof fn lemma_value_bytes_roundtrip(v: Value, tp: bytecode::Type)
    requires
        type_of_value(v) == Some(tp),
    ensures
        value_bytes(v).len() == type_size(tp),
        value_of_bytes(value_bytes(v), tp) == v,
{
    lemma_pow256_8();
    match v {
        Value::Int64(n) => {
            lemma_le_bytes_len(i64_bits(n), 8);
            assert(value_bytes(v).take(8) =~= value_bytes(v));
            lemma_le_roundtrip(i64_bits(n), 8);
        },
        Value::Bool(b) => {},
        Value::Ref(p) => {
            lemma_le_bytes_len(p as nat, 8);
            assert(value_bytes(v).take(8) =~= value_bytes(v));
            assert(p < 0x1_0000_0000_0000_0000);
            lemma_le_roundtrip(p as nat, 8);
        },
        Value::Int128(_) => {},
    }
}

/// The bytes of `x` below `256^k`, least significant first.
fn le_bytes_u128(x: u128, k: usize) -> (r: Vec<u8>)
    requires
        k <= 16,
    ensures
        r@ == le_bytes(x as nat, k as nat),
{
    let mut r: Vec<u8> = Vec::new();
    let mut cur = x;
    let mut i: usize = 0;
    while i < k
        invariant
            i <= k,
            r@ + le_bytes(cur as nat, (k - i) as nat) == le_bytes(x as nat, k as nat),
        decreases k - i,
    {
        let ghost before = r@;
        let ghost c = cur;
        r.push((cur % 256) as u8);
        cur = cur / 256;
        i = i + 1;
        assert(le_bytes(c as nat, (k - i + 1) as nat) =~= seq![(c % 256) as u8] + le_bytes(cur as nat, (k - i) as nat));
        assert(r@ + le_bytes(cur as nat, (k - i) as nat) =~= before + le_bytes(c as nat, (k - i + 1) as nat));
    }
    assert(le_bytes(cur as nat, 0) =~= Seq::<u8>::empty());
    assert(r@ =~= r@ + le_bytes(cur as nat, 0));
    r
}

/// The number whose 8 bytes, least significant first, start `b`.
fn le_value_8(b: &[u8]) -> (v: u64)
    requires
        b@.len() >= 8,
    ensures
        v == le_value(b@.take(8)),
{
    let mut v: u64 = 0;
    let mut i: usize = 8;
    proof {
        lemma_pow256_8();
    }
    while i > 0
        invariant
            i <= 8,
            b@.len() >= 8,
            v as nat == le_value(b@.subrange(i as int, 8)),
            pow256((8 - i) as nat) * 256 <= 0x1_0000_0000_0000_0000 || i == 0,
        decreases i,
    {
        let ghost old_v = v;
        let ghost old_i = i;
        proof {
            lemma_le_value_bound(b@.subrange(i as int, 8));
            reveal_with_fuel(pow256, 9);
        }
        i = i - 1;
        assert(v < pow256((8 - old_i) as nat));
        assert(v * 256 + 255 < 0x1_0000_0000_0000_0000) by (nonlinear_arith)
            requires
                v < pow256((8 - old_i) as nat),
                pow256((8 - old_i) as nat) * 256 <= 0x1_0000_0000_0000_0000;
        v = v * 256 + b[i] as u64;
        assert(b@.subrange(i as int, 8).drop_first() =~= b@.subrange(old_i as int, 8));
        proof {
            reveal_with_fuel(pow256, 9);
        }
    }
    assert(b@.subrange(0, 8) =~= b@.take(8));
    v
}

impl Value {
    /// The bytes in which this value is stored, least significant first.
    pub fn as_bytes(self) -> (r: Vec<u8>)
        ensures
            r@ == value_bytes(self),
    {
        match self {
            Value::Int64(n) => {
                let u: u128 = if n >= 0 {
                    n as u128
                } else {
                    ((n + i64::MAX + 1) as u128) + (i64::MAX as u128) + 1
                };
                le_bytes_u128(u, 8)
            },
            Value::Int128(n) => {
                let u: u128 = if n >= 0 {
                    n as u128
                } else {
                    ((n + i128::MAX + 1) as u128) + (i128::MAX as u128) + 1
                };
                le_bytes_u128(u, 16)
            },
            Value::Bool(b) => {
                let r = vec![if b { 1u8 } else { 0u8 }];
                assert(r@ =~= seq![if b { 1u8 } else { 0u8 }]);
                r
            },
            Value::Ref(p) => le_bytes_u128(p as u128, 8),
        }
    }

    /// The value of type `tp` stored in the first bytes of `bytes`.
    pub fn from_bytes(bytes: &[u8], tp: &bytecode::Type) -> (v: Self)
        requires
            readable(*tp),
            bytes@.len() >= type_size(*tp),
        ensures
            v == value_of_bytes(bytes@, *tp),
    {
        match tp {
            bytecode::Type::Int64 => {
                let u = le_value_8(bytes);
                if u >= 0x8000_0000_0000_0000 {
                    Value::Int64(((u - 0x8000_0000_0000_0000) as i64) - i64::MAX - 1)
                } else {
                    Value::Int64(u as i64)
                }
            },
            bytecode::Type::Bool => Value::Bool(bytes[0] != 0),
            _ => {
                let u = le_value_8(bytes);
                Value::Ref(u as usize)
            },
        }
    }
}

} // verus!

verus! {

/// Bytes of memory the machine has.
pub const MEMORY_SIZE: usize = 1048576;

/// The stack of local variables lies below this address; the heap above it.
pub const STACK_LIMIT: usize = 524288;

/// An active function call.
#[derive(Debug, Clone, Copy, PartialEq, Eq, Structural)]
pub struct Frame {
    /// Index of the function among the program's functions.
    pub func: usize,
    /// The block being executed.
    pub block: usize,
    /// The next instruction of that block.
    pub inst: usize,
    /// Address of the function's first local variable.
    pub bp: usize,
}

/// What a step of the machine did.
#[derive(Debug, Clone, Copy, PartialEq, Eq, Structural)]
pub enum Event {
    /// The machine executed an instruction and can go on.
    Continue,
    /// The outermost call has returned.
    Finished,
    /// The program asked for an integer, to be handed over with `provide_input`.
    NeedInput,
    /// The program printed a value.
    Output(Value),
    /// The program went wrong: an operand was missing or of the wrong kind,
    /// arithmetic overflowed or divided by zero, an address was outside
    /// memory, the stack overflowed, or an unknown function was called.
    Trap,
}

/// The state of the machine, apart from the program it runs.
pub struct VMState {
    pub vstack: Seq<Value>,
    pub memory: Seq<u8>,
    pub sp: usize,
    pub hp: usize,
    pub frames: Seq<Frame>,
}

/// A bytecode interpreter for a program's functions.
pub struct VM<'a> {
    funcs: &'a Vec<(String, Func)>,
    vstack: Vec<Value>,
    memory: Vec<u8>,
    sp: usize,
    hp: usize,
    frames: Vec<Frame>,
}

/// The sum of the first `n` variable sizes: the offset of local `n`.
pub open spec fn frame_offset(vars: Seq<u32>, n: int) -> nat
    decreases n,
{
    if n <= 0 {
        0
    } else {
        frame_offset(vars, n - 1) + vars[n - 1] as nat
    }
}

/// The bytes that the local variables of a function take.
pub open spec fn frame_size(f: Func) -> nat {
    frame_offset(f.variables@, f.variables@.len() as int)
}

/// The index of the first function named `name`.
pub open spec fn find_func(funcs: Seq<(String, Func)>, name: Seq<char>) -> Option<nat> {
    if exists|i: int|
        0 <= i < funcs.len() && (#[trigger] funcs[i]).0@ == name && forall|j: int|
            0 <= j < i ==> (#[trigger] funcs[j]).0@ != name {
        let i = choose|i: int|
            0 <= i < funcs.len() && (#[trigger] funcs[i]).0@ == name && forall|j: int|
                0 <= j < i ==> (#[trigger] funcs[j]).0@ != name;
        Some(i as nat)
    } else {
        None
    }
}

/// No two functions of a program share a name.
pub open spec fn names_distinct(funcs: Seq<(String, Func)>) -> bool {
    forall|i: int, j: int| 0 <= i < j < funcs.len() ==> (#[trigger] funcs[i]).0@ != (#[trigger] funcs[j]).0@
}

/// In a program where no two functions share a name, calling a function
/// by its name finds that very function.
pub proof fn lemma_find_func_unique(funcs: Seq<(String, Func)>, i: int)
    requires
        names_distinct(funcs),
        0 <= i < funcs.len(),
    ensures
        find_func(funcs, funcs[i].0@) == Some(i as nat),
{
    let name = funcs[i].0@;
    assert(forall|j: int| 0 <= j < i ==> (#[trigger] funcs[j]).0@ != name);
    let k = choose|k: int|
        0 <= k < funcs.len() && (#[trigger] funcs[k]).0@ == name && forall|j: int|
            0 <= j < k ==> (#[trigger] funcs[j]).0@ != name;
    if k != i {
        if k < i {
            assert(funcs[k].0@ != funcs[i].0@);
        } else {
            assert(funcs[i].0@ != funcs[k].0@);
        }
    }
}

/// The machine is well formed: memory has its full size and every frame
/// belongs to a function of the program and fits below the stack limit.
pub open spec fn state_wf(funcs: Seq<(String, Func)>, s: VMState) -> bool {
    &&& s.memory.len() == MEMORY_SIZE
    &&& s.sp < STACK_LIMIT
    &&& forall|i: int|
        0 <= i < s.frames.len() ==> {
            let fr = #[trigger] s.frames[i];
            &&& fr.func < funcs.len()
            &&& fr.bp + frame_size(funcs[fr.func as int].1) < STACK_LIMIT
        }
}

/// `mem` with `bytes` written from address `addr` on, if they fit.
pub open spec fn write_mem(mem: Seq<u8>, addr: int, bytes: Seq<u8>) -> Option<Seq<u8>> {
    if 0 <= addr && addr + bytes.len() <= mem.len() {
        Some(
            Seq::new(
                mem.len(),
                |j: int|
                    if addr <= j < addr + bytes.len() {
                        bytes[j - addr]
                    } else {
                        mem[j]
                    },
            ),
        )
    } else {
        None
    }
}

/// The value of type `tp` at address `addr`, if the machine can read that
/// type and the value lies inside memory.
pub open spec fn read_mem(mem: Seq<u8>, addr: int, tp: bytecode::Type) -> Option<Value> {
    if readable(tp) && 0 <= addr && addr + type_size(tp) <= mem.len() {
        Some(value_of_bytes(mem.subrange(addr, mem.len() as int), tp))
    } else {
        None
    }
}

/// The address of byte `offset` of local `id` of a frame, if the local
/// exists and the address fits a machine word.
pub open spec fn local_addr(funcs: Seq<(String, Func)>, fr: Frame, id: usize, offset: u32) -> Option<int> {
    let vars = funcs[fr.func as int].1.variables@;
    if id < vars.len() && fr.bp + frame_offset(vars, id as int) + offset <= usize::MAX {
        Some(fr.bp + frame_offset(vars, id as int) + offset)
    } else {
        None
    }
}

/// The result of a binary operator applied to `x` (pushed first) and `y`
/// (pushed last); `None` where the operation fails.
pub open spec fn binop_result(op: Binop, y: Value, x: Value) -> Option<Value> {
    match (op, y, x) {
        (Binop::Add, Value::Int64(y), Value::Int64(x)) => match x.checked_add(y) {
            Some(r) => Some(Value::Int64(r)),
            None => None,
        },
        (Binop::Sub, Value::Int64(y), Value::Int64(x)) => match x.checked_sub(y) {
            Some(r) => Some(Value::Int64(r)),
            None => None,
        },
        (Binop::Mul, Value::Int64(y), Value::Int64(x)) => match x.checked_mul(y) {
            Some(r) => Some(Value::Int64(r)),
            None => None,
        },
        (Binop::Div, Value::Int64(y), Value::Int64(x)) => match x.checked_div(y) {
            Some(r) => Some(Value::Int64(r)),
            None => None,
        },
        (Binop::Mod, Value::Int64(y), Value::Int64(x)) => match x.checked_rem(y) {
            Some(r) => Some(Value::Int64(r)),
            None => None,
        },
        (Binop::Eq, Value::Int64(y), Value::Int64(x)) => Some(Value::Bool(x == y)),
        (Binop::NEq, Value::Int64(y), Value::Int64(x)) => Some(Value::Bool(x != y)),
        (Binop::Lt, Value::Int64(y), Value::Int64(x)) => Some(Value::Bool(x < y)),
        (Binop::Gt, Value::Int64(y), Value::Int64(x)) => Some(Value::Bool(x > y)),
        (Binop::Le, Value::Int64(y), Value::Int64(x)) => Some(Value::Bool(x <= y)),
        (Binop::Ge, Value::Int64(y), Value::Int64(x)) => Some(Value::Bool(x >= y)),
        (Binop::And, Value::Bool(y), Value::Bool(x)) => Some(Value::Bool(x && y)),
        (Binop::Or, Value::Bool(y), Value::Bool(x)) => Some(Value::Bool(x || y)),
        _ => None,
    }
}

/// The result of a unary operator; `None` where the operation fails.
pub open spec fn unop_result(op: Unop, x: Value) -> Option<Value> {
    match (op, x) {
        (Unop::Neg, Value::Int64(x)) => match 0i64.checked_sub(x) {
            Some(r) => Some(Value::Int64(r)),
            None => None,
        },
        (Unop::Not, Value::Bool(x)) => Some(Value::Bool(!x)),
        _ => None,
    }
}

/// The state with the operand stack replaced.
pub open spec fn with_stack(s: VMState, vs: Seq<Value>) -> VMState {
    VMState { vstack: vs, ..s }
}

/// The state with the innermost frame replaced.
pub open spec fn with_top(s: VMState, fr: Frame) -> VMState {
    VMState { frames: s.frames.update(s.frames.len() - 1, fr), ..s }
}

/// A failed step.
pub open spec fn trap(s: VMState) -> (VMState, Event) {
    (s, Event::Trap)
}

/// Entering function `idx`: its locals are placed at the stack pointer and a
/// frame at its entry block is pushed.
pub open spec fn enter_spec(funcs: Seq<(String, Func)>, s: VMState, idx: nat) -> (VMState, Event) {
    let size = frame_size(funcs[idx as int].1);
    if s.sp + size >= STACK_LIMIT {
        trap(s)
    } else {
        (
            VMState {
                sp: (s.sp + size) as usize,
                frames: s.frames.push(Frame { func: idx as usize, block: 0, inst: 0, bp: s.sp }),
                ..s
            },
            Event::Continue,
        )
    }
}

/// Calling a built-in function: reading an integer, printing a value, or
/// allocating heap memory (which pushes the address in the low 64 bits of
/// a 128-bit integer and the length in the high 64 bits).
pub open spec fn intrinsic_spec(s: VMState, name: Seq<char>) -> (VMState, Event) {
    if name == "must_read"@ {
        (s, Event::NeedInput)
    } else if name == "must_print"@ {
        if s.vstack.len() == 0 {
            trap(s)
        } else {
            (with_stack(s, s.vstack.drop_last()), Event::Output(s.vstack.last()))
        }
    } else if name == "must_alloc"@ {
        if s.vstack.len() == 0 {
            trap(s)
        } else {
            match s.vstack.last() {
                Value::Int64(n) => {
                    let len = #[verifier::truncate] (n as usize);
                    if s.hp + len > usize::MAX {
                        trap(s)
                    } else {
                        let r = Value::Int128((n * 0x1_0000_0000_0000_0000 + s.hp) as i128);
                        (
                            VMState {
                                vstack: s.vstack.drop_last().push(r),
                                hp: (s.hp + len) as usize,
                                ..s
                            },
                            Event::Continue,
                        )
                    }
                },
                _ => trap(s),
            }
        }
    } else {
        trap(s)
    }
}

/// Calling a function by name: one of the program's, else a built-in one.
pub open spec fn call_spec(funcs: Seq<(String, Func)>, s: VMState, name: Seq<char>) -> (VMState, Event) {
    match find_func(funcs, name) {
        Some(i) => enter_spec(funcs, s, i),
        None => intrinsic_spec(s, name),
    }
}

/// Executing an instruction of the innermost frame, whose instruction
/// pointer has already moved past it.
pub open spec fn inst_spec(funcs: Seq<(String, Func)>, s: VMState, inst: Inst) -> (VMState, Event) {
    let vs = s.vstack;
    let fr = s.frames.last();
    match inst {
        Inst::PushInt(n) => (with_stack(s, vs.push(Value::Int64(n))), Event::Continue),
        Inst::PushBool(b) => (with_stack(s, vs.push(Value::Bool(b))), Event::Continue),
        Inst::Binop(op) => if vs.len() < 2 {
            trap(s)
        } else {
            match binop_result(op, vs.last(), vs.drop_last().last()) {
                Some(r) => (with_stack(s, vs.drop_last().drop_last().push(r)), Event::Continue),
                None => trap(s),
            }
        },
        Inst::Unop(op) => if vs.len() < 1 {
            trap(s)
        } else {
            match unop_result(op, vs.last()) {
                Some(r) => (with_stack(s, vs.drop_last().push(r)), Event::Continue),
                None => trap(s),
            }
        },
        Inst::SetLocal { id, offset } => match local_addr(funcs, fr, id, offset) {
            None => trap(s),
            Some(a) => if vs.len() == 0 {
                trap(s)
            } else {
                match write_mem(s.memory, a, value_bytes(vs.last())) {
                    Some(m) => (VMState { vstack: vs.drop_last(), memory: m, ..s }, Event::Continue),
                    None => trap(s),
                }
            },
        },
        Inst::Get { id, offset, tp } => match local_addr(funcs, fr, id, offset) {
            None => trap(s),
            Some(a) => match read_mem(s.memory, a, tp) {
                Some(v) => (with_stack(s, vs.push(v)), Event::Continue),
                None => trap(s),
            },
        },
        Inst::LocalAddr { id, offset } => match local_addr(funcs, fr, id, offset) {
            None => trap(s),
            Some(a) => (with_stack(s, vs.push(Value::Ref(a as usize))), Event::Continue),
        },
        Inst::Load { offset, tp } => if vs.len() == 0 {
            trap(s)
        } else {
            match vs.last() {
                Value::Ref(p) => match read_mem(s.memory, p + offset, tp) {
                    Some(v) => (with_stack(s, vs.drop_last().push(v)), Event::Continue),
                    None => trap(s),
                },
                _ => (with_stack(s, vs.drop_last()), Event::Continue),
            }
        },
        Inst::Store { offset } => if vs.len() == 0 {
            trap(s)
        } else {
            match vs.last() {
                Value::Ref(p) => {
                    let rest = vs.drop_last();
                    if rest.len() == 0 {
                        trap(s)
                    } else {
                        match write_mem(s.memory, p + offset, value_bytes(rest.last())) {
                            Some(m) => (
                                VMState { vstack: rest.drop_last(), memory: m, ..s },
                                Event::Continue,
                            ),
                            None => trap(s),
                        }
                    }
                },
                _ => (with_stack(s, vs.drop_last()), Event::Continue),
            }
        },
        Inst::MemCopy { size } => if vs.len() < 2 {
            trap(s)
        } else {
            match (vs.last(), vs.drop_last().last()) {
                (Value::Ref(src), Value::Ref(dst)) => if src + size > s.memory.len() {
                    trap(s)
                } else {
                    match write_mem(s.memory, dst as int, s.memory.subrange(src as int, src + size)) {
                        Some(m) => (
                            VMState { vstack: vs.drop_last().drop_last(), memory: m, ..s },
                            Event::Continue,
                        ),
                        None => trap(s),
                    }
                },
                _ => trap(s),
            }
        },
        Inst::CapOffset => if vs.len() < 2 {
            trap(s)
        } else {
            match (vs.last(), vs.drop_last().last()) {
                (Value::Int64(off), Value::Ref(p)) => if p + (off as usize) > usize::MAX {
                    trap(s)
                } else {
                    (
                        with_stack(s, vs.drop_last().drop_last().push(Value::Ref((p + (off as usize)) as usize))),
                        Event::Continue,
                    )
                },
                _ => trap(s),
            }
        },
        Inst::Drop => if vs.len() == 0 {
            trap(s)
        } else {
            (with_stack(s, vs.drop_last()), Event::Continue)
        },
        Inst::Dup => if vs.len() == 0 {
            trap(s)
        } else {
            (with_stack(s, vs.push(vs.last())), Event::Continue)
        },
        Inst::Call(name) => call_spec(funcs, s, name@),
    }
}

/// Executing the terminator of the innermost frame's block.
pub open spec fn term_spec(s: VMState, t: Terminator) -> (VMState, Event) {
    let fr = s.frames.last();
    match t {
        Terminator::Jmp(b) => (with_top(s, Frame { block: b, inst: 0, ..fr }), Event::Continue),
        Terminator::Br(th, el) => if s.vstack.len() == 0 {
            trap(s)
        } else {
            let s2 = with_stack(s, s.vstack.drop_last());
            match s.vstack.last() {
                Value::Bool(c) => (
                    with_top(s2, Frame { block: if c { th } else { el }, inst: 0, ..fr }),
                    Event::Continue,
                ),
                _ => (with_top(s2, Frame { inst: 0, ..fr }), Event::Continue),
            }
        },
        Terminator::Ret => {
            let s2 = VMState { sp: fr.bp, frames: s.frames.drop_last(), ..s };
            (s2, if s2.frames.len() == 0 { Event::Finished } else { Event::Continue })
        },
    }
}

/// One step of the machine: the next instruction of the innermost call, or
/// its block's terminator once the instructions are done.
pub open spec fn step_spec(funcs: Seq<(String, Func)>, s: VMState) -> (VMState, Event) {
    if s.frames.len() == 0 {
        (s, Event::Finished)
    } else {
        let fr = s.frames.last();
        let f = funcs[fr.func as int].1;
        if fr.block >= f.blocks@.len() {
            trap(s)
        } else {
            let blk = f.blocks@[fr.block as int];
            if fr.inst < blk.insts@.len() {
                inst_spec(funcs, with_top(s, Frame { inst: (fr.inst + 1) as usize, ..fr }), blk.insts@[fr.inst as int])
            } else {
                term_spec(s, blk.terminator)
            }
        }
    }
}

/// Up to `fuel` steps, stopping at the first event other than `Continue`.
pub open spec fn run_spec(funcs: Seq<(String, Func)>, s: VMState, fuel: nat) -> (VMState, Event)
    decreases fuel,
{
    if fuel == 0 {
        (s, Event::Continue)
    } else {
        let (s2, e) = step_spec(funcs, s);
        if e == Event::Continue {
            run_spec(funcs, s2, (fuel - 1) as nat)
        } else {
            (s2, e)
        }
    }
}

} // verus!

verus! {

/// Reading a value looks only at as many bytes as its type has.
proof fn lemma_value_of_bytes_prefix(b: Seq<u8>, c: Seq<u8>, tp: bytecode::Type)
    requires
        readable(tp),
        b.len() >= type_size(tp),
        c.len() >= type_size(tp),
        b.take(type_size(tp) as int) == c.take(type_size(tp) as int),
    ensures
        value_of_bytes(b, tp) == value_of_bytes(c, tp),
{
    match tp {
        bytecode::Type::Bool => {
            assert(b[0] == b.take(1)[0]);
            assert(c[0] == c.take(1)[0]);
        },
        _ => {},
    }
}

/// `from_bytes` inverts `as_bytes`: the bytes a value is stored as, with
/// any bytes after them, read back as the value; and a boolean is read as
/// true from any byte other than zero.
pub proof fn lemma_bytes_roundtrip(v: Value, tp: bytecode::Type, rest: Seq<u8>, byte: u8)
    requires
        type_of_value(v) == Some(tp),
    ensures
        value_of_bytes(value_bytes(v) + rest, tp) == v,
        value_of_bytes(seq![byte] + rest, bytecode::Type::Bool) == Value::Bool(byte != 0),
{
    lemma_value_bytes_roundtrip(v, tp);
    let n = type_size(tp) as int;
    let b = value_bytes(v) + rest;
    assert(b.take(n) =~= value_bytes(v).take(n));
    lemma_value_of_bytes_prefix(b, value_bytes(v), tp);
    assert((seq![byte] + rest)[0] == byte);
}

/// A value written to memory reads back as itself.
pub proof fn lemma_write_then_read(mem: Seq<u8>, addr: int, v: Value, tp: bytecode::Type)
    requires
        type_of_value(v) == Some(tp),
        write_mem(mem, addr, value_bytes(v)) is Some,
    ensures
        read_mem(write_mem(mem, addr, value_bytes(v)).unwrap(), addr, tp) == Some(v),
{
    lemma_value_bytes_roundtrip(v, tp);
    let m2 = write_mem(mem, addr, value_bytes(v)).unwrap();
    let n = type_size(tp) as int;
    let b = m2.subrange(addr, m2.len() as int);
    assert(b.take(n) =~= value_bytes(v).take(n));
    assert(value_bytes(v).take(n) =~= value_bytes(v));
    lemma_value_of_bytes_prefix(b, value_bytes(v), tp);
}

/// Writing to memory leaves the values elsewhere as they were.
pub proof fn lemma_write_elsewhere(mem: Seq<u8>, addr: int, bytes: Seq<u8>, at: int, tp: bytecode::Type)
    requires
        write_mem(mem, addr, bytes) is Some,
        at + type_size(tp) <= addr || addr + bytes.len() <= at,
    ensures
        read_mem(write_mem(mem, addr, bytes).unwrap(), at, tp) == read_mem(mem, at, tp),
{
    let m2 = write_mem(mem, addr, bytes).unwrap();
    if readable(tp) && 0 <= at && at + type_size(tp) <= mem.len() {
        let n = type_size(tp) as int;
        let b = m2.subrange(at, m2.len() as int);
        let c = mem.subrange(at, mem.len() as int);
        assert(b.take(n) =~= c.take(n));
        lemma_value_of_bytes_prefix(b, c, tp);
    }
}

/// Running in two stretches is running once: when the first `a` steps end
/// with the machine still going, `b` more steps from where they stopped
/// give what `a + b` steps give from the start.
pub proof fn lemma_run_split(funcs: Seq<(String, Func)>, s: VMState, a: nat, b: nat)
    requires
        run_spec(funcs, s, a).1 == Event::Continue,
    ensures
        run_spec(funcs, run_spec(funcs, s, a).0, b) == run_spec(funcs, s, a + b),
    decreases a,
{
    if a > 0 {
        let (s2, e) = step_spec(funcs, s);
        assert(e == Event::Continue);
        lemma_run_split(funcs, s2, (a - 1) as nat, b);
        assert((a - 1) as nat + b == (a + b - 1) as nat);
    }
}

/// Integer arithmetic: adding, subtracting or multiplying two `i64`s gives
/// the exact result where it fits in `i64`, and fails where it does not;
/// dividing or taking a remainder by zero fails; the comparisons give
/// booleans.
pub proof fn lemma_int_arith(x: i64, y: i64)
    ensures
        binop_result(Binop::Add, Value::Int64(y), Value::Int64(x)) == (if i64::MIN <= x + y <= i64::MAX {
            Some(Value::Int64((x + y) as i64))
        } else {
            None
        }),
        binop_result(Binop::Sub, Value::Int64(y), Value::Int64(x)) == (if i64::MIN <= x - y <= i64::MAX {
            Some(Value::Int64((x - y) as i64))
        } else {
            None
        }),
        binop_result(Binop::Mul, Value::Int64(y), Value::Int64(x)) == (if i64::MIN <= x * y <= i64::MAX {
            Some(Value::Int64((x * y) as i64))
        } else {
            None
        }),
        binop_result(Binop::Div, Value::Int64(0), Value::Int64(x)) is None,
        binop_result(Binop::Mod, Value::Int64(0), Value::Int64(x)) is None,
        binop_result(Binop::Lt, Value::Int64(y), Value::Int64(x)) == Some(Value::Bool(x < y)),
        binop_result(Binop::Eq, Value::Int64(y), Value::Int64(x)) == Some(Value::Bool(x == y)),
{
}

/// The comparisons of two integers and the connectives of two booleans
/// give their mathematical truth values, the deeper operand on the left;
/// a comparison of booleans, or a connective of integers, has no result.
pub proof fn lemma_compare_logic(x: i64, y: i64, p: bool, q: bool)
    ensures
        binop_result(Binop::Eq, Value::Int64(y), Value::Int64(x)) == Some(Value::Bool(x == y)),
        binop_result(Binop::NEq, Value::Int64(y), Value::Int64(x)) == Some(Value::Bool(x != y)),
        binop_result(Binop::Lt, Value::Int64(y), Value::Int64(x)) == Some(Value::Bool(x < y)),
        binop_result(Binop::Gt, Value::Int64(y), Value::Int64(x)) == Some(Value::Bool(x > y)),
        binop_result(Binop::Le, Value::Int64(y), Value::Int64(x)) == Some(Value::Bool(x <= y)),
        binop_result(Binop::Ge, Value::Int64(y), Value::Int64(x)) == Some(Value::Bool(x >= y)),
        binop_result(Binop::And, Value::Bool(q), Value::Bool(p)) == Some(Value::Bool(p && q)),
        binop_result(Binop::Or, Value::Bool(q), Value::Bool(p)) == Some(Value::Bool(p || q)),
        binop_result(Binop::Lt, Value::Bool(q), Value::Bool(p)) is None,
        binop_result(Binop::And, Value::Int64(y), Value::Int64(x)) is None,
{
}

/// Negation of an integer gives its negative where that fits (every
/// integer but the least), and `!` of a boolean its opposite; negating a
/// boolean or taking `!` of an integer has no result.
pub proof fn lemma_unop_meaning(x: i64, p: bool)
    ensures
        unop_result(Unop::Neg, Value::Int64(x)) == (if x != i64::MIN {
            Some(Value::Int64((-x) as i64))
        } else {
            None
        }),
        unop_result(Unop::Not, Value::Bool(p)) == Some(Value::Bool(!p)),
        unop_result(Unop::Neg, Value::Bool(p)) is None,
        unop_result(Unop::Not, Value::Int64(x)) is None,
{
}

/// Division and remainder of integers round toward zero: for a divisor
/// other than zero, and other than the one overflowing case `MIN / -1`,
/// the quotient `q` and remainder `r` satisfy `x == q * y + r`, with `r`
/// smaller than `y` in size and of the sign of `x`.
pub proof fn lemma_div_mod(x: i64, y: i64)
    requires
        y != 0,
        !(x == i64::MIN && y == -1),
    ensures
        binop_result(Binop::Div, Value::Int64(y), Value::Int64(x)) matches Some(Value::Int64(qv))
            && binop_result(Binop::Mod, Value::Int64(y), Value::Int64(x)) matches Some(Value::Int64(rv)) && {
            let q = qv as int;
            let r = rv as int;
            &&& x == q * y + r
            &&& (if y > 0 { -y < r < y } else { y < r < -y })
            &&& (r == 0 || (r > 0) == (x > 0))
        },
{
    let xi = x as int;
    let d = y as int;
    let (q, r): (int, int) = if xi == 0 {
        (0, 0)
    } else if xi > 0 && d > 0 {
        (xi / d, xi % d)
    } else if xi < 0 && d < 0 {
        ((xi * -1) / (d * -1), ((xi * -1) % (d * -1)) * -1)
    } else if xi < 0 {
        (((xi * -1) / d) * -1, ((xi * -1) % d) * -1)
    } else {
        ((xi / (d * -1)) * -1, xi % (d * -1))
    };
    let a = if xi < 0 { xi * -1 } else { xi };
    let b = if d < 0 { d * -1 } else { d };
    assert(a > 0 || xi == 0);
    if xi != 0 {
        vstd::arithmetic::div_mod::lemma_fundamental_div_mod(a, b);
        vstd::arithmetic::div_mod::lemma_mod_pos_bound(a, b);
        assert(0 <= a / b && b * (a / b) <= a) by (nonlinear_arith)
            requires
                a > 0,
                b > 0,
                a == b * (a / b) + (a % b),
                0 <= a % b < b,
        ;
        assert(a <= 0x8000_0000_0000_0000);
        assert((xi < 0) == (d < 0) ==> !(a == 0x8000_0000_0000_0000 && b == 1));
        assert(a / b <= 0x8000_0000_0000_0000) by (nonlinear_arith)
            requires
                a <= 0x8000_0000_0000_0000,
                b >= 1,
                b * (a / b) <= a,
        ;
        if (xi < 0) == (d < 0) {
        assert(a / b <= 0x7FFF_FFFF_FFFF_FFFF) by (nonlinear_arith)
            requires
                a <= 0x8000_0000_0000_0000,
                b >= 1,
                b * (a / b) <= a,
                0 <= a / b,
                !(a == 0x8000_0000_0000_0000 && b == 1),
        ;
        }
        assert(xi == q * d + r) by (nonlinear_arith)
            requires
                a == b * (a / b) + (a % b),
                a == (if xi < 0 { xi * -1 } else { xi }),
                b == (if d < 0 { d * -1 } else { d }),
                q == (if (xi < 0) == (d < 0) { a / b } else { (a / b) * -1 }),
                r == (if xi < 0 { (a % b) * -1 } else { a % b }),
        ;
    }
    assert(i64::MIN <= q <= i64::MAX);
    assert(x.checked_div(y) == Some(q as i64));
    assert(x.checked_rem(y) == Some(r as i64));
}

/// A local written by `SetLocal` reads back with `Get` at the same place:
/// the value on top of the stack is stored, and reading it with its own
/// type pushes the same value.
pub proof fn lemma_local_write_then_read(
    funcs: Seq<(String, Func)>,
    s: VMState,
    id: usize,
    offset: u32,
    tp: bytecode::Type,
)
    requires
        s.frames.len() > 0,
        s.vstack.len() > 0,
        type_of_value(s.vstack.last()) == Some(tp),
        inst_spec(funcs, s, Inst::SetLocal { id, offset }).1 == Event::Continue,
    ensures
        ({
            let s1 = inst_spec(funcs, s, Inst::SetLocal { id, offset }).0;
            inst_spec(funcs, s1, Inst::Get { id, offset, tp }) == (
                with_stack(s1, s1.vstack.push(s.vstack.last())),
                Event::Continue,
            )
        }),
{
    let a = local_addr(funcs, s.frames.last(), id, offset).unwrap();
    lemma_write_then_read(s.memory, a, s.vstack.last(), tp);
}

/// A call's frame is released on return: entering a function places its
/// frame at the stack pointer; whatever the call does in between, returning
/// from that frame, with the caller's frames below it, gives back the stack
/// pointer and the frames that were there before the call.
pub proof fn lemma_frame_release(funcs: Seq<(String, Func)>, s: VMState, idx: nat, t: VMState)
    requires
        enter_spec(funcs, s, idx).1 == Event::Continue,
        t.frames.len() > 0,
        t.frames.last().bp == enter_spec(funcs, s, idx).0.frames.last().bp,
        t.frames.drop_last() == s.frames,
    ensures
        enter_spec(funcs, s, idx).0.sp == s.sp + frame_size(funcs[idx as int].1),
        term_spec(t, Terminator::Ret).0.sp == s.sp,
        term_spec(t, Terminator::Ret).0.frames == s.frames,
{
}

/// The state of a new machine: nothing on the stacks, memory all zero.
pub open spec fn fresh_state() -> VMState {
    VMState {
        vstack: Seq::empty(),
        memory: Seq::new(MEMORY_SIZE as nat, |i: int| 0u8),
        sp: 0,
        hp: STACK_LIMIT,
        frames: Seq::empty(),
    }
}

/// The first function of the program is `name`, with the given locals and
/// one block of the given instructions that ends by returning.
pub open spec fn first_is(funcs: Seq<(String, Func)>, name: Seq<char>, vars: Seq<u32>, insts: Seq<Inst>) -> bool {
    &&& funcs.len() > 0
    &&& funcs[0].0@ == name
    &&& funcs[0].1.variables@ == vars
    &&& funcs[0].1.blocks@.len() == 1
    &&& funcs[0].1.blocks@[0].insts@ == insts
    &&& funcs[0].1.blocks@[0].terminator == Terminator::Ret
}

/// A binary operation run as a whole program: calling a function that
/// pushes `x`, then `y`, then applies `op`, finishes with the result of
/// `x op y` (the deeper operand on the left) as the only value, and with
/// the stack pointer back where it was; where the operation has no result
/// the run traps.
pub proof fn lemma_binop_run(funcs: Seq<(String, Func)>, x: Value, y: Value, op: Binop, fuel: nat)
    requires
        first_is(funcs, "main"@, Seq::empty(), seq![push_inst(x), push_inst(y), Inst::Binop(op)]),
        x is Int64 || x is Bool,
        y is Int64 || y is Bool,
        fuel >= 4,
    ensures
        ({
            let (s, e) = eval_spec(funcs, fresh_state(), "main"@, fuel);
            match binop_result(op, y, x) {
                Some(v) => e == Event::Finished && s.vstack == seq![v] && s.sp == 0 && s.frames.len() == 0,
                None => e == Event::Trap,
            }
        }),
{
    let s0 = fresh_state();
    assert(find_func(funcs, "main"@) == Some(0nat)) by {
        assert(funcs[0].0@ == "main"@);
    }
    let f = funcs[0].1;
    assert(frame_size(f) == 0);
    let s1 = enter_spec(funcs, s0, 0).0;
    assert(call_spec(funcs, s0, "main"@) == (s1, Event::Continue));
    let (s2, e2) = step_spec(funcs, s1);
    assert(e2 == Event::Continue && s2.vstack == seq![x]);
    let (s3, e3) = step_spec(funcs, s2);
    assert(e3 == Event::Continue && s3.vstack == seq![x, y]);
    let (s4, e4) = step_spec(funcs, s3);
    assert(s3.vstack.last() == y && s3.vstack.drop_last().last() == x);
    match binop_result(op, y, x) {
        Some(v) => {
            assert(s3.vstack.drop_last().drop_last() =~= Seq::<Value>::empty());
            assert(e4 == Event::Continue && s4.vstack == seq![v]);
            let (s5, e5) = step_spec(funcs, s4);
            assert(e5 == Event::Finished && s5.vstack == seq![v] && s5.sp == 0);
            lemma_run_prefix_stop(funcs, s4, (fuel - 3) as nat);
            assert(run_spec(funcs, s1, fuel) == run_spec(funcs, s4, (fuel - 3) as nat)) by {
                reveal_with_fuel(run_spec, 4);
            }
        },
        None => {
            assert(e4 == Event::Trap);
            assert(run_spec(funcs, s1, fuel).1 == Event::Trap) by {
                reveal_with_fuel(run_spec, 4);
            }
        },
    }
}

/// A local written and read back within a whole run: calling a function
/// with one 8-byte local that pushes `n`, stores it in the local and reads
/// the local as an `i64` finishes with `n` as the only value, and with the
/// stack pointer back where it was.
pub proof fn lemma_local_run(funcs: Seq<(String, Func)>, n: i64, fuel: nat)
    requires
        first_is(
            funcs,
            "main"@,
            seq![8u32],
            seq![
                Inst::PushInt(n),
                Inst::SetLocal { id: 0, offset: 0 },
                Inst::Get { id: 0, offset: 0, tp: bytecode::Type::Int64 },
            ],
        ),
        fuel >= 4,
    ensures
        ({
            let (s, e) = eval_spec(funcs, fresh_state(), "main"@, fuel);
            e == Event::Finished && s.vstack == seq![Value::Int64(n)] && s.sp == 0 && s.frames.len() == 0
        }),
{
    let s0 = fresh_state();
    assert(find_func(funcs, "main"@) == Some(0nat)) by {
        assert(funcs[0].0@ == "main"@);
    }
    let f = funcs[0].1;
    assert(frame_offset(f.variables@, 0) == 0);
    assert(frame_size(f) == 8) by {
        reveal_with_fuel(frame_offset, 2);
    }
    let s1 = enter_spec(funcs, s0, 0).0;
    assert(call_spec(funcs, s0, "main"@) == (s1, Event::Continue));
    let (s2, e2) = step_spec(funcs, s1);
    assert(e2 == Event::Continue && s2.vstack == seq![Value::Int64(n)]);
    let v = Value::Int64(n);
    lemma_value_bytes_roundtrip(v, bytecode::Type::Int64);
    assert(local_addr(funcs, s2.frames.last(), 0, 0) == Some(0int));
    assert(write_mem(s2.memory, 0, value_bytes(v)) is Some);
    let (s3, e3) = step_spec(funcs, s2);
    assert(e3 == Event::Continue && s3.vstack.len() == 0);
    assert(s3.memory == write_mem(s2.memory, 0, value_bytes(v)).unwrap());
    lemma_write_then_read(s2.memory, 0, v, bytecode::Type::Int64);
    let (s4, e4) = step_spec(funcs, s3);
    assert(e4 == Event::Continue && s4.vstack =~= seq![v]);
    let (s5, e5) = step_spec(funcs, s4);
    assert(e5 == Event::Finished && s5.sp == 0);
    lemma_run_prefix_stop(funcs, s4, (fuel - 3) as nat);
    assert(run_spec(funcs, s1, fuel) == run_spec(funcs, s4, (fuel - 3) as nat)) by {
        reveal_with_fuel(run_spec, 4);
    }
}

/// The instruction that the next step executes, if the next step executes
/// an instruction and not a terminator.
pub open spec fn current_inst(funcs: Seq<(String, Func)>, s: VMState) -> Option<Inst> {
    if s.frames.len() == 0 {
        None
    } else {
        let fr = s.frames.last();
        let f = funcs[fr.func as int].1;
        if fr.block < f.blocks@.len() && fr.inst < f.blocks@[fr.block as int].insts@.len() {
            Some(f.blocks@[fr.block as int].insts@[fr.inst as int])
        } else {
            None
        }
    }
}

/// Whether the next step calls the built-in allocator.
pub open spec fn allocates(funcs: Seq<(String, Func)>, s: VMState) -> bool {
    current_inst(funcs, s) matches Some(Inst::Call(n)) && n@ == "must_alloc"@
}

/// The heap moves only by allocation: a step that does not call
/// `must_alloc` leaves the heap pointer as it was.
pub proof fn lemma_heap_step(funcs: Seq<(String, Func)>, s: VMState)
    requires
        !allocates(funcs, s),
    ensures
        step_spec(funcs, s).0.hp == s.hp,
{
    if s.frames.len() > 0 {
        let fr = s.frames.last();
        let f = funcs[fr.func as int].1;
        if fr.block < f.blocks@.len() {
            let blk = f.blocks@[fr.block as int];
            if fr.inst < blk.insts@.len() {
                match blk.insts@[fr.inst as int] {
                    Inst::Call(n) => {
                        assert(n@ != "must_alloc"@);
                    },
                    _ => {},
                }
            }
        }
    }
}

/// No step of the next `fuel` steps of a run calls `must_alloc`.
pub open spec fn run_without_alloc(funcs: Seq<(String, Func)>, s: VMState, fuel: nat) -> bool
    decreases fuel,
{
    fuel == 0 || (!allocates(funcs, s) && (step_spec(funcs, s).1 == Event::Continue ==> run_without_alloc(
        funcs,
        step_spec(funcs, s).0,
        (fuel - 1) as nat,
    )))
}

/// A run that never calls `must_alloc` leaves the heap pointer as it was.
pub proof fn lemma_heap_run(funcs: Seq<(String, Func)>, s: VMState, fuel: nat)
    requires
        run_without_alloc(funcs, s, fuel),
    ensures
        run_spec(funcs, s, fuel).0.hp == s.hp,
    decreases fuel,
{
    if fuel > 0 {
        lemma_heap_step(funcs, s);
        if step_spec(funcs, s).1 == Event::Continue {
            lemma_heap_run(funcs, step_spec(funcs, s).0, (fuel - 1) as nat);
        }
    }
}

/// A run of a state whose next step ends the run gives that step.
proof fn lemma_run_prefix_stop(funcs: Seq<(String, Func)>, s: VMState, fuel: nat)
    requires
        fuel >= 1,
        step_spec(funcs, s).1 != Event::Continue,
    ensures
        run_spec(funcs, s, fuel) == step_spec(funcs, s),
{
}

/// The instruction that pushes an integer or a boolean.
pub open spec fn push_inst(v: Value) -> Inst {
    match v {
        Value::Bool(b) => Inst::PushBool(b),
        Value::Int64(n) => Inst::PushInt(n),
        _ => Inst::PushInt(0),
    }
}

/// Offsets grow with the number of variables before them.
pub proof fn lemma_frame_offset_monotone(vars: Seq<u32>, i: int, j: int)
    requires
        0 <= i <= j,
    ensures
        frame_offset(vars, i) <= frame_offset(vars, j),
    decreases j - i,
{
    if i < j {
        lemma_frame_offset_monotone(vars, i, j - 1);
    }
}

/// `name` has the same characters as `lit`.
fn is_named(name: &String, lit: &str) -> (b: bool)
    ensures
        b == (name@ == lit@),
{
    let l = lit.to_string();
    name.eq(&l)
}

impl<'a> View for VM<'a> {
    type V = VMState;

    closed spec fn view(&self) -> VMState {
        VMState {
            vstack: self.vstack@,
            memory: self.memory@,
            sp: self.sp,
            hp: self.hp,
            frames: self.frames@,
        }
    }
}

impl<'a> VM<'a> {
    /// The functions of the program the machine runs.
    pub closed spec fn program(&self) -> Seq<(String, Func)> {
        self.funcs@
    }

    /// The machine is well formed.
    pub open spec fn wf(&self) -> bool {
        state_wf(self.program(), self@)
    }

    /// A machine for the given functions, with zeroed memory, an empty
    /// operand stack, the stack pointer at 0 and the heap starting at the
    /// stack limit.
    pub fn new(funcs: &'a Vec<(String, Func)>) -> (vm: VM<'a>)
        ensures
            vm.wf(),
            vm.program() == funcs@,
            vm@ == (VMState {
                vstack: Seq::empty(),
                memory: Seq::new(MEMORY_SIZE as nat, |i: int| 0u8),
                sp: 0,
                hp: STACK_LIMIT,
                frames: Seq::empty(),
            }),
    {
        let mut memory: Vec<u8> = Vec::new();
        let mut i: usize = 0;
        while i < MEMORY_SIZE
            invariant
                i <= MEMORY_SIZE,
                memory@ == Seq::new(i as nat, |k: int| 0u8),
            decreases MEMORY_SIZE - i,
        {
            memory.push(0u8);
            i = i + 1;
            assert(memory@ =~= Seq::new(i as nat, |k: int| 0u8));
        }
        let vm = VM { funcs, vstack: Vec::new(), memory, sp: 0, hp: STACK_LIMIT, frames: Vec::new() };
        assert(vm@.vstack =~= Seq::<Value>::empty());
        assert(vm@.frames =~= Seq::<Frame>::empty());
        vm
    }

    /// Pops the top of the operand stack, if there is one.
    fn pop(&mut self) -> (v: Option<Value>)
        ensures
            final(self).program() == old(self).program(),
            old(self)@.vstack.len() == 0 ==> v is None && final(self)@ == old(self)@,
            old(self)@.vstack.len() > 0 ==> v == Some(old(self)@.vstack.last())
                && final(self)@ == with_stack(old(self)@, old(self)@.vstack.drop_last()),
    {
        let v = self.vstack.pop();
        proof {
            if old(self)@.vstack.len() > 0 {
                assert(self@ == with_stack(old(self)@, old(self)@.vstack.drop_last()));
            }
        }
        v
    }

    /// Pushes a value onto the operand stack.
    fn push(&mut self, v: Value)
        ensures
            final(self).program() == old(self).program(),
            final(self)@ == with_stack(old(self)@, old(self)@.vstack.push(v)),
    {
        self.vstack.push(v);
        assert(self@ == with_stack(old(self)@, old(self)@.vstack.push(v)));
    }

    /// The index of the first function named `name`.
    fn find(&self, name: &String) -> (r: Option<usize>)
        ensures
            r matches Some(i) ==> i < self.program().len() && find_func(self.program(), name@) == Some(i as nat),
            r is None ==> find_func(self.program(), name@) is None,
    {
        let funcs = self.funcs;
        let n = funcs.len();
        for i in 0..n
            invariant
                n == funcs@.len(),
                funcs@ == self.program(),
                forall|j: int| 0 <= j < i ==> (#[trigger] funcs@[j]).0@ != name@,
        {
            if funcs[i].0.eq(name) {
                proof {
                    let p = |k: int|
                        0 <= k < funcs@.len() && funcs@[k].0@ == name@ && forall|j: int|
                            0 <= j < k ==> (#[trigger] funcs@[j]).0@ != name@;
                    assert(p(i as int));
                    let c = choose|k: int|
                        0 <= k < funcs@.len() && (#[trigger] funcs@[k]).0@ == name@ && forall|j: int|
                            0 <= j < k ==> (#[trigger] funcs@[j]).0@ != name@;
                    assert(p(c));
                    if c < i {
                        assert(funcs@[c].0@ != name@);
                    }
                    if c > i {
                        assert(funcs@[i as int].0@ != name@);
                    }
                }
                return Some(i);
            }
        }
        None
    }

    /// The offset of local `id` of a function's locals.
    fn local_offset(vars: &Vec<u32>, id: usize) -> (r: usize)
        requires
            id < vars@.len(),
            frame_offset(vars@, vars@.len() as int) < STACK_LIMIT,
        ensures
            r == frame_offset(vars@, id as int),
    {
        let mut r: usize = 0;
        for k in 0..id
            invariant
                id < vars@.len(),
                frame_offset(vars@, vars@.len() as int) < STACK_LIMIT,
                r == frame_offset(vars@, k as int),
        {
            proof {
                lemma_frame_offset_monotone(vars@, k + 1, vars@.len() as int);
            }
            r = r + vars[k] as usize;
        }
        r
    }

    /// The address of byte `offset` of local `id` of frame `fr`.
    fn local_address(&self, fr: Frame, id: usize, offset: u32) -> (r: Option<usize>)
        requires
            fr.func < self.program().len(),
            fr.bp + frame_size(self.program()[fr.func as int].1) < STACK_LIMIT,
        ensures
            match local_addr(self.program(), fr, id, offset) {
                Some(a) => r == Some(a as usize),
                None => r is None,
            },
    {
        let vars = &self.funcs[fr.func].1.variables;
        if id >= vars.len() {
            return None;
        }
        let o = Self::local_offset(vars, id);
        proof {
            lemma_frame_offset_monotone(vars@, id as int, vars@.len() as int);
        }
        let base = fr.bp + o;
        if base > usize::MAX - offset as usize {
            None
        } else {
            Some(base + offset as usize)
        }
    }

    /// Writes `bytes` into memory from `addr` on, if they fit.
    fn write_bytes(&mut self, addr: usize, bytes: &Vec<u8>) -> (ok: bool)
        ensures
            final(self).program() == old(self).program(),
            match write_mem(old(self)@.memory, addr as int, bytes@) {
                Some(m) => ok && final(self)@ == (VMState { memory: m, ..old(self)@ }),
                None => !ok && final(self)@ == old(self)@,
            },
    {
        let n = bytes.len();
        if addr > self.memory.len() || n > self.memory.len() - addr {
            return false;
        }
        let ghost m0 = self.memory@;
        for k in 0..n
            invariant
                n == bytes@.len(),
                addr + n <= m0.len(),
                m0.len() == self.memory@.len(),
                m0.len() <= usize::MAX,
                self.funcs == old(self).funcs,
                self.vstack == old(self).vstack,
                self.sp == old(self).sp,
                self.hp == old(self).hp,
                self.frames == old(self).frames,
                m0 == old(self)@.memory,
                self.memory@ == Seq::new(
                    m0.len(),
                    |j: int|
                        if addr <= j < addr + k {
                            bytes@[j - addr]
                        } else {
                            m0[j]
                        },
                ),
        {
            self.memory.set(addr + k, bytes[k]);
            assert(self.memory@ =~= Seq::new(
                m0.len(),
                |j: int|
                    if addr <= j < addr + k + 1 {
                        bytes@[j - addr]
                    } else {
                        m0[j]
                    },
            ));
        }
        proof {
            let m = write_mem(m0, addr as int, bytes@).unwrap();
            assert(self.memory@ =~= m);
            assert(self@ == (VMState { memory: m, ..old(self)@ }));
        }
        true
    }

    /// The value of type `tp` at address `addr`, if it lies inside memory.
    fn read_value(&self, addr: usize, tp: bytecode::Type) -> (r: Option<Value>)
        ensures
            r == read_mem(self@.memory, addr as int, tp),
    {
        let size = tp.size() as usize;
        match tp {
            bytecode::Type::UInt8 | bytecode::Type::UInt64 => {
                return None;
            },
            _ => {},
        }
        if addr > self.memory.len() || size > self.memory.len() - addr {
            return None;
        }
        let bytes = &self.memory.as_slice()[addr..addr + size];
        let v = Value::from_bytes(bytes, &tp);
        proof {
            let whole = self@.memory.subrange(addr as int, self@.memory.len() as int);
            assert(bytes@ =~= whole.take(size as int));
            if tp != bytecode::Type::Bool {
                assert(size == 8);
                assert(bytes@.take(8) =~= whole.take(8));
            }
        }
        Some(v)
    }
}


/// The result of a binary operator applied to `x` (pushed first) and `y`
/// (pushed last).
fn binop_value(op: Binop, y: Value, x: Value) -> (r: Option<Value>)
    ensures
        r == binop_result(op, y, x),
{
    match (op, y, x) {
        (Binop::Add, Value::Int64(y), Value::Int64(x)) => match x.checked_add(y) {
            Some(r) => Some(Value::Int64(r)),
            None => None,
        },
        (Binop::Sub, Value::Int64(y), Value::Int64(x)) => match x.checked_sub(y) {
            Some(r) => Some(Value::Int64(r)),
            None => None,
        },
        (Binop::Mul, Value::Int64(y), Value::Int64(x)) => match x.checked_mul(y) {
            Some(r) => Some(Value::Int64(r)),
            None => None,
        },
        (Binop::Div, Value::Int64(y), Value::Int64(x)) => match x.checked_div(y) {
            Some(r) => Some(Value::Int64(r)),
            None => None,
        },
        (Binop::Mod, Value::Int64(y), Value::Int64(x)) => match x.checked_rem(y) {
            Some(r) => Some(Value::Int64(r)),
            None => None,
        },
        (Binop::Eq, Value::Int64(y), Value::Int64(x)) => Some(Value::Bool(x == y)),
        (Binop::NEq, Value::Int64(y), Value::Int64(x)) => Some(Value::Bool(x != y)),
        (Binop::Lt, Value::Int64(y), Value::Int64(x)) => Some(Value::Bool(x < y)),
        (Binop::Gt, Value::Int64(y), Value::Int64(x)) => Some(Value::Bool(x > y)),
        (Binop::Le, Value::Int64(y), Value::Int64(x)) => Some(Value::Bool(x <= y)),
        (Binop::Ge, Value::Int64(y), Value::Int64(x)) => Some(Value::Bool(x >= y)),
        (Binop::And, Value::Bool(y), Value::Bool(x)) => Some(Value::Bool(x && y)),
        (Binop::Or, Value::Bool(y), Value::Bool(x)) => Some(Value::Bool(x || y)),
        _ => None,
    }
}

/// The result of a unary operator.
fn unop_value(op: Unop, x: Value) -> (r: Option<Value>)
    ensures
        r == unop_result(op, x),
{
    match (op, x) {
        (Unop::Neg, Value::Int64(x)) => match 0i64.checked_sub(x) {
            Some(r) => Some(Value::Int64(r)),
            None => None,
        },
        (Unop::Not, Value::Bool(x)) => Some(Value::Bool(!x)),
        _ => None,
    }
}

impl<'a> VM<'a> {
    /// Replaces the innermost frame.
    fn set_top(&mut self, fr: Frame)
        requires
            old(self).wf(),
            old(self)@.frames.len() > 0,
            fr.func == old(self)@.frames.last().func,
            fr.bp == old(self)@.frames.last().bp,
        ensures
            final(self).program() == old(self).program(),
            final(self).wf(),
            final(self)@ == with_top(old(self)@, fr),
    {
        let top = self.frames.len() - 1;
        self.frames.set(top, fr);
        assert(self@.frames =~= with_top(old(self)@, fr).frames);
        assert(self@ == with_top(old(self)@, fr));
        assert forall|i: int| 0 <= i < self@.frames.len() implies {
            let f = #[trigger] self@.frames[i];
            &&& f.func < self.program().len()
            &&& f.bp + frame_size(self.program()[f.func as int].1) < STACK_LIMIT
        } by {
            assert(i == top || self@.frames[i] == old(self)@.frames[i]);
        }
    }

    /// Enters function `idx`.
    fn enter(&mut self, idx: usize) -> (e: Event)
        requires
            old(self).wf(),
            idx < old(self).program().len(),
        ensures
            final(self).program() == old(self).program(),
            final(self).wf(),
            e == enter_spec(old(self).program(), old(self)@, idx as nat).1,
            e != Event::Trap ==> final(self)@ == enter_spec(old(self).program(), old(self)@, idx as nat).0,
    {
        let funcs = self.funcs;
        let vars = &funcs[idx].1.variables;
        let n = vars.len();
        let mut total: u64 = 0;
        for k in 0..n
            invariant
                n == vars@.len(),
                idx < self.program().len(),
                vars@ == self.program()[idx as int].1.variables@,
                self.wf(),
                self.program() == old(self).program(),
                self@ == old(self)@,
                total == frame_offset(vars@, k as int),
                self.sp + total < STACK_LIMIT,
        {
            let t = total + vars[k] as u64;
            if self.sp as u64 + t >= STACK_LIMIT as u64 {
                proof {
                    lemma_frame_offset_monotone(vars@, k + 1, n as int);
                }
                return Event::Trap;
            }
            total = t;
        }
        let bp = self.sp;
        self.sp = bp + total as usize;
        self.frames.push(Frame { func: idx, block: 0, inst: 0, bp });
        proof {
            let r = enter_spec(old(self).program(), old(self)@, idx as nat).0;
            assert(self@.frames =~= r.frames);
            assert(self@ == r);
            assert forall|i: int| 0 <= i < self@.frames.len() implies {
                let f = #[trigger] self@.frames[i];
                &&& f.func < self.program().len()
                &&& f.bp + frame_size(self.program()[f.func as int].1) < STACK_LIMIT
            } by {
                if i < old(self)@.frames.len() {
                    assert(self@.frames[i] == old(self)@.frames[i]);
                }
            }
        }
        Event::Continue
    }

    /// Calls a built-in function.
    fn intrinsic(&mut self, name: &String) -> (e: Event)
        requires
            old(self).wf(),
        ensures
            final(self).program() == old(self).program(),
            final(self).wf(),
            e == intrinsic_spec(old(self)@, name@).1,
            e != Event::Trap ==> final(self)@ == intrinsic_spec(old(self)@, name@).0,
    {
        if is_named(name, "must_read") {
            Event::NeedInput
        } else if is_named(name, "must_print") {
            match self.pop() {
                Some(v) => Event::Output(v),
                None => Event::Trap,
            }
        } else if is_named(name, "must_alloc") {
            match self.pop() {
                Some(Value::Int64(n)) => {
                    let len = #[verifier::truncate] (n as usize);
                    match self.hp.checked_add(len) {
                        Some(hp) => {
                            let ptr = self.hp;
                            self.hp = hp;
                            assert(-0x8000_0000_0000_0000_0000_0000_0000_0000 <= n * 0x1_0000_0000_0000_0000 + ptr
                                < 0x8000_0000_0000_0000_0000_0000_0000_0000) by (nonlinear_arith)
                                requires
                                    -0x8000_0000_0000_0000 <= n < 0x8000_0000_0000_0000,
                                    0 <= ptr < 0x1_0000_0000_0000_0000;
                            let r = (n as i128) * 0x1_0000_0000_0000_0000i128 + ptr as i128;
                            self.push(Value::Int128(r));
                            Event::Continue
                        },
                        None => Event::Trap,
                    }
                },
                _ => Event::Trap,
            }
        } else {
            Event::Trap
        }
    }

    /// Calls a function by name.
    fn call(&mut self, name: &String) -> (e: Event)
        requires
            old(self).wf(),
        ensures
            final(self).program() == old(self).program(),
            final(self).wf(),
            e == call_spec(old(self).program(), old(self)@, name@).1,
            e != Event::Trap ==> final(self)@ == call_spec(old(self).program(), old(self)@, name@).0,
    {
        match self.find(name) {
            Some(i) => {
                assert(find_func(self.program(), name@) == Some(i as nat));
                self.enter(i)
            },
            None => {
                assert(find_func(self.program(), name@) is None);
                self.intrinsic(name)
            },
        }
    }
}


impl<'a> VM<'a> {
    /// Executes an instruction of the innermost frame.
    fn exec_inst(&mut self, inst: &Inst) -> (e: Event)
        requires
            old(self).wf(),
            old(self)@.frames.len() > 0,
        ensures
            final(self).program() == old(self).program(),
            final(self).wf(),
            e == inst_spec(old(self).program(), old(self)@, *inst).1,
            e != Event::Trap ==> final(self)@ == inst_spec(old(self).program(), old(self)@, *inst).0,
    {
        let ghost s = self@;
        let ghost funcs = self.program();
        let fr = self.frames[self.frames.len() - 1];
        assert(fr == s.frames.last());
        assert(fr.func < funcs.len() && fr.bp + frame_size(funcs[fr.func as int].1) < STACK_LIMIT) by {
            assert(s.frames[s.frames.len() - 1] == fr);
        }
        match inst {
            Inst::PushInt(n) => {
                self.push(Value::Int64(*n));
                Event::Continue
            },
            Inst::PushBool(b) => {
                self.push(Value::Bool(*b));
                Event::Continue
            },
            Inst::Binop(op) => {
                let y = self.pop();
                let x = self.pop();
                match (y, x) {
                    (Some(y), Some(x)) => match binop_value(*op, y, x) {
                        Some(r) => {
                            self.push(r);
                            Event::Continue
                        },
                        None => Event::Trap,
                    },
                    _ => Event::Trap,
                }
            },
            Inst::Unop(op) => match self.pop() {
                Some(x) => match unop_value(*op, x) {
                    Some(r) => {
                        self.push(r);
                        Event::Continue
                    },
                    None => Event::Trap,
                },
                None => Event::Trap,
            },
            Inst::SetLocal { id, offset } => match self.local_address(fr, *id, *offset) {
                None => Event::Trap,
                Some(a) => match self.pop() {
                    None => Event::Trap,
                    Some(v) => {
                        let bytes = v.as_bytes();
                        if self.write_bytes(a, &bytes) {
                            Event::Continue
                        } else {
                            Event::Trap
                        }
                    },
                },
            },
            Inst::Get { id, offset, tp } => match self.local_address(fr, *id, *offset) {
                None => Event::Trap,
                Some(a) => match self.read_value(a, *tp) {
                    Some(v) => {
                        self.push(v);
                        Event::Continue
                    },
                    None => Event::Trap,
                },
            },
            Inst::LocalAddr { id, offset } => match self.local_address(fr, *id, *offset) {
                None => Event::Trap,
                Some(a) => {
                    self.push(Value::Ref(a));
                    Event::Continue
                },
            },
            Inst::Load { offset, tp } => match self.pop() {
                None => Event::Trap,
                Some(Value::Ref(p)) => match p.checked_add(*offset as usize) {
                    None => Event::Trap,
                    Some(a) => match self.read_value(a, *tp) {
                        Some(v) => {
                            self.push(v);
                            Event::Continue
                        },
                        None => Event::Trap,
                    },
                },
                Some(_) => Event::Continue,
            },
            Inst::Store { offset } => match self.pop() {
                None => Event::Trap,
                Some(Value::Ref(p)) => match self.pop() {
                    None => Event::Trap,
                    Some(v) => match p.checked_add(*offset as usize) {
                        None => Event::Trap,
                        Some(a) => {
                            let bytes = v.as_bytes();
                            if self.write_bytes(a, &bytes) {
                                Event::Continue
                            } else {
                                Event::Trap
                            }
                        },
                    },
                },
                Some(_) => Event::Continue,
            },
            Inst::MemCopy { size } => {
                let a = self.pop();
                let b = self.pop();
                match (a, b) {
                    (Some(Value::Ref(src)), Some(Value::Ref(dst))) => {
                        if src > self.memory.len() || *size > self.memory.len() - src {
                            return Event::Trap;
                        }
                        let mut bytes: Vec<u8> = Vec::new();
                        let n = *size;
                        for k in 0..n
                            invariant
                                src + n <= self@.memory.len(),
                                self@.memory.len() == MEMORY_SIZE,
                                bytes@ == self@.memory.subrange(src as int, src + k),
                        {
                            bytes.push(self.memory[src + k]);
                            assert(bytes@ =~= self@.memory.subrange(src as int, src + k + 1));
                        }
                        if self.write_bytes(dst, &bytes) {
                            Event::Continue
                        } else {
                            Event::Trap
                        }
                    },
                    _ => Event::Trap,
                }
            },
            Inst::CapOffset => {
                let a = self.pop();
                let b = self.pop();
                match (a, b) {
                    (Some(Value::Int64(off)), Some(Value::Ref(p))) => match p.checked_add(#[verifier::truncate] (off as usize)) {
                        Some(r) => {
                            self.push(Value::Ref(r));
                            Event::Continue
                        },
                        None => Event::Trap,
                    },
                    _ => Event::Trap,
                }
            },
            Inst::Drop => match self.pop() {
                Some(_) => Event::Continue,
                None => Event::Trap,
            },
            Inst::Dup => match self.pop() {
                Some(v) => {
                    self.push(v);
                    self.push(v);
                    assert(self@.vstack =~= s.vstack.push(s.vstack.last()));
                    Event::Continue
                },
                None => Event::Trap,
            },
            Inst::Call(name) => self.call(name),
        }
    }
}


/// Calling `name` and then running up to `fuel` steps while the machine
/// reports `Continue`.
pub open spec fn eval_spec(funcs: Seq<(String, Func)>, s: VMState, name: Seq<char>, fuel: nat) -> (VMState, Event) {
    let (s1, e) = call_spec(funcs, s, name);
    if e == Event::Continue {
        run_spec(funcs, s1, fuel)
    } else {
        (s1, e)
    }
}

impl<'a> VM<'a> {
    /// Executes the terminator `t` of the innermost frame's block.
    fn exec_term(&mut self, t: Terminator) -> (e: Event)
        requires
            old(self).wf(),
            old(self)@.frames.len() > 0,
        ensures
            final(self).program() == old(self).program(),
            final(self).wf(),
            e == term_spec(old(self)@, t).1,
            e != Event::Trap ==> final(self)@ == term_spec(old(self)@, t).0,
    {
        let fr = self.frames[self.frames.len() - 1];
        match t {
            Terminator::Jmp(b) => {
                self.set_top(Frame { block: b, inst: 0, ..fr });
                Event::Continue
            },
            Terminator::Br(th, el) => match self.pop() {
                None => Event::Trap,
                Some(Value::Bool(c)) => {
                    self.set_top(Frame { block: if c { th } else { el }, inst: 0, ..fr });
                    Event::Continue
                },
                Some(_) => {
                    self.set_top(Frame { inst: 0, ..fr });
                    Event::Continue
                },
            },
            Terminator::Ret => {
                let ghost s = self@;
                self.frames.pop();
                self.sp = fr.bp;
                proof {
                    assert(self@.frames =~= s.frames.drop_last());
                    assert forall|i: int| 0 <= i < self@.frames.len() implies {
                        let f = #[trigger] self@.frames[i];
                        &&& f.func < self.program().len()
                        &&& f.bp + frame_size(self.program()[f.func as int].1) < STACK_LIMIT
                    } by {
                        assert(self@.frames[i] == s.frames[i]);
                    }
                    assert(s.frames[s.frames.len() - 1] == fr);
                }
                if self.frames.len() == 0 {
                    Event::Finished
                } else {
                    Event::Continue
                }
            },
        }
    }

    /// Executes one step: the next instruction of the innermost call, or
    /// the terminator of its block once the instructions are done.
    pub fn step(&mut self) -> (e: Event)
        requires
            old(self).wf(),
        ensures
            final(self).program() == old(self).program(),
            final(self).wf(),
            e == step_spec(old(self).program(), old(self)@).1,
            e != Event::Trap ==> final(self)@ == step_spec(old(self).program(), old(self)@).0,
    {
        if self.frames.len() == 0 {
            return Event::Finished;
        }
        let funcs = self.funcs;
        let fr = self.frames[self.frames.len() - 1];
        proof {
            let s = self@;
            assert(s.frames[s.frames.len() - 1] == fr);
        }
        let f = &funcs[fr.func].1;
        if fr.block >= f.blocks.len() {
            return Event::Trap;
        }
        let blk = &f.blocks[fr.block];
        if fr.inst < blk.insts.len() {
            self.set_top(Frame { inst: fr.inst + 1, ..fr });
            self.exec_inst(&blk.insts[fr.inst])
        } else {
            self.exec_term(blk.terminator)
        }
    }

    /// Runs up to `fuel` steps, stopping at the first event other than
    /// `Continue`; returns `Continue` when the fuel ran out first.
    pub fn run(&mut self, fuel: u64) -> (e: Event)
        requires
            old(self).wf(),
        ensures
            final(self).program() == old(self).program(),
            final(self).wf(),
            e == run_spec(old(self).program(), old(self)@, fuel as nat).1,
            e != Event::Trap ==> final(self)@ == run_spec(old(self).program(), old(self)@, fuel as nat).0,
    {
        let mut left = fuel;
        while left > 0
            invariant
                self.wf(),
                self.program() == old(self).program(),
                run_spec(self.program(), self@, left as nat) == run_spec(old(self).program(), old(self)@, fuel as nat),
            decreases left,
        {
            let ghost before = self@;
            let e = self.step();
            if e != Event::Continue {
                return e;
            }
            left = left - 1;
            assert(run_spec(self.program(), before, (left + 1) as nat) == run_spec(self.program(), self@, left as nat));
        }
        Event::Continue
    }

    /// Calls the function `name` (one of the program's, else a built-in
    /// one) and runs up to `fuel` steps of it.
    pub fn eval_func(&mut self, name: &str, fuel: u64) -> (e: Event)
        requires
            old(self).wf(),
        ensures
            final(self).program() == old(self).program(),
            final(self).wf(),
            e == eval_spec(old(self).program(), old(self)@, name@, fuel as nat).1,
            e != Event::Trap ==> final(self)@ == eval_spec(old(self).program(), old(self)@, name@, fuel as nat).0,
    {
        let n = name.to_string();
        let e = self.call(&n);
        if e == Event::Continue {
            self.run(fuel)
        } else {
            e
        }
    }

    /// Hands the integer that the program asked for to it.
    pub fn provide_input(&mut self, n: i64)
        requires
            old(self).wf(),
        ensures
            final(self).program() == old(self).program(),
            final(self).wf(),
            final(self)@ == with_stack(old(self)@, old(self)@.vstack.push(Value::Int64(n))),
    {
        self.push(Value::Int64(n));
    }

    /// The value left on top of the operand stack, if any.
    pub fn finish(self) -> (v: Option<Value>)
        ensures
            self@.vstack.len() == 0 ==> v is None,
            self@.vstack.len() > 0 ==> v == Some(self@.vstack.last()),
    {
        let mut s = self;
        s.pop()
    }
}

} // verus!
