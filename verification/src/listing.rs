//! Printing bytecode as text.
use vstd::prelude::*;

use crate::bytecode::{Block, Func, Inst, Prog, Terminator, Type};
use crate::common::{binop_mnemonic, unop_mnemonic};
use crate::diagnostic::{decimal, push_char, push_text};
use crate::tp::quoted;

verus! {

/// The decimal digits of `n`, most significant first.
pub fn decimal_u64(n: u64) -> (s: String)
    ensures
        s@ == decimal(n as nat),
    decreases n,
{
    if n < 10 {
        let mut s = String::new();
        push_char(&mut s, ((n as u8) + 48u8) as char);
        assert(s@ =~= decimal(n as nat));
        s
    } else {
        let mut s = decimal_u64(n / 10);
        push_char(&mut s, (((n % 10) as u8) + 48u8) as char);
        assert(s@ =~= decimal(n as nat));
        s
    }
}

/// A signed integer in decimal, with a minus sign when negative.
pub open spec fn int_text(n: int) -> Seq<char> {
    if n < 0 {
        "-"@ + decimal((-n) as nat)
    } else {
        decimal(n as nat)
    }
}

fn int_text_exec(n: i64) -> (s: String)
    ensures
        s@ == int_text(n as int),
{
    if n < 0 {
        let m = (-(n as i128)) as u64;
        let mut s = String::new();
        push_text(&mut s, "-");
        push_text(&mut s, decimal_u64(m).as_str());
        assert(s@ =~= int_text(n as int));
        s
    } else {
        decimal_u64(n as u64)
    }
}

/// The name of a primitive type.
pub open spec fn prim_name(t: Type) -> Seq<char> {
    match t {
        Type::Int64 => "Int64"@,
        Type::Bool => "Bool"@,
        Type::Ptr => "Ptr"@,
        Type::UInt8 => "UInt8"@,
        Type::UInt64 => "UInt64"@,
    }
}

fn prim_name_exec(t: Type) -> (s: &'static str)
    ensures
        s@ == prim_name(t),
{
    match t {
        Type::Int64 => "Int64",
        Type::Bool => "Bool",
        Type::Ptr => "Ptr",
        Type::UInt8 => "UInt8",
        Type::UInt64 => "UInt64",
    }
}

/// How an instruction is printed.
pub open spec fn inst_text(i: Inst) -> Seq<char> {
    match i {
        Inst::PushInt(n) => "push "@ + int_text(n as int),
        Inst::PushBool(b) => "push "@ + if b { "true"@ } else { "false"@ },
        Inst::Binop(op) => binop_mnemonic(op),
        Inst::Unop(op) => unop_mnemonic(op),
        Inst::SetLocal { id, offset } => "set $"@ + decimal(id as nat) + " +"@ + decimal(offset as nat),
        Inst::Get { id, offset, tp } => "get $"@ + decimal(id as nat) + " +"@ + decimal(offset as nat) + " "@ + prim_name(tp),
        Inst::LocalAddr { id, offset } => "addr $"@ + decimal(id as nat) + " +"@ + decimal(offset as nat),
        Inst::Load { offset, tp } => "load +"@ + decimal(offset as nat) + " "@ + prim_name(tp),
        Inst::Store { offset } => "store +"@ + decimal(offset as nat),
        Inst::CapOffset => "capoffset"@,
        Inst::Drop => "drop"@,
        Inst::Dup => "dup"@,
        Inst::Call(name) => "call "@ + quoted(name@),
        Inst::MemCopy { size } => "memcpy "@ + decimal(size as nat),
    }
}

/// How a terminator is printed.
pub open spec fn term_text(t: Terminator) -> Seq<char> {
    match t {
        Terminator::Jmp(n) => "jmp blk"@ + decimal(n as nat),
        Terminator::Br(th, el) => "br blk"@ + decimal(th as nat) + " blk"@ + decimal(el as nat),
        Terminator::Ret => "ret"@,
    }
}

/// The lines of the instructions `insts[..k]`, each indented by a tab.
pub open spec fn insts_text(insts: Seq<Inst>, k: int) -> Seq<char>
    decreases k,
{
    if k <= 0 || k > insts.len() {
        Seq::empty()
    } else {
        insts_text(insts, k - 1) + "\t"@ + inst_text(insts[k - 1]) + "\n"@
    }
}

/// How a block is printed: its instructions, then its terminator, one to
/// a line.
pub open spec fn block_text(b: Block) -> Seq<char> {
    insts_text(b.insts@, b.insts@.len() as int) + "\t"@ + term_text(b.terminator) + "\n"@
}

/// The blocks `bs[..k]`, each after a line with its number.
pub open spec fn blocks_text(bs: Seq<Block>, k: int) -> Seq<char>
    decreases k,
{
    if k <= 0 || k > bs.len() {
        Seq::empty()
    } else {
        blocks_text(bs, k - 1) + "block "@ + decimal((k - 1) as nat) + ":\n"@ + block_text(bs[k - 1])
    }
}

/// How a function is printed.
pub open spec fn func_text(f: Func) -> Seq<char> {
    blocks_text(f.blocks@, f.blocks@.len() as int)
}

/// The functions `fs[..k]`, each after a line with its name and its number
/// of locals, and followed by an empty line.
pub open spec fn funcs_text(fs: Seq<(String, Func)>, k: int) -> Seq<char>
    decreases k,
{
    if k <= 0 || k > fs.len() {
        Seq::empty()
    } else {
        funcs_text(fs, k - 1) + quoted(fs[k - 1].0@) + " ("@ + decimal(fs[k - 1].1.variables@.len()) + "):\n"@ + func_text(
            fs[k - 1].1,
        ) + "\n"@
    }
}

impl Inst {
    /// This instruction as text.
    pub fn text(&self) -> (s: String)
        ensures
            s@ == inst_text(*self),
    {
        let mut s = String::new();
        match self {
            Inst::PushInt(n) => {
                push_text(&mut s, "push ");
                push_text(&mut s, int_text_exec(*n).as_str());
            },
            Inst::PushBool(b) => {
                push_text(&mut s, "push ");
                push_text(&mut s, if *b { "true" } else { "false" });
            },
            Inst::Binop(op) => push_text(&mut s, op.mnemonic()),
            Inst::Unop(op) => push_text(&mut s, op.mnemonic()),
            Inst::SetLocal { id, offset } => {
                push_text(&mut s, "set $");
                push_text(&mut s, decimal_u64(*id as u64).as_str());
                push_text(&mut s, " +");
                push_text(&mut s, decimal_u64(*offset as u64).as_str());
            },
            Inst::Get { id, offset, tp } => {
                push_text(&mut s, "get $");
                push_text(&mut s, decimal_u64(*id as u64).as_str());
                push_text(&mut s, " +");
                push_text(&mut s, decimal_u64(*offset as u64).as_str());
                push_text(&mut s, " ");
                push_text(&mut s, prim_name_exec(*tp));
            },
            Inst::LocalAddr { id, offset } => {
                push_text(&mut s, "addr $");
                push_text(&mut s, decimal_u64(*id as u64).as_str());
                push_text(&mut s, " +");
                push_text(&mut s, decimal_u64(*offset as u64).as_str());
            },
            Inst::Load { offset, tp } => {
                push_text(&mut s, "load +");
                push_text(&mut s, decimal_u64(*offset as u64).as_str());
                push_text(&mut s, " ");
                push_text(&mut s, prim_name_exec(*tp));
            },
            Inst::Store { offset } => {
                push_text(&mut s, "store +");
                push_text(&mut s, decimal_u64(*offset as u64).as_str());
            },
            Inst::CapOffset => push_text(&mut s, "capoffset"),
            Inst::Drop => push_text(&mut s, "drop"),
            Inst::Dup => push_text(&mut s, "dup"),
            Inst::Call(name) => {
                push_text(&mut s, "call \"");
                push_text(&mut s, name.as_str());
                push_text(&mut s, "\"");
            },
            Inst::MemCopy { size } => {
                push_text(&mut s, "memcpy ");
                push_text(&mut s, decimal_u64(*size as u64).as_str());
            },
        }
        proof {
            reveal_strlit("call \"");
            reveal_strlit("\"");
            reveal_strlit("call ");
            assert(s@ =~= inst_text(*self));
        }
        s
    }
}

impl Terminator {
    /// This terminator as text.
    pub fn text(&self) -> (s: String)
        ensures
            s@ == term_text(*self),
    {
        let mut s = String::new();
        match self {
            Terminator::Jmp(n) => {
                push_text(&mut s, "jmp blk");
                push_text(&mut s, decimal_u64(*n as u64).as_str());
            },
            Terminator::Br(th, el) => {
                push_text(&mut s, "br blk");
                push_text(&mut s, decimal_u64(*th as u64).as_str());
                push_text(&mut s, " blk");
                push_text(&mut s, decimal_u64(*el as u64).as_str());
            },
            Terminator::Ret => push_text(&mut s, "ret"),
        }
        assert(s@ =~= term_text(*self));
        s
    }
}

impl Block {
    /// This block as text: its instructions, then its terminator, one to a
    /// line and each indented by a tab.
    pub fn text(&self) -> (s: String)
        ensures
            s@ == block_text(*self),
    {
        let mut s = String::new();
        for k in 0..self.insts.len()
            invariant
                s@ == insts_text(self.insts@, k as int),
        {
            push_text(&mut s, "\t");
            push_text(&mut s, self.insts[k].text().as_str());
            push_text(&mut s, "\n");
            assert(s@ =~= insts_text(self.insts@, k + 1));
        }
        push_text(&mut s, "\t");
        push_text(&mut s, self.terminator.text().as_str());
        push_text(&mut s, "\n");
        assert(s@ =~= block_text(*self));
        s
    }
}

impl Func {
    /// This function as text: each block after a line with its number.
    pub fn text(&self) -> (s: String)
        ensures
            s@ == func_text(*self),
    {
        let mut s = String::new();
        for k in 0..self.blocks.len()
            invariant
                s@ == blocks_text(self.blocks@, k as int),
        {
            push_text(&mut s, "block ");
            push_text(&mut s, decimal_u64(k as u64).as_str());
            push_text(&mut s, ":\n");
            push_text(&mut s, self.blocks[k].text().as_str());
            assert(s@ =~= blocks_text(self.blocks@, k + 1));
        }
        s
    }
}

impl Prog {
    /// This program's functions as text, each after a line with its name
    /// and its number of locals.
    pub fn text(&self) -> (s: String)
        ensures
            s@ == funcs_text(self.funcs@, self.funcs@.len() as int),
    {
        let mut s = String::new();
        for k in 0..self.funcs.len()
            invariant
                s@ == funcs_text(self.funcs@, k as int),
        {
            push_text(&mut s, "\"");
            push_text(&mut s, self.funcs[k].0.as_str());
            push_text(&mut s, "\" (");
            push_text(&mut s, decimal_u64(self.funcs[k].1.variables.len() as u64).as_str());
            push_text(&mut s, "):\n");
            push_text(&mut s, self.funcs[k].1.text().as_str());
            push_text(&mut s, "\n");
            proof {
                reveal_strlit("\"");
                reveal_strlit("\" (");
                reveal_strlit(" (");
                assert("\" ("@ =~= "\""@ + " ("@);
            }
            assert(s@ =~= funcs_text(self.funcs@, k + 1));
        }
        s
    }
}

} // verus!
