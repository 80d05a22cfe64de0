//! Operators shared by the syntax tree and the bytecode.
use vstd::prelude::*;

use crate::bytecode;

verus! {

/// Binary operators.
#[derive(Debug, Clone, Copy, PartialEq, Eq, Hash, Structural)]
pub enum Binop {
    Add,
    Sub,
    Mul,
    Div,
    Mod,
    Eq,
    Lt,
    Gt,
    Le,
    Ge,
    NEq,
    And,
    Or,
}

/// The mnemonic under which a binary operator is printed.
pub open spec fn binop_mnemonic(op: Binop) -> Seq<char> {
    match op {
        Binop::Add => "add"@,
        Binop::Sub => "sub"@,
        Binop::Mul => "mul"@,
        Binop::Div => "div"@,
        Binop::Mod => "mod"@,
        Binop::Eq => "eq"@,
        Binop::Lt => "lt"@,
        Binop::Gt => "gt"@,
        Binop::Le => "le"@,
        Binop::Ge => "ge"@,
        Binop::NEq => "neq"@,
        Binop::And => "and"@,
        Binop::Or => "or"@,
    }
}

/// The result type of a binary operator.
pub open spec fn binop_ret_tp(op: Binop) -> bytecode::Type {
    match op {
        Binop::Add | Binop::Sub | Binop::Mul | Binop::Div | Binop::Mod => bytecode::Type::Int64,
        _ => bytecode::Type::Bool,
    }
}

/// The result type of a unary operator.
pub open spec fn unop_ret_tp(op: Unop) -> bytecode::Type {
    match op {
        Unop::Neg => bytecode::Type::Int64,
        Unop::Not => bytecode::Type::Bool,
    }
}

/// Unary operators.
#[derive(Debug, Clone, Copy, PartialEq, Eq, Hash, Structural)]
pub enum Unop {
    Not,
    Neg,
}

/// The mnemonic under which a unary operator is printed.
pub open spec fn unop_mnemonic(op: Unop) -> Seq<char> {
    match op {
        Unop::Not => "not"@,
        Unop::Neg => "neg"@,
    }
}

impl Binop {
    /// The type of the operator's result: an integer for arithmetic, a
    /// boolean for comparisons and boolean connectives.
    pub fn ret_tp(&self) -> (t: bytecode::Type)
        ensures
            t == binop_ret_tp(*self),
    {
        match self {
            Binop::Add | Binop::Sub | Binop::Mul | Binop::Div | Binop::Mod => bytecode::Type::Int64,
            _ => bytecode::Type::Bool,
        }
    }

    /// The mnemonic of the operator.
    pub fn mnemonic(&self) -> (s: &'static str)
        ensures
            s@ == binop_mnemonic(*self),
    {
        proof {
            reveal_strlit("add");
            reveal_strlit("sub");
            reveal_strlit("mul");
            reveal_strlit("div");
            reveal_strlit("mod");
            reveal_strlit("eq");
            reveal_strlit("lt");
            reveal_strlit("gt");
            reveal_strlit("le");
            reveal_strlit("ge");
            reveal_strlit("neq");
            reveal_strlit("and");
            reveal_strlit("or");
        }
        match self {
            Binop::Add => "add",
            Binop::Sub => "sub",
            Binop::Mul => "mul",
            Binop::Div => "div",
            Binop::Mod => "mod",
            Binop::Eq => "eq",
            Binop::Lt => "lt",
            Binop::Gt => "gt",
            Binop::Le => "le",
            Binop::Ge => "ge",
            Binop::NEq => "neq",
            Binop::And => "and",
            Binop::Or => "or",
        }
    }
}

impl Unop {
    /// The type of the operator's result: an integer for negation, a boolean
    /// for logical not.
    pub fn ret_tp(&self) -> (t: bytecode::Type)
        ensures
            t == unop_ret_tp(*self),
    {
        match self {
            Unop::Neg => bytecode::Type::Int64,
            Unop::Not => bytecode::Type::Bool,
        }
    }

    /// The mnemonic of the operator.
    pub fn mnemonic(&self) -> (s: &'static str)
        ensures
            s@ == unop_mnemonic(*self),
    {
        proof {
            reveal_strlit("not");
            reveal_strlit("neg");
        }
        match self {
            Unop::Not => "not",
            Unop::Neg => "neg",
        }
    }
}

} // verus!
