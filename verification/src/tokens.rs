//! Tokens produced by the lexer, and the literal values that can be
//! embedded in bytecode.

use vstd::prelude::*;

use crate::htn_vm::Num;

verus! {

/// A keyword of the language.
#[derive(Debug, Clone, Copy, PartialEq, Eq, Structural)]
pub enum Keyword {
    True,
    False,
    Null,
    If,
    Else,
    Exit,
}

/// An operator symbol.
#[derive(Debug, Clone, Copy, PartialEq, Eq, Structural)]
pub enum OpSym {
    Add,
    Sub,
    Mul,
    Div,
    Mod,
    And,
    Or,
    Eq,
    Neq,
    Lt,
    Gt,
    Lte,
    Gte,
    Not,
    NullC,
    Dbg,
}

/// A flow or punctuation symbol.
#[derive(Debug, Clone, Copy, PartialEq, Eq, Structural)]
pub enum FlowSym {
    OpenParen,
    CloseParen,
    OpenBrace,
    CloseBrace,
    OpenSquare,
    CloseSquare,
    Colon,
    Comma,
    Dot,
    LineEnd,
}

/// A token. String-like tokens own their text: `RawStr` carries the text
/// between the single quotes with `''` pairs still doubled, `EscStr` the
/// text between the double quotes with backslash escapes still encoded.
#[derive(Debug, PartialEq, Eq)]
pub enum HtnToken {
    Ident(String),
    Int(i32),
    Float(String),
    RawStr(String),
    EscStr(String),
    Keyword(Keyword),
    OpSym(OpSym),
    FlowSym(FlowSym),
}

impl Clone for HtnToken {
    /// A clone is equal to the original.
    fn clone(&self) -> (res: Self)
        ensures
            res == *self,
    {
        match self {
            HtnToken::Ident(s) => HtnToken::Ident(s.clone()),
            HtnToken::Int(i) => HtnToken::Int(*i),
            HtnToken::Float(s) => HtnToken::Float(s.clone()),
            HtnToken::RawStr(s) => HtnToken::RawStr(s.clone()),
            HtnToken::EscStr(s) => HtnToken::EscStr(s.clone()),
            HtnToken::Keyword(k) => HtnToken::Keyword(*k),
            HtnToken::OpSym(o) => HtnToken::OpSym(*o),
            HtnToken::FlowSym(f) => HtnToken::FlowSym(*f),
        }
    }
}

/// A literal value, embeddable in bytecode as a `Push` operand.
#[derive(Debug, PartialEq, Eq)]
pub enum VmValue {
    Null,
    Bool(bool),
    Number(Num),
    String(String),
}

impl Clone for VmValue {
    /// A clone is equal to the original.
    fn clone(&self) -> (res: Self)
        ensures
            res == *self,
    {
        match self {
            VmValue::Null => VmValue::Null,
            VmValue::Bool(b) => VmValue::Bool(*b),
            VmValue::Number(n) => VmValue::Number(n.clone()),
            VmValue::String(s) => VmValue::String(s.clone()),
        }
    }
}

} // verus!
