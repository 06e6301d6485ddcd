//! The tokens of r0 source text.

use crate::syntax::ast::BinaryOp;
use vstd::prelude::*;

verus! {

/// A token. A double is held as its bits.
#[derive(Debug, PartialEq, Eq)]
pub enum Token {
    FnKw,
    LetKw,
    ConstKw,
    AsKw,
    WhileKw,
    IfKw,
    ElseKw,
    ReturnKw,
    BreakKw,
    ContinueKw,
    UIntLiteral(u64),
    FloatLiteral(u64),
    CharLiteral(char),
    StringLiteral(String),
    Ident(String),
    Plus,
    Minus,
    Mul,
    Div,
    Assign,
    Eq,
    Neq,
    Lt,
    Gt,
    Le,
    Ge,
    LParen,
    RParen,
    LBrace,
    RBrace,
    Arrow,
    Comma,
    Colon,
    Semicolon,
    Whitespace,
    Comment,
    Error,
}

impl Token {
    /// The name that an identifier token holds.
    pub fn get_ident(&self) -> (r: Option<&str>)
        ensures
            match r {
                Some(s) => self matches Token::Ident(i) && s@ == i@,
                None => !(self is Ident),
            },
    {
        match self {
            Token::Ident(i) => Some(i.as_str()),
            _ => None,
        }
    }

    /// The name that an identifier token holds.
    pub fn get_ident_owned(self) -> (r: Option<String>)
        ensures
            match r {
                Some(s) => self == Token::Ident(s),
                None => !(self is Ident),
            },
    {
        match self {
            Token::Ident(i) => Some(i),
            _ => None,
        }
    }

    /// The number of an integer literal, or the code of a character literal.
    pub fn get_uint(&self) -> (r: Option<u64>)
        ensures
            r == match *self {
                Token::UIntLiteral(i) => Some(i),
                Token::CharLiteral(c) => Some(c as u64),
                _ => None,
            },
    {
        match self {
            Token::UIntLiteral(i) => Some(*i),
            Token::CharLiteral(c) => Some((*c as u32) as u64),
            _ => None,
        }
    }

    /// The bits of the double of a float literal.
    pub fn get_float(&self) -> (r: Option<u64>)
        ensures
            r == match *self {
                Token::FloatLiteral(i) => Some(i),
                _ => None,
            },
    {
        match self {
            Token::FloatLiteral(i) => Some(*i),
            _ => None,
        }
    }

    /// The text of a string literal.
    pub fn get_string(&self) -> (r: Option<&str>)
        ensures
            match r {
                Some(s) => self matches Token::StringLiteral(i) && s@ == i@,
                None => !(self is StringLiteral),
            },
    {
        match self {
            Token::StringLiteral(i) => Some(i.as_str()),
            _ => None,
        }
    }

    /// The text of a string literal.
    pub fn get_string_owned(self) -> (r: Option<String>)
        ensures
            match r {
                Some(s) => self == Token::StringLiteral(s),
                None => !(self is StringLiteral),
            },
    {
        match self {
            Token::StringLiteral(i) => Some(i),
            _ => None,
        }
    }

    /// Whether the token stands between the operands of a binary expression:
    /// an arithmetic operator, a comparison or the assignment sign.
    pub open spec fn spec_is_binary_op(&self) -> bool {
        *self is Plus || *self is Minus || *self is Mul || *self is Div || *self is Assign
            || *self is Eq || *self is Neq || *self is Lt || *self is Gt || *self is Le
            || *self is Ge
    }

    /// How tightly a binary operator binds: the assignment least, then the
    /// comparisons, then sums, then products.
    pub open spec fn spec_precedence(&self) -> u32 {
        match self {
            Token::Plus | Token::Minus => 10,
            Token::Mul | Token::Div => 20,
            Token::Assign => 1,
            _ => 2,
        }
    }

    /// Whether the token stands between the operands of a binary expression.
    pub fn is_binary_op(&self) -> (r: bool)
        ensures
            r == self.spec_is_binary_op(),
    {
        match self {
            Token::Plus
            | Token::Minus
            | Token::Mul
            | Token::Div
            | Token::Assign
            | Token::Eq
            | Token::Neq
            | Token::Lt
            | Token::Gt
            | Token::Le
            | Token::Ge => true,
            _ => false,
        }
    }

    /// How tightly a binary operator binds.
    pub fn precedence(&self) -> (r: u32)
        requires
            self.spec_is_binary_op(),
        ensures
            r == self.spec_precedence(),
    {
        match self {
            Token::Plus => 10,
            Token::Minus => 10,
            Token::Mul => 20,
            Token::Div => 20,
            Token::Assign => 1,
            _ => 2,
        }
    }

    /// Whether a binary operator groups from the left: all but the
    /// assignment.
    pub fn is_left_assoc(&self) -> (r: bool)
        requires
            self.spec_is_binary_op(),
        ensures
            r == !(*self is Assign),
    {
        match self {
            Token::Assign => false,
            _ => true,
        }
    }

    /// The operator of the syntax tree that an operator token stands for.
    /// The assignment sign stands for none.
    pub fn to_binary_op(&self) -> (r: Option<BinaryOp>)
        ensures
            r == match *self {
                Token::Plus => Some(BinaryOp::Add),
                Token::Minus => Some(BinaryOp::Sub),
                Token::Mul => Some(BinaryOp::Mul),
                Token::Div => Some(BinaryOp::Div),
                Token::Eq => Some(BinaryOp::Eq),
                Token::Neq => Some(BinaryOp::Neq),
                Token::Lt => Some(BinaryOp::Lt),
                Token::Gt => Some(BinaryOp::Gt),
                Token::Le => Some(BinaryOp::Le),
                Token::Ge => Some(BinaryOp::Ge),
                _ => None,
            },
            r is Some <==> self.spec_is_binary_op() && !(*self is Assign),
    {
        match self {
            Token::Plus => Some(BinaryOp::Add),
            Token::Minus => Some(BinaryOp::Sub),
            Token::Mul => Some(BinaryOp::Mul),
            Token::Div => Some(BinaryOp::Div),
            Token::Eq => Some(BinaryOp::Eq),
            Token::Neq => Some(BinaryOp::Neq),
            Token::Lt => Some(BinaryOp::Lt),
            Token::Gt => Some(BinaryOp::Gt),
            Token::Le => Some(BinaryOp::Le),
            Token::Ge => Some(BinaryOp::Ge),
            _ => None,
        }
    }
}

} // verus!
