//! The common AST items inside R0.
//!
//! For the pointer type, see `crate::syntax::util::P`.

use crate::syntax::span::Span;
use crate::syntax::util::P;
use vstd::prelude::*;

verus! {

#[derive(Debug)]
pub struct Program {
    pub decls: Vec<DeclStmt>,
    pub funcs: Vec<FuncStmt>,
}

/// A node that knows the source text that it stands for.
pub trait AstNode {
    fn span(&self) -> Span;
}

#[derive(Debug)]
pub struct FuncStmt {
    pub span: Span,
    pub name: Ident,
    pub params: Vec<FuncParam>,
    pub ret_ty: TyDef,
    pub body: BlockStmt,
}

#[derive(Debug)]
pub struct FuncParam {
    pub is_const: bool,
    pub name: Ident,
    pub ty: TyDef,
}

#[derive(Debug)]
pub enum Stmt {
    Block(BlockStmt),
    While(WhileStmt),
    If(IfStmt),
    Expr(Expr),
    Decl(DeclStmt),
    Return(ReturnStmt),
    Break(Span),
    Continue(Span),
    Empty(Span),
}

#[derive(Debug)]
pub struct DeclStmt {
    pub is_const: bool,
    pub name: Ident,
    pub ty: TyDef,
    pub val: Option<P<Expr>>,
    pub span: Span,
}

#[derive(Debug)]
pub struct ReturnStmt {
    pub val: Option<P<Expr>>,
    pub span: Span,
}

/// The name of a type as written. The language has no parametric types;
/// the parameters are kept for diagnostics.
#[derive(Debug)]
pub struct TyDef {
    pub span: Span,
    pub name: String,
    pub params: Option<Vec<TyDef>>,
}

#[derive(Debug)]
pub struct BlockStmt {
    pub span: Span,
    pub stmts: Vec<Stmt>,
}

#[derive(Debug)]
pub struct WhileStmt {
    pub span: Span,
    pub cond: P<Expr>,
    pub body: P<BlockStmt>,
}

#[derive(Debug)]
pub struct IfStmt {
    pub span: Span,
    pub cond: P<Expr>,
    pub if_block: P<BlockStmt>,
    pub else_block: IfElseBlock,
}

#[derive(Debug)]
pub enum IfElseBlock {
    Absent,
    If(P<IfStmt>),
    Block(P<BlockStmt>),
}

#[derive(Debug)]
pub enum Expr {
    Ident(Ident),
    Assign(AssignExpr),
    As(AsExpr),
    Literal(LiteralExpr),
    Unary(UnaryExpr),
    Binary(BinaryExpr),
    Call(CallExpr),
}

#[derive(Debug)]
pub struct LiteralExpr {
    pub span: Span,
    pub kind: LiteralKind,
}

/// A literal. A double is held as its bits.
#[derive(Debug)]
pub enum LiteralKind {
    Integer(u64),
    Float(u64),
    String(String),
    Char(char),
}

#[derive(Debug)]
pub struct UnaryExpr {
    pub span: Span,
    pub op: UnaryOp,
    pub expr: P<Expr>,
}

#[derive(Debug)]
pub struct AssignExpr {
    pub span: Span,
    pub allow_assign_const: bool,
    pub lhs: P<Expr>,
    pub rhs: P<Expr>,
}

#[derive(Debug)]
pub struct AsExpr {
    pub span: Span,
    pub val: P<Expr>,
    pub ty: TyDef,
}

#[derive(Debug)]
pub struct BinaryExpr {
    pub span: Span,
    pub op: BinaryOp,
    pub lhs: P<Expr>,
    pub rhs: P<Expr>,
}

#[derive(Debug)]
pub struct CallExpr {
    pub span: Span,
    pub func: Ident,
    pub params: Vec<Expr>,
}

#[derive(Debug, Copy, Clone, PartialEq, Eq, Structural)]
pub enum UnaryOp {
    Neg,
    Pos,
}

#[derive(Debug, Copy, Clone, PartialEq, Eq, Structural)]
pub enum BinaryOp {
    Add,
    Sub,
    Mul,
    Div,
    Gt,
    Lt,
    Ge,
    Le,
    Eq,
    Neq,
}

#[derive(Debug)]
pub struct Ident {
    pub span: Span,
    pub name: String,
}

impl Stmt {
    /// The source text of the statement.
    pub open spec fn spec_span(&self) -> Span {
        match self {
            Stmt::Block(i) => i.span,
            Stmt::While(i) => i.span,
            Stmt::If(i) => i.span,
            Stmt::Expr(i) => i.spec_span(),
            Stmt::Decl(i) => i.span,
            Stmt::Return(i) => i.span,
            Stmt::Break(s) => *s,
            Stmt::Continue(s) => *s,
            Stmt::Empty(s) => *s,
        }
    }
}

impl Expr {
    /// The source text of the expression.
    pub open spec fn spec_span(&self) -> Span {
        match self {
            Expr::Ident(x) => x.span,
            Expr::Assign(x) => x.span,
            Expr::As(x) => x.span,
            Expr::Literal(x) => x.span,
            Expr::Unary(x) => x.span,
            Expr::Binary(x) => x.span,
            Expr::Call(x) => x.span,
        }
    }
}

impl AstNode for Stmt {
    fn span(&self) -> (s: Span)
        ensures
            s == self.spec_span(),
    {
        match self {
            Stmt::Block(i) => i.span,
            Stmt::While(i) => i.span,
            Stmt::If(i) => i.span,
            Stmt::Expr(i) => i.span(),
            Stmt::Decl(i) => i.span,
            Stmt::Return(i) => i.span,
            Stmt::Break(s) => *s,
            Stmt::Continue(s) => *s,
            Stmt::Empty(s) => *s,
        }
    }
}

impl AstNode for Expr {
    fn span(&self) -> (s: Span)
        ensures
            s == self.spec_span(),
    {
        match self {
            Expr::Ident(x) => x.span,
            Expr::Assign(x) => x.span,
            Expr::As(x) => x.span,
            Expr::Literal(x) => x.span,
            Expr::Unary(x) => x.span,
            Expr::Binary(x) => x.span,
            Expr::Call(x) => x.span,
        }
    }
}

} // verus!
