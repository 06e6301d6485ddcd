//! What a syntax tree holds: the tree with its texts as sequences of
//! characters and its lists as sequences.

use crate::syntax::ast::{
    BinaryOp, BlockStmt, CallExpr, DeclStmt, Expr, FuncParam, FuncStmt, Ident, IfElseBlock, IfStmt,
    LiteralKind, Program, Stmt, TyDef, UnaryOp,
};
use crate::syntax::span::Span;
use vstd::prelude::*;

verus! {

/// What a name holds.
pub struct IdentView {
    pub span: Span,
    pub name: Seq<char>,
}

/// What the name of a type holds.
pub struct TyDefView {
    pub span: Span,
    pub name: Seq<char>,
    pub params: Option<Seq<TyDefView>>,
}

/// What a literal holds.
pub enum LiteralView {
    Integer(u64),
    Float(u64),
    String(Seq<char>),
    Char(char),
}

/// What an expression holds.
pub enum ExprView {
    Ident(IdentView),
    Assign { span: Span, allow_assign_const: bool, lhs: Box<ExprView>, rhs: Box<ExprView> },
    As { span: Span, val: Box<ExprView>, ty: TyDefView },
    Literal { span: Span, kind: LiteralView },
    Unary { span: Span, op: UnaryOp, expr: Box<ExprView> },
    Binary { span: Span, op: BinaryOp, lhs: Box<ExprView>, rhs: Box<ExprView> },
    Call { span: Span, func: IdentView, params: Seq<ExprView> },
}

/// What a declaration holds.
pub struct DeclView {
    pub is_const: bool,
    pub name: IdentView,
    pub ty: TyDefView,
    pub val: Option<ExprView>,
    pub span: Span,
}

/// What a block holds.
pub struct BlockView {
    pub span: Span,
    pub stmts: Seq<StmtView>,
}

/// What follows the block of a condition.
pub enum ElseView {
    Absent,
    If(Box<IfView>),
    Block(BlockView),
}

/// What a conditional statement holds.
pub struct IfView {
    pub span: Span,
    pub cond: ExprView,
    pub if_block: BlockView,
    pub else_block: ElseView,
}

/// What a statement holds.
pub enum StmtView {
    Block(BlockView),
    While { span: Span, cond: ExprView, body: BlockView },
    If(IfView),
    Expr(ExprView),
    Decl(DeclView),
    Return { val: Option<ExprView>, span: Span },
    Break(Span),
    Continue(Span),
    Empty(Span),
}

/// What a parameter of a function holds.
pub struct ParamView {
    pub is_const: bool,
    pub name: IdentView,
    pub ty: TyDefView,
}

/// What a function holds.
pub struct FuncView {
    pub span: Span,
    pub name: IdentView,
    pub params: Seq<ParamView>,
    pub ret_ty: TyDefView,
    pub body: BlockView,
}

/// What a program holds.
pub struct ProgramView {
    pub decls: Seq<DeclView>,
    pub funcs: Seq<FuncView>,
}

impl View for Ident {
    type V = IdentView;

    open spec fn view(&self) -> IdentView {
        IdentView { span: self.span, name: self.name@ }
    }
}

/// What the name of a type holds.
pub open spec fn ty_def_view(t: TyDef) -> TyDefView
    decreases t, 0nat,
{
    TyDefView {
        span: t.span,
        name: t.name@,
        params: match t.params {
            Some(_) => Some(ty_params_view(t, 0)),
            None => None,
        },
    }
}

/// What the parameters of the name of a type hold, from the `k`-th on.
pub open spec fn ty_params_view(t: TyDef, k: nat) -> Seq<TyDefView>
    decreases t, 0nat, t.params->Some_0@.len() - k,
{
    if t.params is None || k >= t.params->Some_0@.len() {
        Seq::empty()
    } else {
        seq![ty_def_view(t.params->Some_0@[k as int])] + ty_params_view(t, k + 1)
    }
}

impl View for TyDef {
    type V = TyDefView;

    open spec fn view(&self) -> TyDefView {
        ty_def_view(*self)
    }
}

impl View for LiteralKind {
    type V = LiteralView;

    open spec fn view(&self) -> LiteralView {
        match self {
            LiteralKind::Integer(i) => LiteralView::Integer(*i),
            LiteralKind::Float(f) => LiteralView::Float(*f),
            LiteralKind::String(s) => LiteralView::String(s@),
            LiteralKind::Char(c) => LiteralView::Char(*c),
        }
    }
}

/// What an expression holds.
pub open spec fn expr_view(e: Expr) -> ExprView
    decreases e, 0nat,
{
    match e {
        Expr::Ident(i) => ExprView::Ident(i@),
        Expr::Assign(a) => ExprView::Assign {
            span: a.span,
            allow_assign_const: a.allow_assign_const,
            lhs: Box::new(expr_view(*a.lhs)),
            rhs: Box::new(expr_view(*a.rhs)),
        },
        Expr::As(a) => ExprView::As { span: a.span, val: Box::new(expr_view(*a.val)), ty: a.ty@ },
        Expr::Literal(l) => ExprView::Literal { span: l.span, kind: l.kind@ },
        Expr::Unary(u) => ExprView::Unary {
            span: u.span,
            op: u.op,
            expr: Box::new(expr_view(*u.expr)),
        },
        Expr::Binary(b) => ExprView::Binary {
            span: b.span,
            op: b.op,
            lhs: Box::new(expr_view(*b.lhs)),
            rhs: Box::new(expr_view(*b.rhs)),
        },
        Expr::Call(c) => ExprView::Call { span: c.span, func: c.func@, params: args_view(c, 0) },
    }
}

/// What the arguments of a call hold, from the `k`-th on.
pub open spec fn args_view(c: CallExpr, k: nat) -> Seq<ExprView>
    decreases c, c.params@.len() - k,
{
    if k >= c.params@.len() {
        Seq::empty()
    } else {
        seq![expr_view(c.params@[k as int])] + args_view(c, k + 1)
    }
}

impl View for Expr {
    type V = ExprView;

    open spec fn view(&self) -> ExprView {
        expr_view(*self)
    }
}

/// What expressions hold.
pub open spec fn expr_views(s: Seq<Expr>) -> Seq<ExprView> {
    Seq::new(s.len(), |i: int| s[i]@)
}

/// The arguments of a call are listed one for one.
pub proof fn lemma_args_view(c: CallExpr, k: nat)
    requires
        k <= c.params@.len(),
    ensures
        args_view(c, k) == expr_views(c.params@).skip(k as int),
    decreases c.params@.len() - k,
{
    if k < c.params@.len() {
        lemma_args_view(c, k + 1);
    }
    assert(args_view(c, k) =~= expr_views(c.params@).skip(k as int));
}

impl View for DeclStmt {
    type V = DeclView;

    open spec fn view(&self) -> DeclView {
        DeclView {
            is_const: self.is_const,
            name: self.name@,
            ty: self.ty@,
            val: match self.val {
                Some(v) => Some((*v)@),
                None => None,
            },
            span: self.span,
        }
    }
}

/// What a statement holds.
pub open spec fn stmt_view(s: Stmt) -> StmtView
    decreases s, 0nat,
{
    match s {
        Stmt::Block(b) => StmtView::Block(block_view(b)),
        Stmt::While(w) => StmtView::While {
            span: w.span,
            cond: (*w.cond)@,
            body: block_view(*w.body),
        },
        Stmt::If(i) => StmtView::If(if_view(i)),
        Stmt::Expr(e) => StmtView::Expr(e@),
        Stmt::Decl(d) => StmtView::Decl(d@),
        Stmt::Return(r) => StmtView::Return {
            val: match r.val {
                Some(v) => Some((*v)@),
                None => None,
            },
            span: r.span,
        },
        Stmt::Break(s) => StmtView::Break(s),
        Stmt::Continue(s) => StmtView::Continue(s),
        Stmt::Empty(s) => StmtView::Empty(s),
    }
}

/// What a block holds.
pub open spec fn block_view(b: BlockStmt) -> BlockView
    decreases b, b.stmts@.len() + 1,
{
    BlockView { span: b.span, stmts: stmts_view(b, 0) }
}

/// What the statements of a block hold, from the `k`-th on.
pub open spec fn stmts_view(b: BlockStmt, k: nat) -> Seq<StmtView>
    decreases b, b.stmts@.len() - k,
{
    if k >= b.stmts@.len() {
        Seq::empty()
    } else {
        seq![stmt_view(b.stmts@[k as int])] + stmts_view(b, k + 1)
    }
}

/// What a conditional statement holds.
pub open spec fn if_view(i: IfStmt) -> IfView
    decreases i, 0nat,
{
    IfView {
        span: i.span,
        cond: (*i.cond)@,
        if_block: block_view(*i.if_block),
        else_block: match i.else_block {
            IfElseBlock::Absent => ElseView::Absent,
            IfElseBlock::If(next) => ElseView::If(Box::new(if_view(*next))),
            IfElseBlock::Block(b) => ElseView::Block(block_view(*b)),
        },
    }
}

impl View for Stmt {
    type V = StmtView;

    open spec fn view(&self) -> StmtView {
        stmt_view(*self)
    }
}

impl View for BlockStmt {
    type V = BlockView;

    open spec fn view(&self) -> BlockView {
        block_view(*self)
    }
}

impl View for IfStmt {
    type V = IfView;

    open spec fn view(&self) -> IfView {
        if_view(*self)
    }
}

/// What statements hold.
pub open spec fn stmt_views(s: Seq<Stmt>) -> Seq<StmtView> {
    Seq::new(s.len(), |i: int| s[i]@)
}

/// The statements of a block are listed one for one.
pub proof fn lemma_stmts_view(b: BlockStmt, k: nat)
    requires
        k <= b.stmts@.len(),
    ensures
        stmts_view(b, k) == stmt_views(b.stmts@).skip(k as int),
    decreases b.stmts@.len() - k,
{
    if k < b.stmts@.len() {
        lemma_stmts_view(b, k + 1);
    }
    assert(stmts_view(b, k) =~= stmt_views(b.stmts@).skip(k as int));
}

impl View for FuncParam {
    type V = ParamView;

    open spec fn view(&self) -> ParamView {
        ParamView { is_const: self.is_const, name: self.name@, ty: self.ty@ }
    }
}

/// What parameters hold.
pub open spec fn param_views(s: Seq<FuncParam>) -> Seq<ParamView> {
    Seq::new(s.len(), |i: int| s[i]@)
}

impl View for FuncStmt {
    type V = FuncView;

    open spec fn view(&self) -> FuncView {
        FuncView {
            span: self.span,
            name: self.name@,
            params: param_views(self.params@),
            ret_ty: self.ret_ty@,
            body: self.body@,
        }
    }
}

/// What declarations hold.
pub open spec fn decl_views(s: Seq<DeclStmt>) -> Seq<DeclView> {
    Seq::new(s.len(), |i: int| s[i]@)
}

/// What functions hold.
pub open spec fn func_views(s: Seq<FuncStmt>) -> Seq<FuncView> {
    Seq::new(s.len(), |i: int| s[i]@)
}

impl View for Program {
    type V = ProgramView;

    open spec fn view(&self) -> ProgramView {
        ProgramView { decls: decl_views(self.decls@), funcs: func_views(self.funcs@) }
    }
}

} // verus!
