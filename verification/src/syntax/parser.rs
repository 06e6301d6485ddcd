//! The parser: from the tokens of a source text to its syntax tree.
//!
//! A program is a sequence of functions and of declarations of globals. An
//! expression is parsed by operator precedence: products bind tighter than
//! sums, sums tighter than comparisons, and the assignment, which groups from
//! the right, binds least.

pub mod err;

use crate::syntax::ast::{
    AsExpr, AssignExpr, BinaryExpr, BlockStmt, CallExpr, DeclStmt, Expr, FuncParam, FuncStmt, Ident,
    IfElseBlock, IfStmt, LiteralExpr, LiteralKind, Program, ReturnStmt, Stmt, TyDef, UnaryExpr,
    UnaryOp, WhileStmt,
};
use crate::syntax::grammar::{
    binds, combined, eof_span, g_as_chain, g_block, g_block_end, g_call, g_call_end, g_const_decl,
    g_decl, g_expect, g_expr, g_expr_stmt, g_fn_decl, g_fn_end, g_ident, g_if, g_item,
    g_keyword_stmt, g_more_args, g_more_params, g_opg, g_opg_more, g_param, g_program, g_return,
    g_stmt, g_stmts, g_tighter, g_ty, g_unary, g_while, lemma_minus_signs, minus_signs, negated,
    next_is, next_span, program_of, tighter, Input, Parsed,
};
use crate::syntax::parser::err::{ParseError, ParseErrorKind};
use crate::syntax::view::{
    decl_views, expr_views, func_views, lemma_args_view, lemma_stmts_view, param_views, stmt_views,
    DeclView, FuncView, ParamView, StmtView,
};
use crate::syntax::span::Span;
use crate::syntax::token::Token;
use crate::syntax::util::P;
use vstd::prelude::*;
use vstd::string::*;

verus! {

/// The kinds of token that the parser asks for by name.
#[derive(Debug, Copy, Clone, PartialEq, Eq, Structural)]
pub enum Expected {
    FnKw,
    LetKw,
    ConstKw,
    AsKw,
    WhileKw,
    IfKw,
    ElseKw,
    ReturnKw,
    BreakKw,
    ContinueKw,
    Ident,
    Minus,
    Assign,
    LParen,
    RParen,
    LBrace,
    RBrace,
    Arrow,
    Comma,
    Colon,
    Semicolon,
}

/// Whether a token is of the kind asked for.
pub open spec fn spec_token_is(t: Token, want: Expected) -> bool {
    match want {
        Expected::FnKw => t is FnKw,
        Expected::LetKw => t is LetKw,
        Expected::ConstKw => t is ConstKw,
        Expected::AsKw => t is AsKw,
        Expected::WhileKw => t is WhileKw,
        Expected::IfKw => t is IfKw,
        Expected::ElseKw => t is ElseKw,
        Expected::ReturnKw => t is ReturnKw,
        Expected::BreakKw => t is BreakKw,
        Expected::ContinueKw => t is ContinueKw,
        Expected::Ident => t is Ident,
        Expected::Minus => t is Minus,
        Expected::Assign => t is Assign,
        Expected::LParen => t is LParen,
        Expected::RParen => t is RParen,
        Expected::LBrace => t is LBrace,
        Expected::RBrace => t is RBrace,
        Expected::Arrow => t is Arrow,
        Expected::Comma => t is Comma,
        Expected::Colon => t is Colon,
        Expected::Semicolon => t is Semicolon,
    }
}

/// Whether a token is of the kind asked for.
pub fn token_is(t: &Token, want: Expected) -> (r: bool)
    ensures
        r == spec_token_is(*t, want),
{
    match (want, t) {
        (Expected::FnKw, Token::FnKw) => true,
        (Expected::LetKw, Token::LetKw) => true,
        (Expected::ConstKw, Token::ConstKw) => true,
        (Expected::AsKw, Token::AsKw) => true,
        (Expected::WhileKw, Token::WhileKw) => true,
        (Expected::IfKw, Token::IfKw) => true,
        (Expected::ElseKw, Token::ElseKw) => true,
        (Expected::ReturnKw, Token::ReturnKw) => true,
        (Expected::BreakKw, Token::BreakKw) => true,
        (Expected::ContinueKw, Token::ContinueKw) => true,
        (Expected::Ident, Token::Ident(_)) => true,
        (Expected::Minus, Token::Minus) => true,
        (Expected::Assign, Token::Assign) => true,
        (Expected::LParen, Token::LParen) => true,
        (Expected::RParen, Token::RParen) => true,
        (Expected::LBrace, Token::LBrace) => true,
        (Expected::RBrace, Token::RBrace) => true,
        (Expected::Arrow, Token::Arrow) => true,
        (Expected::Comma, Token::Comma) => true,
        (Expected::Colon, Token::Colon) => true,
        (Expected::Semicolon, Token::Semicolon) => true,
        _ => false,
    }
}

/// The name of a kind of token, as diagnostics show it.
pub open spec fn spec_expected_name(want: Expected) -> Seq<char> {
    match want {
        Expected::FnKw => "Token::FnKw"@,
        Expected::LetKw => "Token::LetKw"@,
        Expected::ConstKw => "Token::ConstKw"@,
        Expected::AsKw => "Token::AsKw"@,
        Expected::WhileKw => "Token::WhileKw"@,
        Expected::IfKw => "Token::IfKw"@,
        Expected::ElseKw => "Token::ElseKw"@,
        Expected::ReturnKw => "Token::ReturnKw"@,
        Expected::BreakKw => "Token::BreakKw"@,
        Expected::ContinueKw => "Token::ContinueKw"@,
        Expected::Ident => "Token::Ident(_)"@,
        Expected::Minus => "Token::Minus"@,
        Expected::Assign => "Token::Assign"@,
        Expected::LParen => "Token::LParen"@,
        Expected::RParen => "Token::RParen"@,
        Expected::LBrace => "Token::LBrace"@,
        Expected::RBrace => "Token::RBrace"@,
        Expected::Arrow => "Token::Arrow"@,
        Expected::Comma => "Token::Comma"@,
        Expected::Colon => "Token::Colon"@,
        Expected::Semicolon => "Token::Semicolon"@,
    }
}

/// The name of a kind of token, as diagnostics show it.
pub fn expected_name(want: Expected) -> (s: String)
    ensures
        s@ == spec_expected_name(want),
{
    match want {
        Expected::FnKw => String::from_str("Token::FnKw"),
        Expected::LetKw => String::from_str("Token::LetKw"),
        Expected::ConstKw => String::from_str("Token::ConstKw"),
        Expected::AsKw => String::from_str("Token::AsKw"),
        Expected::WhileKw => String::from_str("Token::WhileKw"),
        Expected::IfKw => String::from_str("Token::IfKw"),
        Expected::ElseKw => String::from_str("Token::ElseKw"),
        Expected::ReturnKw => String::from_str("Token::ReturnKw"),
        Expected::BreakKw => String::from_str("Token::BreakKw"),
        Expected::ContinueKw => String::from_str("Token::ContinueKw"),
        Expected::Ident => String::from_str("Token::Ident(_)"),
        Expected::Minus => String::from_str("Token::Minus"),
        Expected::Assign => String::from_str("Token::Assign"),
        Expected::LParen => String::from_str("Token::LParen"),
        Expected::RParen => String::from_str("Token::RParen"),
        Expected::LBrace => String::from_str("Token::LBrace"),
        Expected::RBrace => String::from_str("Token::RBrace"),
        Expected::Arrow => String::from_str("Token::Arrow"),
        Expected::Comma => String::from_str("Token::Comma"),
        Expected::Colon => String::from_str("Token::Colon"),
        Expected::Semicolon => String::from_str("Token::Semicolon"),
    }
}

/// Combine `lhs` and `rhs` using `op`: the assignment sign makes an
/// assignment, every other operator a binary expression.
pub fn combine_expr(lhs: Expr, rhs: Expr, op: Token) -> (e: Expr)
    requires
        op.spec_is_binary_op(),
    ensures
        op is Assign ==> e is Assign,
        !(op is Assign) ==> e is Binary,
        e@ == combined(lhs@, rhs@, op),
{
    match op.to_binary_op() {
        Some(binary_op) => Expr::Binary(
            BinaryExpr { lhs: P(lhs), rhs: P(rhs), span: Span::default(), op: binary_op },
        ),
        None => Expr::Assign(
            AssignExpr {
                lhs: P(lhs),
                rhs: P(rhs),
                span: Span::default(),
                allow_assign_const: false,
            },
        ),
    }
}

/// The tokens of a source text as the parser holds them: a span without
/// an end is replaced by the empty span at the end of the input.
pub open spec fn with_ends(tokens: Seq<(Token, Span)>) -> Input {
    Seq::new(
        tokens.len(),
        |i: int|
            (
                tokens[i].0,
                if tokens[i].1.wf() {
                    tokens[i].1
                } else {
                    eof_span()
                },
            ),
    )
}

/// Whether a step of the parser went as the rule says: it gives what the
/// rule gives, or fails as the rule fails, and leaves the tokens that the
/// rule leaves.
pub open spec fn agrees<T: View>(
    rule: Parsed<T::V>,
    r: Result<T, ParseError>,
    rest: Input,
) -> bool {
    match rule {
        Ok((v, behind)) => r matches Ok(x) && x@ == v && rest == behind,
        Err((e, behind)) => r matches Err(x) && x@ == e && rest == behind,
    }
}

/// A parser over the tokens of one source text, each with its span.
pub struct Parser {
    tokens: Vec<(Token, Span)>,
    pos: usize,
}

impl Parser {
    /// The number of tokens.
    pub closed spec fn len(&self) -> nat {
        self.tokens@.len()
    }

    /// The number of tokens that are consumed.
    pub closed spec fn position(&self) -> nat {
        self.pos as nat
    }

    /// The spans of the tokens.
    pub closed spec fn spans(&self) -> Seq<Span> {
        Seq::new(self.tokens@.len(), |i: int| self.tokens@[i].1)
    }

    /// The tokens that are left.
    pub closed spec fn rest(&self) -> Input {
        self.tokens@.skip(self.pos as int)
    }

    /// The position lies within the tokens, and every span has an end.
    pub closed spec fn wf(&self) -> bool {
        &&& self.pos <= self.tokens@.len()
        &&& forall|i: int| 0 <= i < self.tokens@.len() ==> (#[trigger] self.tokens@[i]).1.wf()
    }

    /// What every step of the parser keeps: the tokens stay in place, and
    /// the position does not move back.
    pub open spec fn follows(&self, before: &Parser) -> bool {
        &&& self.wf()
        &&& self.len() == before.len()
        &&& self.spans() == before.spans()
        &&& self.position() >= before.position()
        &&& self.rest().len() == self.len() - self.position()
        &&& before.rest().len() == before.len() - before.position()
    }

    /// A parser at the first of the tokens. A token whose span has no end
    /// gets the empty span at the end of the input.
    pub fn new(lexer: Vec<(Token, Span)>) -> (p: Parser)
        ensures
            p.wf(),
            p.len() == lexer@.len(),
            p.position() == 0,
            p.rest() == with_ends(lexer@),
    {
        let mut tokens = lexer;
        let mut i: usize = 0;
        while i < tokens.len()
            invariant
                i <= tokens@.len(),
                tokens@.len() == lexer@.len(),
                forall|k: int| 0 <= k < i ==> #[trigger] tokens@[k] == with_ends(lexer@)[k],
                forall|k: int| i <= k < tokens@.len() ==> #[trigger] tokens@[k] == lexer@[k],
            decreases tokens@.len() - i,
        {
            let span = tokens[i].1;
            if span.len > usize::MAX - span.idx {
                let mut slot = (Token::Error, Span::eof());
                core::mem::swap(&mut slot, &mut tokens[i]);
                tokens.set(i, (slot.0, Span::eof()));
            }
            i = i + 1;
        }
        let p = Parser { tokens, pos: 0 };
        assert(p.rest() =~= with_ends(lexer@));
        p
    }

    /// Parses a program: the functions and the declarations of globals
    /// that the tokens begin with. Gives the program that the grammar
    /// gives, or its failure.
    pub fn parse(&mut self) -> (r: Result<Program, ParseError>)
        requires
            old(self).wf(),
        ensures
            final(self).follows(old(self)),
            agrees(program_of(old(self).rest()), r, final(self).rest()),
    {
        self.parse_program()
    }

    fn peek(&self) -> (r: Option<&Token>)
        requires
            self.wf(),
        ensures
            r is Some <==> self.rest().len() > 0,
            r matches Some(t) ==> *t == self.rest()[0].0,
            self.rest().len() == self.len() - self.position(),
    {
        if self.pos < self.tokens.len() {
            Some(&self.tokens[self.pos].0)
        } else {
            None
        }
    }

    fn peek_span(&self) -> (r: Option<Span>)
        requires
            self.wf(),
        ensures
            r == next_span(self.rest()),
            r matches Some(s) ==> s.wf(),
    {
        if self.pos < self.tokens.len() {
            Some(self.tokens[self.pos].1)
        } else {
            None
        }
    }

    fn is_next(&self, want: Expected) -> (r: bool)
        requires
            self.wf(),
        ensures
            r ==> self.position() < self.len(),
            r == next_is(self.rest(), want),
    {
        match self.peek() {
            Some(t) => token_is(t, want),
            None => false,
        }
    }

    fn next(&mut self) -> (r: Option<(Token, Span)>)
        requires
            old(self).wf(),
        ensures
            final(self).follows(old(self)),
            match r {
                Some(found) => old(self).rest().len() > 0 && found == old(self).rest()[0] && final(self).rest() == old(self).rest().skip(1) && final(self).position() == old(self).position() + 1 && found.1.wf(),
                None => old(self).rest().len() == 0 && final(self).rest() == old(self).rest()
                    && final(self).position() == old(self).position(),
            },
    {
        if self.pos < self.tokens.len() {
            let span = self.tokens[self.pos].1;
            let mut slot = (Token::Error, span);
            core::mem::swap(&mut slot, &mut self.tokens[self.pos]);
            self.pos = self.pos + 1;
            assert(self.spans() =~= old(self).spans());
            assert(self.rest() =~= old(self).rest().skip(1));
            Some(slot)
        } else {
            None
        }
    }

    fn expect(&mut self, want: Expected) -> (r: Result<(Token, Span), ParseError>)
        requires
            old(self).wf(),
        ensures
            final(self).follows(old(self)),
            match g_expect(old(self).rest(), want) {
                Ok((found, behind)) => r matches Ok(x) && x == found && final(self).rest() == behind
                    && final(self).position() == old(self).position() + 1 && x.1.wf(),
                Err((e, behind)) => r matches Err(x) && x@ == e && final(self).rest() == behind
                    && final(self).position() == old(self).position(),
            },
    {
        if self.is_next(want) {
            match self.next() {
                Some(found) => Ok(found),
                None => Err(ParseError::new(ParseErrorKind::UnexpectedEof, None)),
            }
        } else {
            let span = self.peek_span();
            Err(ParseError::new(ParseErrorKind::ExpectedPattern(expected_name(want)), span))
        }
    }

    fn parse_program(&mut self) -> (r: Result<Program, ParseError>)
        requires
            old(self).wf(),
        ensures
            final(self).follows(old(self)),
            agrees(program_of(old(self).rest()), r, final(self).rest()),
    {
        let mut funcs: Vec<FuncStmt> = Vec::new();
        let mut decls: Vec<DeclStmt> = Vec::new();
        assert(decl_views(decls@) =~= Seq::<DeclView>::empty());
        assert(func_views(funcs@) =~= Seq::<FuncView>::empty());
        loop
            invariant
                self.follows(old(self)),
                program_of(old(self).rest()) == g_program(
                    self.rest(),
                    decl_views(decls@),
                    func_views(funcs@),
                ),
            ensures
                !next_is(self.rest(), Expected::FnKw),
                !next_is(self.rest(), Expected::LetKw),
                !next_is(self.rest(), Expected::ConstKw),
            decreases self.len() - self.position(),
        {
            if self.is_next(Expected::FnKw) {
                let res = self.parse_fn_decl()?;
                assert(func_views(funcs@.push(res)) =~= func_views(funcs@).push(res@));
                funcs.push(res);
            } else if self.is_next(Expected::LetKw) {
                let res = self.parse_decl()?;
                assert(decl_views(decls@.push(res)) =~= decl_views(decls@).push(res@));
                decls.push(res);
            } else if self.is_next(Expected::ConstKw) {
                let res = self.parse_const_decl()?;
                assert(decl_views(decls@.push(res)) =~= decl_views(decls@).push(res@));
                decls.push(res);
            } else {
                break ;
            }
        }
        Ok(Program { decls, funcs })
    }

    fn parse_ident(&mut self) -> (r: Result<Ident, ParseError>)
        requires
            old(self).wf(),
        ensures
            final(self).follows(old(self)),
            r is Ok ==> final(self).position() > old(self).position(),
            r matches Ok(i) ==> i.span.wf(),
            agrees(g_ident(old(self).rest()), r, final(self).rest()),
    {
        let (name, name_span) = self.expect(Expected::Ident)?;
        match name.get_ident_owned() {
            Some(name) => Ok(Ident { span: name_span, name }),
            None => Err(ParseError::new(ParseErrorKind::Dummy, Some(name_span))),
        }
    }

    fn parse_ty(&mut self) -> (r: Result<TyDef, ParseError>)
        requires
            old(self).wf(),
        ensures
            final(self).follows(old(self)),
            r is Ok ==> final(self).position() > old(self).position(),
            agrees(g_ty(old(self).rest()), r, final(self).rest()),
    {
        let (name, name_span) = self.expect(Expected::Ident)?;
        match name.get_ident_owned() {
            Some(name) => Ok(TyDef { span: name_span, name, params: None }),
            None => Err(ParseError::new(ParseErrorKind::Dummy, Some(name_span))),
        }
    }

    fn parse_decl(&mut self) -> (r: Result<DeclStmt, ParseError>)
        requires
            old(self).wf(),
        ensures
            final(self).follows(old(self)),
            r is Ok ==> final(self).position() > old(self).position(),
            agrees(g_decl(old(self).rest()), r, final(self).rest()),
        decreases old(self).len() - old(self).position(), 8nat,
    {
        let (_, start_span) = self.expect(Expected::LetKw)?;
        let ident = self.parse_ident()?;
        let _ = self.expect(Expected::Colon)?;
        let ty = self.parse_ty()?;
        let val = if self.is_next(Expected::Assign) {
            let _ = self.expect(Expected::Assign)?;
            Some(P(self.parse_expr()?))
        } else {
            None
        };
        let (_, end_span) = self.expect(Expected::Semicolon)?;
        Ok(DeclStmt { is_const: false, name: ident, val, ty, span: start_span.merge(end_span) })
    }

    fn parse_const_decl(&mut self) -> (r: Result<DeclStmt, ParseError>)
        requires
            old(self).wf(),
        ensures
            final(self).follows(old(self)),
            r is Ok ==> final(self).position() > old(self).position(),
            agrees(g_const_decl(old(self).rest()), r, final(self).rest()),
        decreases old(self).len() - old(self).position(), 8nat,
    {
        let (_, start_span) = self.expect(Expected::ConstKw)?;
        let ident = self.parse_ident()?;
        let _ = self.expect(Expected::Colon)?;
        let ty = self.parse_ty()?;
        let _ = self.expect(Expected::Assign)?;
        let val = P(self.parse_expr()?);
        let (_, end_span) = self.expect(Expected::Semicolon)?;
        Ok(
            DeclStmt {
                is_const: true,
                name: ident,
                val: Some(val),
                ty,
                span: start_span.merge(end_span),
            },
        )
    }

    /// The arguments of a call, between parentheses and separated by
    /// commas. Where the first argument cannot be parsed there are none.
    fn parse_func_call(&mut self, func: Ident) -> (r: Result<CallExpr, ParseError>)
        requires
            old(self).wf(),
        ensures
            final(self).follows(old(self)),
            r is Ok ==> final(self).position() > old(self).position(),
            match g_call(old(self).rest(), func@) {
                Ok((v, behind)) => r matches Ok(c) && Expr::Call(c)@ == v && final(self).rest()
                    == behind,
                Err((e, behind)) => r matches Err(x) && x@ == e && final(self).rest() == behind,
            },
        decreases old(self).len() - old(self).position(), 1nat,
    {
        let _ = self.expect(Expected::LParen)?;
        let mut params: Vec<Expr> = Vec::new();
        match self.parse_expr() {
            Ok(first) => {
                let ghost behind = self.rest();
                let ghost first_view = first@;
                params.push(first);
                assert(expr_views(params@) =~= seq![first_view]);
                while self.is_next(Expected::Comma)
                    invariant
                        self.follows(old(self)),
                        self.position() > old(self).position(),
                        g_call(old(self).rest(), func@) == g_call_end(
                            g_more_args(self.rest(), expr_views(params@)),
                            func@,
                        ),
                    decreases self.len() - self.position(),
                {
                    let _ = self.next();
                    let next = self.parse_expr()?;
                    assert(expr_views(params@.push(next)) =~= expr_views(params@).push(next@));
                    params.push(next);
                }
            },
            Err(_) => {},
        }
        let _ = self.expect(Expected::RParen)?;
        let call = CallExpr { span: Span::default(), func, params };
        proof {
            lemma_args_view(call, 0);
            assert(expr_views(call.params@).skip(0) =~= expr_views(call.params@));
        }
        Ok(call)
    }

    /// An item: a name, a call, a literal, or an expression in parentheses.
    fn parse_item(&mut self) -> (r: Result<Expr, ParseError>)
        requires
            old(self).wf(),
        ensures
            final(self).follows(old(self)),
            r is Ok ==> final(self).position() > old(self).position(),
            agrees(g_item(old(self).rest()), r, final(self).rest()),
        decreases old(self).len() - old(self).position(), 2nat,
    {
        let starts = match self.peek() {
            Some(t) => match t {
                Token::Ident(_)
                | Token::UIntLiteral(_)
                | Token::CharLiteral(_)
                | Token::FloatLiteral(_)
                | Token::StringLiteral(_)
                | Token::LParen => true,
                _ => false,
            },
            None => false,
        };
        if !starts {
            let span = match self.peek_span() {
                Some(s) => s,
                None => Span::eof(),
            };
            return Err(
                ParseError::new(
                    ParseErrorKind::ExpectedPattern(
                        String::from_str("Literal or Identifier or parenthesis"),
                    ),
                    Some(span),
                ),
            );
        }
        let (token, span) = match self.next() {
            Some(found) => found,
            None => {
                return Err(ParseError::new(ParseErrorKind::UnexpectedEof, None));
            },
        };
        match token {
            Token::Ident(name) => {
                let ident = Ident { span, name };
                if self.is_next(Expected::LParen) {
                    let call = self.parse_func_call(ident)?;
                    Ok(Expr::Call(call))
                } else {
                    Ok(Expr::Ident(ident))
                }
            },
            Token::UIntLiteral(i) => Ok(
                Expr::Literal(LiteralExpr { span, kind: LiteralKind::Integer(i) }),
            ),
            Token::CharLiteral(c) => Ok(
                Expr::Literal(LiteralExpr { span, kind: LiteralKind::Integer((c as u32) as u64) }),
            ),
            Token::FloatLiteral(f) => Ok(
                Expr::Literal(LiteralExpr { span, kind: LiteralKind::Float(f) }),
            ),
            Token::StringLiteral(s) => Ok(
                Expr::Literal(LiteralExpr { span, kind: LiteralKind::String(s) }),
            ),
            Token::LParen => {
                let expr = self.parse_expr()?;
                let _ = self.expect(Expected::RParen)?;
                Ok(expr)
            },
            _ => Err(
                ParseError::new(
                    ParseErrorKind::ExpectedPattern(
                        String::from_str("Literal or Identifier or parenthesis"),
                    ),
                    Some(span),
                ),
            ),
        }
    }

    /// A unary expression: minus signs, an item, and conversions behind it.
    fn parse_unary_expr(&mut self) -> (r: Result<Expr, ParseError>)
        requires
            old(self).wf(),
        ensures
            final(self).follows(old(self)),
            r is Ok ==> final(self).position() > old(self).position(),
            agrees(g_unary(old(self).rest()), r, final(self).rest()),
        decreases old(self).len() - old(self).position(), 3nat,
    {
        let mut negations: usize = 0;
        proof {
            lemma_minus_signs(self.rest());
        }
        while self.is_next(Expected::Minus)
            invariant
                self.follows(old(self)),
                negations <= self.position(),
                self.position() == old(self).position() + negations,
                minus_signs(old(self).rest()) == negations + minus_signs(self.rest()),
                negations <= old(self).rest().len(),
                self.rest() == old(self).rest().skip(negations as int),
            decreases self.len() - self.position(),
        {
            let _ = self.next();
            assert(old(self).rest().skip(negations as int).skip(1) =~= old(self).rest().skip(
                negations + 1,
            ));
            negations = negations + 1;
        }
        let mut item = self.parse_item()?;
        while negations > 0
            invariant
                self.follows(old(self)),
                self.position() > old(self).position(),
                g_unary(old(self).rest()) == g_as_chain(
                    self.rest(),
                    negated(item@, negations as nat),
                ),
            decreases negations,
        {
            item = Expr::Unary(UnaryExpr { span: Span::default(), op: UnaryOp::Neg, expr: P(item) });
            negations = negations - 1;
        }
        while self.is_next(Expected::AsKw)
            invariant
                self.follows(old(self)),
                self.position() > old(self).position(),
                g_unary(old(self).rest()) == g_as_chain(self.rest(), item@),
            decreases self.len() - self.position(),
        {
            let _ = self.next();
            let ty = self.parse_ty()?;
            item = Expr::As(AsExpr { span: Span::default(), val: P(item), ty });
        }
        Ok(item)
    }

    fn next_binds(&self, precedence: u32) -> (r: bool)
        requires
            self.wf(),
        ensures
            r == binds(self.rest(), precedence),
    {
        match self.peek() {
            Some(t) => t.is_binary_op() && t.precedence() >= precedence,
            None => false,
        }
    }

    fn next_binds_tighter(&self, op: &Token) -> (r: Option<u32>)
        requires
            self.wf(),
            op.spec_is_binary_op(),
        ensures
            r == tighter(self.rest(), *op),
            r matches Some(p) ==> binds(self.rest(), p),
    {
        match self.peek() {
            Some(x) => {
                if x.is_binary_op() && ((x.precedence() > op.precedence() && x.is_left_assoc())
                    || (x.precedence() == op.precedence() && !x.is_left_assoc())) {
                    Some(x.precedence())
                } else {
                    None
                }
            },
            None => None,
        }
    }

    /// The operators and operands behind `lhs` that bind at least as tightly
    /// as `precedence`, combined with it.
    fn parse_expr_opg(&mut self, lhs: Expr, precedence: u32) -> (r: Result<Expr, ParseError>)
        requires
            old(self).wf(),
        ensures
            final(self).follows(old(self)),
            r is Ok && binds(old(self).rest(), precedence) ==> final(self).position() > old(self).position(),
            agrees(g_opg(old(self).rest(), lhs@, precedence), r, final(self).rest()),
        decreases old(self).len() - old(self).position(), 4nat,
    {
        let mut left = lhs;
        while self.next_binds(precedence)
            invariant
                self.follows(old(self)),
                binds(old(self).rest(), precedence) ==> binds(self.rest(), precedence)
                    || self.position() > old(self).position(),
                g_opg(old(self).rest(), lhs@, precedence) == g_opg(self.rest(), left@, precedence),
            decreases self.len() - self.position(),
        {
            let ghost at_op = self.position();
            let ghost taken = self.rest().len();
            let ghost before = left@;
            let (op, _) = match self.next() {
                Some(found) => found,
                None => {
                    return Err(ParseError::new(ParseErrorKind::UnexpectedEof, None));
                },
            };
            let mut rhs = self.parse_unary_expr()?;
            loop
                invariant
                    self.follows(old(self)),
                    self.position() > at_op,
                    at_op >= old(self).position(),
                    op.spec_is_binary_op(),
                    taken == self.len() - at_op,
                    g_opg(old(self).rest(), lhs@, precedence) == g_opg_more(
                        g_tighter(self.rest(), rhs@, op),
                        before,
                        op,
                        precedence,
                        taken,
                    ),
                ensures
                    tighter(self.rest(), op) is None,
                decreases self.len() - self.position(),
            {
                match self.next_binds_tighter(&op) {
                    Some(op_precedence) => {
                        rhs = self.parse_expr_opg(rhs, op_precedence)?;
                    },
                    None => {
                        break ;
                    },
                }
            }
            left = combine_expr(left, rhs, op);
        }
        Ok(left)
    }

    fn parse_expr(&mut self) -> (r: Result<Expr, ParseError>)
        requires
            old(self).wf(),
        ensures
            final(self).follows(old(self)),
            r is Ok ==> final(self).position() > old(self).position(),
            agrees(g_expr(old(self).rest()), r, final(self).rest()),
        decreases old(self).len() - old(self).position(), 5nat,
    {
        let lhs = self.parse_unary_expr()?;
        self.parse_expr_opg(lhs, 0)
    }

    fn parse_expr_stmt(&mut self) -> (r: Result<Expr, ParseError>)
        requires
            old(self).wf(),
        ensures
            final(self).follows(old(self)),
            r is Ok ==> final(self).position() > old(self).position(),
            agrees(g_expr_stmt(old(self).rest()), r, final(self).rest()),
        decreases old(self).len() - old(self).position(), 6nat,
    {
        let expr = self.parse_expr()?;
        let _ = self.expect(Expected::Semicolon)?;
        Ok(expr)
    }

    fn parse_block(&mut self) -> (r: Result<BlockStmt, ParseError>)
        requires
            old(self).wf(),
        ensures
            final(self).follows(old(self)),
            r is Ok ==> final(self).position() > old(self).position(),
            r matches Ok(b) ==> b.span.wf(),
            agrees(g_block(old(self).rest()), r, final(self).rest()),
        decreases old(self).len() - old(self).position(), 7nat,
    {
        let (_, start_span) = self.expect(Expected::LBrace)?;
        let mut stmts: Vec<Stmt> = Vec::new();
        assert(stmt_views(stmts@) =~= Seq::<StmtView>::empty());
        while !self.is_next(Expected::RBrace)
            invariant
                self.follows(old(self)),
                self.position() > old(self).position(),
                start_span.wf(),
                g_block(old(self).rest()) == g_block_end(
                    g_stmts(self.rest(), stmt_views(stmts@)),
                    start_span,
                ),
            decreases self.len() - self.position(),
        {
            let stmt = self.parse_stmt()?;
            assert(stmt_views(stmts@.push(stmt)) =~= stmt_views(stmts@).push(stmt@));
            stmts.push(stmt);
        }
        let (_, end_span) = self.expect(Expected::RBrace)?;
        let block = BlockStmt { stmts, span: start_span.merge(end_span) };
        proof {
            lemma_stmts_view(block, 0);
            assert(stmt_views(block.stmts@).skip(0) =~= stmt_views(block.stmts@));
        }
        Ok(block)
    }

    fn parse_if_stmt(&mut self) -> (r: Result<IfStmt, ParseError>)
        requires
            old(self).wf(),
        ensures
            final(self).follows(old(self)),
            r is Ok ==> final(self).position() > old(self).position(),
            r matches Ok(s) ==> s.span.wf(),
            agrees(g_if(old(self).rest()), r, final(self).rest()),
        decreases old(self).len() - old(self).position(), 8nat,
    {
        let (_, start_span) = self.expect(Expected::IfKw)?;
        let cond = self.parse_expr()?;
        let if_block = self.parse_block()?;
        let mut span = start_span.merge(if_block.span);
        let else_block = if self.is_next(Expected::ElseKw) {
            let _ = self.expect(Expected::ElseKw)?;
            if self.is_next(Expected::IfKw) {
                let next = self.parse_if_stmt()?;
                span = span.merge(next.span);
                IfElseBlock::If(P(next))
            } else {
                let block = self.parse_block()?;
                span = span.merge(block.span);
                IfElseBlock::Block(P(block))
            }
        } else {
            IfElseBlock::Absent
        };
        Ok(IfStmt { span, cond: P(cond), if_block: P(if_block), else_block })
    }

    fn parse_while_stmt(&mut self) -> (r: Result<WhileStmt, ParseError>)
        requires
            old(self).wf(),
        ensures
            final(self).follows(old(self)),
            r is Ok ==> final(self).position() > old(self).position(),
            match g_while(old(self).rest()) {
                Ok((v, behind)) => r matches Ok(w) && Stmt::While(w)@ == v && final(self).rest()
                    == behind,
                Err((e, behind)) => r matches Err(x) && x@ == e && final(self).rest() == behind,
            },
        decreases old(self).len() - old(self).position(), 8nat,
    {
        let (_, start_span) = self.expect(Expected::WhileKw)?;
        let cond = self.parse_expr()?;
        let body = self.parse_block()?;
        let span = start_span.merge(body.span);
        Ok(WhileStmt { cond: P(cond), body: P(body), span })
    }

    fn parse_return_stmt(&mut self) -> (r: Result<ReturnStmt, ParseError>)
        requires
            old(self).wf(),
        ensures
            final(self).follows(old(self)),
            r is Ok ==> final(self).position() > old(self).position(),
            match g_return(old(self).rest()) {
                Ok((v, behind)) => r matches Ok(s) && Stmt::Return(s)@ == v && final(self).rest()
                    == behind,
                Err((e, behind)) => r matches Err(x) && x@ == e && final(self).rest() == behind,
            },
        decreases old(self).len() - old(self).position(), 8nat,
    {
        let (_, start_span) = self.expect(Expected::ReturnKw)?;
        let val = if !self.is_next(Expected::Semicolon) {
            Some(P(self.parse_expr()?))
        } else {
            None
        };
        let (_, end_span) = self.expect(Expected::Semicolon)?;
        Ok(ReturnStmt { val, span: start_span.merge(end_span) })
    }

    /// A break statement: the keyword and a semicolon. Gives the span of
    /// the keyword.
    pub fn parse_break_stmt(&mut self) -> (r: Result<Span, ParseError>)
        requires
            old(self).wf(),
        ensures
            final(self).follows(old(self)),
            r is Ok ==> final(self).position() == old(self).position() + 2,
            match g_keyword_stmt(old(self).rest(), Expected::BreakKw) {
                Ok((span, behind)) => r matches Ok(s) && s == span && final(self).rest() == behind,
                Err((e, behind)) => r matches Err(x) && x@ == e && final(self).rest() == behind,
            },
    {
        let (_, span) = self.expect(Expected::BreakKw)?;
        let _ = self.expect(Expected::Semicolon)?;
        Ok(span)
    }

    /// A continue statement: the keyword and a semicolon. Gives the span of
    /// the keyword.
    pub fn parse_continue_stmt(&mut self) -> (r: Result<Span, ParseError>)
        requires
            old(self).wf(),
        ensures
            final(self).follows(old(self)),
            r is Ok ==> final(self).position() == old(self).position() + 2,
            match g_keyword_stmt(old(self).rest(), Expected::ContinueKw) {
                Ok((span, behind)) => r matches Ok(s) && s == span && final(self).rest() == behind,
                Err((e, behind)) => r matches Err(x) && x@ == e && final(self).rest() == behind,
            },
    {
        let (_, span) = self.expect(Expected::ContinueKw)?;
        let _ = self.expect(Expected::Semicolon)?;
        Ok(span)
    }

    fn parse_stmt(&mut self) -> (r: Result<Stmt, ParseError>)
        requires
            old(self).wf(),
        ensures
            final(self).follows(old(self)),
            r is Ok ==> final(self).position() > old(self).position(),
            agrees(g_stmt(old(self).rest()), r, final(self).rest()),
        decreases old(self).len() - old(self).position(), 9nat,
    {
        let val = if self.is_next(Expected::ConstKw) {
            Stmt::Decl(self.parse_const_decl()?)
        } else if self.is_next(Expected::LetKw) {
            Stmt::Decl(self.parse_decl()?)
        } else if self.is_next(Expected::LBrace) {
            Stmt::Block(self.parse_block()?)
        } else if self.is_next(Expected::IfKw) {
            Stmt::If(self.parse_if_stmt()?)
        } else if self.is_next(Expected::WhileKw) {
            Stmt::While(self.parse_while_stmt()?)
        } else if self.is_next(Expected::BreakKw) {
            Stmt::Break(self.parse_break_stmt()?)
        } else if self.is_next(Expected::ContinueKw) {
            Stmt::Continue(self.parse_continue_stmt()?)
        } else if self.is_next(Expected::ReturnKw) {
            Stmt::Return(self.parse_return_stmt()?)
        } else if self.is_next(Expected::Semicolon) {
            match self.next() {
                Some((_, span)) => Stmt::Empty(span),
                None => {
                    return Err(ParseError::new(ParseErrorKind::UnexpectedEof, None));
                },
            }
        } else {
            Stmt::Expr(self.parse_expr_stmt()?)
        };
        Ok(val)
    }

    fn parse_fn_decl(&mut self) -> (r: Result<FuncStmt, ParseError>)
        requires
            old(self).wf(),
        ensures
            final(self).follows(old(self)),
            r is Ok ==> final(self).position() > old(self).position(),
            agrees(g_fn_decl(old(self).rest()), r, final(self).rest()),
        decreases old(self).len() - old(self).position(), 10nat,
    {
        let (_, start_span) = self.expect(Expected::FnKw)?;
        let fn_name = self.parse_ident()?;
        let _ = self.expect(Expected::LParen)?;
        let mut params: Vec<FuncParam> = Vec::new();
        assert(param_views(params@) =~= Seq::<ParamView>::empty());
        if self.is_next(Expected::Ident) {
            let first = self.parse_param()?;
            assert(param_views(params@.push(first)) =~= seq![first@]);
            params.push(first);
            while self.is_next(Expected::Comma)
                invariant
                    self.follows(old(self)),
                    self.position() > old(self).position(),
                    start_span.wf(),
                    g_fn_decl(old(self).rest()) == g_fn_end(
                        g_more_params(self.rest(), param_views(params@)),
                        start_span,
                        fn_name@,
                    ),
                decreases self.len() - self.position(),
            {
                let _ = self.expect(Expected::Comma)?;
                let next = self.parse_param()?;
                assert(param_views(params@.push(next)) =~= param_views(params@).push(next@));
                params.push(next);
            }
        }
        let _ = self.expect(Expected::RParen)?;
        let _ = self.expect(Expected::Arrow)?;
        let ret_ty = self.parse_ty()?;
        let body = self.parse_block()?;
        let span = start_span.merge(body.span);
        Ok(FuncStmt { name: fn_name, params, ret_ty, body, span })
    }

    fn parse_param(&mut self) -> (r: Result<FuncParam, ParseError>)
        requires
            old(self).wf(),
        ensures
            final(self).follows(old(self)),
            r is Ok ==> final(self).position() > old(self).position(),
            agrees(g_param(old(self).rest()), r, final(self).rest()),
    {
        let param_name = self.parse_ident()?;
        let _ = self.expect(Expected::Colon)?;
        let param_ty = self.parse_ty()?;
        Ok(FuncParam { is_const: false, name: param_name, ty: param_ty })
    }
}

} // verus!
