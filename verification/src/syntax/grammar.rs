//! The grammar of r0, as a function from the tokens of a source text to its
//! syntax tree.
//!
//! Every rule takes the tokens that are left and gives what it has read
//! with the tokens behind it, or its failure with the tokens at which the
//! failure came. A rule reads from the front: the tokens that it leaves
//! are a rest of the tokens that it took.

use crate::syntax::ast::{BinaryOp, UnaryOp};
use crate::syntax::parser::err::{ParseErrorKindView, ParseErrorView};
use crate::syntax::parser::{spec_expected_name, spec_token_is, Expected};
use crate::syntax::span::{merged, Span};
use crate::syntax::token::Token;
use crate::syntax::view::{
    BlockView, DeclView, ElseView, ExprView, FuncView, IdentView, IfView, LiteralView, ParamView,
    ProgramView, StmtView, TyDefView,
};
use vstd::prelude::*;

verus! {

/// The tokens that are left, each with its span.
pub type Input = Seq<(Token, Span)>;

/// What a rule gives.
pub type Parsed<T> = Result<(T, Input), (ParseErrorView, Input)>;

/// The failure of a rule at the tokens that are left.
pub open spec fn failed<T>(kind: ParseErrorKindView, span: Option<Span>, input: Input) -> Parsed<T> {
    Err((ParseErrorView { kind, span }, input))
}

/// Whether the next token is of the kind asked for.
pub open spec fn next_is(input: Input, want: Expected) -> bool {
    input.len() > 0 && spec_token_is(input[0].0, want)
}

/// The span of the next token, if there is one.
pub open spec fn next_span(input: Input) -> Option<Span> {
    if input.len() > 0 {
        Some(input[0].1)
    } else {
        None
    }
}

/// The next token, where it is of the kind asked for.
pub open spec fn g_expect(input: Input, want: Expected) -> Parsed<(Token, Span)> {
    if next_is(input, want) {
        Ok((input[0], input.skip(1)))
    } else {
        failed(
            ParseErrorKindView::ExpectedPattern(spec_expected_name(want)),
            next_span(input),
            input,
        )
    }
}

/// A name.
pub open spec fn g_ident(input: Input) -> Parsed<IdentView> {
    match g_expect(input, Expected::Ident) {
        Ok(((token, span), rest)) => match token {
            Token::Ident(name) => Ok((IdentView { span, name: name@ }, rest)),
            _ => failed(ParseErrorKindView::Dummy, Some(span), rest),
        },
        Err(e) => Err(e),
    }
}

/// The name of a type.
pub open spec fn g_ty(input: Input) -> Parsed<TyDefView> {
    match g_expect(input, Expected::Ident) {
        Ok(((token, span), rest)) => match token {
            Token::Ident(name) => Ok((TyDefView { span, name: name@, params: None }, rest)),
            _ => failed(ParseErrorKindView::Dummy, Some(span), rest),
        },
        Err(e) => Err(e),
    }
}

/// The span of what stands for no source text.
pub open spec fn no_span() -> Span {
    Span { idx: 0, len: 0 }
}

/// The span at the end of the input.
pub open spec fn eof_span() -> Span {
    Span { idx: usize::MAX, len: 0 }
}

/// Whether an item can begin with the token.
pub open spec fn starts_item(t: Token) -> bool {
    t is Ident || t is UIntLiteral || t is CharLiteral || t is FloatLiteral || t is StringLiteral
        || t is LParen
}

/// The failure of an item that begins with no token of an item.
pub open spec fn no_item<T>(span: Span, input: Input) -> Parsed<T> {
    failed(
        ParseErrorKindView::ExpectedPattern("Literal or Identifier or parenthesis"@),
        Some(span),
        input,
    )
}

/// The failure of a rule that would go on with more tokens than it took.
/// No rule does: see the lemmas on what the rules leave.
pub open spec fn overrun<T>(input: Input) -> Parsed<T> {
    failed(ParseErrorKindView::Dummy, None, input)
}

/// The arguments of a call behind the first: each behind a comma.
pub open spec fn g_more_args(input: Input, before: Seq<ExprView>) -> Parsed<Seq<ExprView>>
    decreases input.len(), 0nat,
{
    if next_is(input, Expected::Comma) {
        match g_expr(input.skip(1)) {
            Ok((arg, rest)) => if rest.len() < input.len() {
                g_more_args(rest, before.push(arg))
            } else {
                overrun(rest)
            },
            Err(e) => Err(e),
        }
    } else {
        Ok((before, input))
    }
}

/// The call of a named function with the given arguments: the closing
/// parenthesis stands behind them.
pub open spec fn g_call_end(args: Parsed<Seq<ExprView>>, func: IdentView) -> Parsed<ExprView> {
    match args {
        Err(e) => Err(e),
        Ok((params, behind)) => match g_expect(behind, Expected::RParen) {
            Err(e) => Err(e),
            Ok((_, end)) => Ok((ExprView::Call { span: no_span(), func, params }, end)),
        },
    }
}

/// The call of a named function: the arguments between parentheses and
/// separated by commas. Where no expression follows the opening
/// parenthesis, there are no arguments, and the closing parenthesis is
/// looked for behind what was read of it.
pub open spec fn g_call(input: Input, func: IdentView) -> Parsed<ExprView>
    decreases input.len(), 1nat,
{
    match g_expect(input, Expected::LParen) {
        Err(e) => Err(e),
        Ok((_, rest)) => g_call_end(
            match g_expr(rest) {
                Ok((first, behind)) => if behind.len() < input.len() {
                    g_more_args(behind, seq![first])
                } else {
                    overrun(behind)
                },
                Err((_, behind)) => Ok((Seq::empty(), behind)),
            },
            func,
        ),
    }
}

/// An item: a name, a call, a literal, or an expression in parentheses.
/// A character literal stands for its code.
pub open spec fn g_item(input: Input) -> Parsed<ExprView>
    decreases input.len(), 2nat,
{
    if input.len() == 0 {
        no_item(eof_span(), input)
    } else if !starts_item(input[0].0) {
        no_item(input[0].1, input)
    } else {
        let span = input[0].1;
        let rest = input.skip(1);
        match input[0].0 {
            Token::Ident(name) => if next_is(rest, Expected::LParen) {
                g_call(rest, IdentView { span, name: name@ })
            } else {
                Ok((ExprView::Ident(IdentView { span, name: name@ }), rest))
            },
            Token::UIntLiteral(i) => Ok(
                (ExprView::Literal { span, kind: LiteralView::Integer(i) }, rest),
            ),
            Token::CharLiteral(c) => Ok(
                (ExprView::Literal { span, kind: LiteralView::Integer(c as u32 as u64) }, rest),
            ),
            Token::FloatLiteral(f) => Ok(
                (ExprView::Literal { span, kind: LiteralView::Float(f) }, rest),
            ),
            Token::StringLiteral(s) => Ok(
                (ExprView::Literal { span, kind: LiteralView::String(s@) }, rest),
            ),
            Token::LParen => match g_expr(rest) {
                Ok((e, behind)) => match g_expect(behind, Expected::RParen) {
                    Ok((_, end)) => Ok((e, end)),
                    Err(e) => Err(e),
                },
                Err(e) => Err(e),
            },
            _ => no_item(span, rest),
        }
    }
}

/// The number of minus signs that the input begins with.
pub open spec fn minus_signs(input: Input) -> nat
    decreases input.len(),
{
    if next_is(input, Expected::Minus) {
        1 + minus_signs(input.skip(1))
    } else {
        0
    }
}

/// An expression under `n` minus signs.
pub open spec fn negated(e: ExprView, n: nat) -> ExprView
    decreases n,
{
    if n == 0 {
        e
    } else {
        negated(
            ExprView::Unary { span: no_span(), op: UnaryOp::Neg, expr: Box::new(e) },
            (n - 1) as nat,
        )
    }
}

/// The conversions behind an item, each `as` and the name of a type: the
/// first one is applied first.
pub open spec fn g_as_chain(input: Input, item: ExprView) -> Parsed<ExprView>
    decreases input.len(),
{
    if next_is(input, Expected::AsKw) {
        match g_ty(input.skip(1)) {
            Ok((ty, rest)) => if rest.len() < input.len() {
                g_as_chain(rest, ExprView::As { span: no_span(), val: Box::new(item), ty })
            } else {
                overrun(rest)
            },
            Err(e) => Err(e),
        }
    } else {
        Ok((item, input))
    }
}

/// A unary expression: minus signs, an item, and conversions behind it.
/// The minus signs apply to the item, the conversions to the result.
pub open spec fn g_unary(input: Input) -> Parsed<ExprView>
    decreases input.len(), 3nat,
{
    let n = minus_signs(input);
    if n > input.len() {
        overrun(input)
    } else {
        match g_item(input.skip(n as int)) {
            Ok((item, rest)) => g_as_chain(rest, negated(item, n)),
            Err(e) => Err(e),
        }
    }
}

/// Whether the next token is a binary operator that binds at least as
/// tightly as `precedence`.
pub open spec fn binds(input: Input, precedence: u32) -> bool {
    input.len() > 0 && input[0].0.spec_is_binary_op() && input[0].0.spec_precedence() >= precedence
}

/// How tightly the next token binds, where it is a binary operator that
/// takes the operand behind `op` for itself: one that binds tighter than
/// `op` and groups from the left, or one that binds as tightly and groups
/// from the right.
pub open spec fn tighter(input: Input, op: Token) -> Option<u32> {
    if input.len() > 0 && input[0].0.spec_is_binary_op() && ((input[0].0.spec_precedence()
        > op.spec_precedence() && !(input[0].0 is Assign)) || (input[0].0.spec_precedence()
        == op.spec_precedence() && input[0].0 is Assign)) {
        Some(input[0].0.spec_precedence())
    } else {
        None
    }
}

/// The operator of the syntax tree that an operator token stands for.
pub open spec fn binary_op_of(op: Token) -> Option<BinaryOp> {
    match op {
        Token::Plus => Some(BinaryOp::Add),
        Token::Minus => Some(BinaryOp::Sub),
        Token::Mul => Some(BinaryOp::Mul),
        Token::Div => Some(BinaryOp::Div),
        Token::Gt => Some(BinaryOp::Gt),
        Token::Lt => Some(BinaryOp::Lt),
        Token::Ge => Some(BinaryOp::Ge),
        Token::Le => Some(BinaryOp::Le),
        Token::Eq => Some(BinaryOp::Eq),
        Token::Neq => Some(BinaryOp::Neq),
        _ => None,
    }
}

/// Two operands under an operator: the assignment sign makes an
/// assignment, every other operator a binary expression.
pub open spec fn combined(lhs: ExprView, rhs: ExprView, op: Token) -> ExprView {
    match binary_op_of(op) {
        Some(op) => ExprView::Binary {
            span: no_span(),
            op,
            lhs: Box::new(lhs),
            rhs: Box::new(rhs),
        },
        None => ExprView::Assign {
            span: no_span(),
            allow_assign_const: false,
            lhs: Box::new(lhs),
            rhs: Box::new(rhs),
        },
    }
}

/// The operators and operands behind `lhs` that bind at least as tightly
/// as `precedence`, combined with it: behind each operator stands a unary
/// expression, which the operators behind it that are `tighter` take for
/// themselves first.
pub open spec fn g_opg(input: Input, lhs: ExprView, precedence: u32) -> Parsed<ExprView>
    decreases input.len(), 4nat,
{
    if !binds(input, precedence) {
        Ok((lhs, input))
    } else {
        match g_unary(input.skip(1)) {
            Err(e) => Err(e),
            Ok((operand, rest)) => if rest.len() < input.len() {
                g_opg_more(
                    g_tighter(rest, operand, input[0].0),
                    lhs,
                    input[0].0,
                    precedence,
                    input.len(),
                )
            } else {
                overrun(rest)
            },
        }
    }
}

/// `lhs` and the operand of `op` combined, and the operators and operands
/// behind them. `taken` counts the tokens from `op` on.
pub open spec fn g_opg_more(
    operand: Parsed<ExprView>,
    lhs: ExprView,
    op: Token,
    precedence: u32,
    taken: nat,
) -> Parsed<ExprView>
    decreases taken, 3nat,
{
    match operand {
        Err(e) => Err(e),
        Ok((rhs, behind)) => if behind.len() < taken {
            g_opg(behind, combined(lhs, rhs, op), precedence)
        } else {
            overrun(behind)
        },
    }
}

/// The operand behind `op` with the operators behind it that take it for
/// themselves.
pub open spec fn g_tighter(input: Input, operand: ExprView, op: Token) -> Parsed<ExprView>
    decreases input.len(), 5nat,
{
    match tighter(input, op) {
        Some(precedence) => match g_opg(input, operand, precedence) {
            Err(e) => Err(e),
            Ok((rhs, rest)) => if rest.len() < input.len() {
                g_tighter(rest, rhs, op)
            } else {
                overrun(rest)
            },
        },
        None => Ok((operand, input)),
    }
}

/// An expression: a unary expression, and the operators and operands
/// behind it.
pub open spec fn g_expr(input: Input) -> Parsed<ExprView>
    decreases input.len(), 6nat,
{
    match g_unary(input) {
        Ok((lhs, rest)) => if rest.len() <= input.len() {
            g_opg(rest, lhs, 0)
        } else {
            overrun(rest)
        },
        Err(e) => Err(e),
    }
}

/// What holds of the tokens that a rule leaves: behind what the rule has
/// read there are fewer tokens than it took; at a failure, no more.
pub open spec fn shrinks<T>(r: Parsed<T>, input: Input) -> bool {
    match r {
        Ok((_, rest)) => rest.len() < input.len(),
        Err((_, rest)) => rest.len() <= input.len(),
    }
}

/// What holds of the tokens that a rule leaves that may read nothing: no
/// more than it took.
pub open spec fn keeps<T>(r: Parsed<T>, input: Input) -> bool {
    match r {
        Ok((_, rest)) => rest.len() <= input.len(),
        Err((_, rest)) => rest.len() <= input.len(),
    }
}

/// The input without its minus signs in front is no longer than the input.
pub proof fn lemma_minus_signs(input: Input)
    ensures
        minus_signs(input) <= input.len(),
    decreases input.len(),
{
    if next_is(input, Expected::Minus) {
        lemma_minus_signs(input.skip(1));
    }
}

/// The conversions behind an item leave no more tokens than they took.
pub proof fn lemma_as_chain_rest(input: Input, item: ExprView)
    ensures
        keeps(g_as_chain(input, item), input),
    decreases input.len(),
{
    if next_is(input, Expected::AsKw) {
        match g_ty(input.skip(1)) {
            Ok((ty, rest)) => {
                lemma_as_chain_rest(
                    rest,
                    ExprView::As { span: no_span(), val: Box::new(item), ty },
                );
            },
            Err(_) => {},
        }
    }
}

/// The arguments behind the first leave no more tokens than they took.
pub proof fn lemma_more_args_rest(input: Input, before: Seq<ExprView>)
    ensures
        keeps(g_more_args(input, before), input),
    decreases input.len(), 0nat,
{
    if next_is(input, Expected::Comma) {
        lemma_expr_rest(input.skip(1));
        match g_expr(input.skip(1)) {
            Ok((arg, rest)) => {
                lemma_more_args_rest(rest, before.push(arg));
            },
            Err(_) => {},
        }
    }
}

/// A call leaves fewer tokens than it took.
pub proof fn lemma_call_rest(input: Input, func: IdentView)
    ensures
        shrinks(g_call(input, func), input),
    decreases input.len(), 1nat,
{
    if next_is(input, Expected::LParen) {
        lemma_expr_rest(input.skip(1));
        match g_expr(input.skip(1)) {
            Ok((first, behind)) => {
                lemma_more_args_rest(behind, seq![first]);
            },
            Err(_) => {},
        }
    }
}

/// An item leaves fewer tokens than it took.
pub proof fn lemma_item_rest(input: Input)
    ensures
        shrinks(g_item(input), input),
    decreases input.len(), 2nat,
{
    if input.len() > 0 && starts_item(input[0].0) {
        let rest = input.skip(1);
        match input[0].0 {
            Token::Ident(name) => {
                if next_is(rest, Expected::LParen) {
                    lemma_call_rest(rest, IdentView { span: input[0].1, name: name@ });
                }
            },
            Token::LParen => {
                lemma_expr_rest(rest);
            },
            _ => {},
        }
    }
}

/// A unary expression leaves fewer tokens than it took.
pub proof fn lemma_unary_rest(input: Input)
    ensures
        shrinks(g_unary(input), input),
    decreases input.len(), 3nat,
{
    lemma_minus_signs(input);
    let n = minus_signs(input);
    lemma_item_rest(input.skip(n as int));
    match g_item(input.skip(n as int)) {
        Ok((item, rest)) => {
            lemma_as_chain_rest(rest, negated(item, n));
        },
        Err(_) => {},
    }
}

/// The operators and operands behind an operand leave no more tokens than
/// they took, and fewer where there is an operator that binds.
pub proof fn lemma_opg_rest(input: Input, lhs: ExprView, precedence: u32)
    ensures
        keeps(g_opg(input, lhs, precedence), input),
        binds(input, precedence) ==> shrinks(g_opg(input, lhs, precedence), input),
    decreases input.len(), 4nat,
{
    if binds(input, precedence) {
        let op = input[0].0;
        lemma_unary_rest(input.skip(1));
        match g_unary(input.skip(1)) {
            Ok((operand, rest)) => {
                lemma_tighter_rest(rest, operand, op);
                match g_tighter(rest, operand, op) {
                    Ok((rhs, behind)) => {
                        lemma_opg_rest(behind, combined(lhs, rhs, op), precedence);
                    },
                    Err(_) => {},
                }
            },
            Err(_) => {},
        }
    }
}

/// An operand with the operators that take it for themselves leaves no
/// more tokens than it took.
pub proof fn lemma_tighter_rest(input: Input, operand: ExprView, op: Token)
    ensures
        keeps(g_tighter(input, operand, op), input),
    decreases input.len(), 5nat,
{
    match tighter(input, op) {
        Some(precedence) => {
            lemma_opg_rest(input, operand, precedence);
            match g_opg(input, operand, precedence) {
                Ok((rhs, rest)) => {
                    lemma_tighter_rest(rest, rhs, op);
                },
                Err(_) => {},
            }
        },
        None => {},
    }
}

/// An expression leaves fewer tokens than it took.
pub proof fn lemma_expr_rest(input: Input)
    ensures
        shrinks(g_expr(input), input),
    decreases input.len(), 6nat,
{
    lemma_unary_rest(input);
    match g_unary(input) {
        Ok((lhs, rest)) => {
            lemma_opg_rest(rest, lhs, 0);
        },
        Err(_) => {},
    }
}

/// A declaration of a variable: `let`, the name, a colon, the name of the
/// type, an initializer behind an assignment sign if there is one, and a
/// semicolon.
pub open spec fn g_decl(input: Input) -> Parsed<DeclView> {
    match g_expect(input, Expected::LetKw) {
        Err(e) => Err(e),
        Ok(((_, start), r1)) => match g_ident(r1) {
            Err(e) => Err(e),
            Ok((name, r2)) => match g_expect(r2, Expected::Colon) {
                Err(e) => Err(e),
                Ok((_, r3)) => match g_ty(r3) {
                    Err(e) => Err(e),
                    Ok((ty, r4)) => {
                        let init: Parsed<Option<ExprView>> = if next_is(r4, Expected::Assign) {
                            match g_expr(r4.skip(1)) {
                                Ok((e, r5)) => Ok((Some(e), r5)),
                                Err(e) => Err(e),
                            }
                        } else {
                            Ok((None, r4))
                        };
                        match init {
                            Err(e) => Err(e),
                            Ok((val, r6)) => match g_expect(r6, Expected::Semicolon) {
                                Err(e) => Err(e),
                                Ok(((_, end), r7)) => Ok(
                                    (
                                        DeclView {
                                            is_const: false,
                                            name,
                                            ty,
                                            val,
                                            span: merged(start, end),
                                        },
                                        r7,
                                    ),
                                ),
                            },
                        }
                    },
                },
            },
        },
    }
}

/// A declaration of a constant: `const`, the name, a colon, the name of
/// the type, an assignment sign, the value, and a semicolon.
pub open spec fn g_const_decl(input: Input) -> Parsed<DeclView> {
    match g_expect(input, Expected::ConstKw) {
        Err(e) => Err(e),
        Ok(((_, start), r1)) => match g_ident(r1) {
            Err(e) => Err(e),
            Ok((name, r2)) => match g_expect(r2, Expected::Colon) {
                Err(e) => Err(e),
                Ok((_, r3)) => match g_ty(r3) {
                    Err(e) => Err(e),
                    Ok((ty, r4)) => match g_expect(r4, Expected::Assign) {
                        Err(e) => Err(e),
                        Ok((_, r5)) => match g_expr(r5) {
                            Err(e) => Err(e),
                            Ok((val, r6)) => match g_expect(r6, Expected::Semicolon) {
                                Err(e) => Err(e),
                                Ok(((_, end), r7)) => Ok(
                                    (
                                        DeclView {
                                            is_const: true,
                                            name,
                                            ty,
                                            val: Some(val),
                                            span: merged(start, end),
                                        },
                                        r7,
                                    ),
                                ),
                            },
                        },
                    },
                },
            },
        },
    }
}

/// An expression as a statement: the expression and a semicolon.
pub open spec fn g_expr_stmt(input: Input) -> Parsed<ExprView> {
    match g_expr(input) {
        Err(e) => Err(e),
        Ok((e, rest)) => match g_expect(rest, Expected::Semicolon) {
            Err(e) => Err(e),
            Ok((_, behind)) => Ok((e, behind)),
        },
    }
}

/// A return: `return`, a value if a semicolon does not follow at once, and
/// a semicolon.
pub open spec fn g_return(input: Input) -> Parsed<StmtView> {
    match g_expect(input, Expected::ReturnKw) {
        Err(e) => Err(e),
        Ok(((_, start), rest)) => {
            let value: Parsed<Option<ExprView>> = if !next_is(rest, Expected::Semicolon) {
                match g_expr(rest) {
                    Ok((e, behind)) => Ok((Some(e), behind)),
                    Err(e) => Err(e),
                }
            } else {
                Ok((None, rest))
            };
            match value {
                Err(e) => Err(e),
                Ok((val, behind)) => match g_expect(behind, Expected::Semicolon) {
                    Err(e) => Err(e),
                    Ok(((_, end), left)) => Ok(
                        (StmtView::Return { val, span: merged(start, end) }, left),
                    ),
                },
            }
        },
    }
}

/// A keyword and a semicolon. Gives the span of the keyword.
pub open spec fn g_keyword_stmt(input: Input, keyword: Expected) -> Parsed<Span> {
    match g_expect(input, keyword) {
        Err(e) => Err(e),
        Ok(((_, span), rest)) => match g_expect(rest, Expected::Semicolon) {
            Err(e) => Err(e),
            Ok((_, behind)) => Ok((span, behind)),
        },
    }
}

/// A block: statements between braces.
pub open spec fn g_block(input: Input) -> Parsed<BlockView>
    decreases input.len(), 0nat,
{
    match g_expect(input, Expected::LBrace) {
        Err(e) => Err(e),
        Ok(((_, start), rest)) => g_block_end(g_stmts(rest, Seq::empty()), start),
    }
}

/// The block of the given statements that began at `start`: the closing
/// brace stands behind them.
pub open spec fn g_block_end(stmts: Parsed<Seq<StmtView>>, start: Span) -> Parsed<BlockView> {
    match stmts {
        Err(e) => Err(e),
        Ok((stmts, behind)) => match g_expect(behind, Expected::RBrace) {
            Err(e) => Err(e),
            Ok(((_, end), left)) => Ok((BlockView { span: merged(start, end), stmts }, left)),
        },
    }
}

/// The statements of a block behind those that are read, up to the closing
/// brace.
pub open spec fn g_stmts(input: Input, before: Seq<StmtView>) -> Parsed<Seq<StmtView>>
    decreases input.len(), 3nat,
{
    if next_is(input, Expected::RBrace) {
        Ok((before, input))
    } else {
        match g_stmt(input) {
            Err(e) => Err(e),
            Ok((stmt, rest)) => if rest.len() < input.len() {
                g_stmts(rest, before.push(stmt))
            } else {
                overrun(rest)
            },
        }
    }
}

/// A loop: `while`, the condition, and the body, a block.
pub open spec fn g_while(input: Input) -> Parsed<StmtView>
    decreases input.len(), 1nat,
{
    match g_expect(input, Expected::WhileKw) {
        Err(e) => Err(e),
        Ok(((_, start), rest)) => match g_expr(rest) {
            Err(e) => Err(e),
            Ok((cond, behind)) => if behind.len() < input.len() {
                match g_block(behind) {
                    Err(e) => Err(e),
                    Ok((body, left)) => Ok(
                        (StmtView::While { span: merged(start, body.span), cond, body }, left),
                    ),
                }
            } else {
                overrun(behind)
            },
        },
    }
}

/// A conditional statement: `if`, the condition, a block, and behind
/// `else`, if it follows, another conditional statement or a block.
pub open spec fn g_if(input: Input) -> Parsed<IfView>
    decreases input.len(), 1nat,
{
    match g_expect(input, Expected::IfKw) {
        Err(e) => Err(e),
        Ok(((_, start), rest)) => match g_expr(rest) {
            Err(e) => Err(e),
            Ok((cond, behind)) => if behind.len() < input.len() {
                match g_block(behind) {
                    Err(e) => Err(e),
                    Ok((if_block, left)) => {
                        let span = merged(start, if_block.span);
                        if !next_is(left, Expected::ElseKw) {
                            Ok((IfView { span, cond, if_block, else_block: ElseView::Absent }, left))
                        } else if left.len() > input.len() {
                            overrun(left)
                        } else if next_is(left.skip(1), Expected::IfKw) {
                            match g_if(left.skip(1)) {
                                Err(e) => Err(e),
                                Ok((next, end)) => Ok(
                                    (
                                        IfView {
                                            span: merged(span, next.span),
                                            cond,
                                            if_block,
                                            else_block: ElseView::If(Box::new(next)),
                                        },
                                        end,
                                    ),
                                ),
                            }
                        } else {
                            match g_block(left.skip(1)) {
                                Err(e) => Err(e),
                                Ok((block, end)) => Ok(
                                    (
                                        IfView {
                                            span: merged(span, block.span),
                                            cond,
                                            if_block,
                                            else_block: ElseView::Block(block),
                                        },
                                        end,
                                    ),
                                ),
                            }
                        }
                    },
                }
            } else {
                overrun(behind)
            },
        },
    }
}

/// A statement, told by its first token: a declaration, a block, a
/// conditional statement, a loop, a break, a continue, a return, the empty
/// statement, or else an expression.
pub open spec fn g_stmt(input: Input) -> Parsed<StmtView>
    decreases input.len(), 2nat,
{
    if next_is(input, Expected::ConstKw) {
        match g_const_decl(input) {
            Ok((d, rest)) => Ok((StmtView::Decl(d), rest)),
            Err(e) => Err(e),
        }
    } else if next_is(input, Expected::LetKw) {
        match g_decl(input) {
            Ok((d, rest)) => Ok((StmtView::Decl(d), rest)),
            Err(e) => Err(e),
        }
    } else if next_is(input, Expected::LBrace) {
        match g_block(input) {
            Ok((b, rest)) => Ok((StmtView::Block(b), rest)),
            Err(e) => Err(e),
        }
    } else if next_is(input, Expected::IfKw) {
        match g_if(input) {
            Ok((i, rest)) => Ok((StmtView::If(i), rest)),
            Err(e) => Err(e),
        }
    } else if next_is(input, Expected::WhileKw) {
        g_while(input)
    } else if next_is(input, Expected::BreakKw) {
        match g_keyword_stmt(input, Expected::BreakKw) {
            Ok((span, rest)) => Ok((StmtView::Break(span), rest)),
            Err(e) => Err(e),
        }
    } else if next_is(input, Expected::ContinueKw) {
        match g_keyword_stmt(input, Expected::ContinueKw) {
            Ok((span, rest)) => Ok((StmtView::Continue(span), rest)),
            Err(e) => Err(e),
        }
    } else if next_is(input, Expected::ReturnKw) {
        g_return(input)
    } else if next_is(input, Expected::Semicolon) {
        Ok((StmtView::Empty(input[0].1), input.skip(1)))
    } else {
        match g_expr_stmt(input) {
            Ok((e, rest)) => Ok((StmtView::Expr(e), rest)),
            Err(e) => Err(e),
        }
    }
}

/// A parameter of a function: the name, a colon, and the name of the type.
pub open spec fn g_param(input: Input) -> Parsed<ParamView> {
    match g_ident(input) {
        Err(e) => Err(e),
        Ok((name, r1)) => match g_expect(r1, Expected::Colon) {
            Err(e) => Err(e),
            Ok((_, r2)) => match g_ty(r2) {
                Err(e) => Err(e),
                Ok((ty, r3)) => Ok((ParamView { is_const: false, name, ty }, r3)),
            },
        },
    }
}

/// The parameters of a function behind those that are read: each behind a
/// comma.
pub open spec fn g_more_params(input: Input, before: Seq<ParamView>) -> Parsed<Seq<ParamView>>
    decreases input.len(),
{
    if next_is(input, Expected::Comma) {
        match g_param(input.skip(1)) {
            Err(e) => Err(e),
            Ok((param, rest)) => if rest.len() < input.len() {
                g_more_params(rest, before.push(param))
            } else {
                overrun(rest)
            },
        }
    } else {
        Ok((before, input))
    }
}

/// The parameters of a function: none where no name follows the opening
/// parenthesis.
pub open spec fn g_params(input: Input) -> Parsed<Seq<ParamView>> {
    if next_is(input, Expected::Ident) {
        match g_param(input) {
            Err(e) => Err(e),
            Ok((first, rest)) => g_more_params(rest, seq![first]),
        }
    } else {
        Ok((Seq::empty(), input))
    }
}

/// What of a function stands behind its parameters: the closing
/// parenthesis, an arrow, the name of the type that it returns, and its
/// body, a block.
pub open spec fn g_fn_end(
    params: Parsed<Seq<ParamView>>,
    start: Span,
    name: IdentView,
) -> Parsed<FuncView> {
    match params {
        Err(e) => Err(e),
        Ok((params, r1)) => match g_expect(r1, Expected::RParen) {
            Err(e) => Err(e),
            Ok((_, r2)) => match g_expect(r2, Expected::Arrow) {
                Err(e) => Err(e),
                Ok((_, r3)) => match g_ty(r3) {
                    Err(e) => Err(e),
                    Ok((ret_ty, r4)) => match g_block(r4) {
                        Err(e) => Err(e),
                        Ok((body, r5)) => Ok(
                            (
                                FuncView {
                                    span: merged(start, body.span),
                                    name,
                                    params,
                                    ret_ty,
                                    body,
                                },
                                r5,
                            ),
                        ),
                    },
                },
            },
        },
    }
}

/// A function: `fn`, the name, the parameters between parentheses, and
/// what stands behind them.
pub open spec fn g_fn_decl(input: Input) -> Parsed<FuncView> {
    match g_expect(input, Expected::FnKw) {
        Err(e) => Err(e),
        Ok(((_, start), r1)) => match g_ident(r1) {
            Err(e) => Err(e),
            Ok((name, r2)) => match g_expect(r2, Expected::LParen) {
                Err(e) => Err(e),
                Ok((_, r3)) => g_fn_end(g_params(r3), start, name),
            },
        },
    }
}

/// A program behind the declarations and functions that are read: the
/// functions and the declarations of globals, in any order, as long as
/// `fn`, `let` or `const` follows. What follows them is left.
pub open spec fn g_program(input: Input, decls: Seq<DeclView>, funcs: Seq<FuncView>) -> Parsed<
    ProgramView,
>
    decreases input.len(),
{
    if next_is(input, Expected::FnKw) {
        match g_fn_decl(input) {
            Err(e) => Err(e),
            Ok((f, rest)) => if rest.len() < input.len() {
                g_program(rest, decls, funcs.push(f))
            } else {
                overrun(rest)
            },
        }
    } else if next_is(input, Expected::LetKw) {
        match g_decl(input) {
            Err(e) => Err(e),
            Ok((d, rest)) => if rest.len() < input.len() {
                g_program(rest, decls.push(d), funcs)
            } else {
                overrun(rest)
            },
        }
    } else if next_is(input, Expected::ConstKw) {
        match g_const_decl(input) {
            Err(e) => Err(e),
            Ok((d, rest)) => if rest.len() < input.len() {
                g_program(rest, decls.push(d), funcs)
            } else {
                overrun(rest)
            },
        }
    } else {
        Ok((ProgramView { decls, funcs }, input))
    }
}

/// The program that tokens stand for.
pub open spec fn program_of(input: Input) -> Parsed<ProgramView> {
    g_program(input, Seq::empty(), Seq::empty())
}

/// The tokens behind the name and the type of a declaration that begins
/// with the given keyword, where it has them.
pub open spec fn behind_decl_head(input: Input, keyword: Expected) -> Option<Input> {
    match g_expect(input, keyword) {
        Err(_) => None,
        Ok((_, r1)) => match g_ident(r1) {
            Err(_) => None,
            Ok((_, r2)) => match g_expect(r2, Expected::Colon) {
                Err(_) => None,
                Ok((_, r3)) => match g_ty(r3) {
                    Err(_) => None,
                    Ok((_, r4)) => Some(r4),
                },
            },
        },
    }
}

/// A declaration leaves fewer tokens than it took.
pub proof fn lemma_decl_rest(input: Input)
    ensures
        shrinks(g_decl(input), input),
        shrinks(g_const_decl(input), input),
{
    match behind_decl_head(input, Expected::LetKw) {
        Some(r4) => {
            if next_is(r4, Expected::Assign) {
                lemma_expr_rest(r4.skip(1));
            }
        },
        None => {},
    }
    match behind_decl_head(input, Expected::ConstKw) {
        Some(r4) => {
            if next_is(r4, Expected::Assign) {
                lemma_expr_rest(r4.skip(1));
            }
        },
        None => {},
    }
}

/// A block leaves fewer tokens than it took.
pub proof fn lemma_block_rest(input: Input)
    ensures
        shrinks(g_block(input), input),
    decreases input.len(), 0nat,
{
    if next_is(input, Expected::LBrace) {
        lemma_stmts_rest(input.skip(1), Seq::empty());
    }
}

/// The statements of a block leave no more tokens than they took.
pub proof fn lemma_stmts_rest(input: Input, before: Seq<StmtView>)
    ensures
        keeps(g_stmts(input, before), input),
    decreases input.len(), 3nat,
{
    if !next_is(input, Expected::RBrace) {
        lemma_stmt_rest(input);
        match g_stmt(input) {
            Ok((stmt, rest)) => {
                lemma_stmts_rest(rest, before.push(stmt));
            },
            Err(_) => {},
        }
    }
}

/// A loop leaves fewer tokens than it took.
pub proof fn lemma_while_rest(input: Input)
    ensures
        shrinks(g_while(input), input),
    decreases input.len(), 1nat,
{
    if next_is(input, Expected::WhileKw) {
        lemma_expr_rest(input.skip(1));
        match g_expr(input.skip(1)) {
            Ok((_, behind)) => {
                lemma_block_rest(behind);
            },
            Err(_) => {},
        }
    }
}

/// A conditional statement leaves fewer tokens than it took.
pub proof fn lemma_if_rest(input: Input)
    ensures
        shrinks(g_if(input), input),
    decreases input.len(), 1nat,
{
    if next_is(input, Expected::IfKw) {
        lemma_expr_rest(input.skip(1));
        match g_expr(input.skip(1)) {
            Ok((_, behind)) => {
                lemma_block_rest(behind);
                match g_block(behind) {
                    Ok((_, left)) => {
                        if next_is(left, Expected::ElseKw) {
                            if next_is(left.skip(1), Expected::IfKw) {
                                lemma_if_rest(left.skip(1));
                            } else {
                                lemma_block_rest(left.skip(1));
                            }
                        }
                    },
                    Err(_) => {},
                }
            },
            Err(_) => {},
        }
    }
}

/// A statement leaves fewer tokens than it took.
pub proof fn lemma_stmt_rest(input: Input)
    ensures
        shrinks(g_stmt(input), input),
    decreases input.len(), 2nat,
{
    lemma_decl_rest(input);
    lemma_expr_rest(input);
    if next_is(input, Expected::LBrace) {
        lemma_block_rest(input);
    } else if next_is(input, Expected::IfKw) {
        lemma_if_rest(input);
    } else if next_is(input, Expected::WhileKw) {
        lemma_while_rest(input);
    } else if next_is(input, Expected::ReturnKw) {
        lemma_expr_rest(input.skip(1));
    }
}

/// The parameters behind the first leave no more tokens than they took.
pub proof fn lemma_more_params_rest(input: Input, before: Seq<ParamView>)
    ensures
        keeps(g_more_params(input, before), input),
    decreases input.len(),
{
    if next_is(input, Expected::Comma) {
        match g_param(input.skip(1)) {
            Ok((param, rest)) => {
                lemma_more_params_rest(rest, before.push(param));
            },
            Err(_) => {},
        }
    }
}

/// A function leaves fewer tokens than it took.
pub proof fn lemma_fn_decl_rest(input: Input)
    ensures
        shrinks(g_fn_decl(input), input),
{
    if input.len() >= 3 {
        let at_params = input.skip(1).skip(1).skip(1);
        let params = g_params(at_params);
        if next_is(at_params, Expected::Ident) {
            match g_param(at_params) {
                Ok((first, rest)) => {
                    lemma_more_params_rest(rest, seq![first]);
                },
                Err(_) => {},
            }
        }
        match params {
            Ok((_, r1)) => {
                if r1.len() >= 3 {
                    lemma_block_rest(r1.skip(1).skip(1).skip(1));
                }
            },
            Err(_) => {},
        }
    }
}

/// A program leaves no more tokens than it took.
pub proof fn lemma_program_rest(input: Input, decls: Seq<DeclView>, funcs: Seq<FuncView>)
    ensures
        keeps(g_program(input, decls, funcs), input),
    decreases input.len(),
{
    lemma_fn_decl_rest(input);
    lemma_decl_rest(input);
    if next_is(input, Expected::FnKw) {
        match g_fn_decl(input) {
            Ok((f, rest)) => {
                lemma_program_rest(rest, decls, funcs.push(f));
            },
            Err(_) => {},
        }
    } else if next_is(input, Expected::LetKw) {
        match g_decl(input) {
            Ok((d, rest)) => {
                lemma_program_rest(rest, decls.push(d), funcs);
            },
            Err(_) => {},
        }
    } else if next_is(input, Expected::ConstKw) {
        match g_const_decl(input) {
            Ok((d, rest)) => {
                lemma_program_rest(rest, decls.push(d), funcs);
            },
            Err(_) => {},
        }
    }
}

} // verus!
