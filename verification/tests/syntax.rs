use natrium::codegen::generator::compile;
use natrium::syntax::ast::{AstNode, BinaryOp, Expr, IfElseBlock, LiteralKind, Stmt, UnaryOp};
use natrium::syntax::parser::err::{ParseError, ParseErrorKind};
use natrium::syntax::parser::{combine_expr, expected_name, token_is, Expected, Parser};
use natrium::syntax::span::Span;
use natrium::syntax::token::Token;
use natrium::syntax::token::Token::{
    Arrow, AsKw, Assign, BreakKw, Colon, Comma, ConstKw, ContinueKw, Div, ElseKw, FnKw, Ge, Gt,
    IfKw, LBrace, LParen, Le, LetKw, Lt, Minus, Mul, Neq, Plus, RBrace, RParen, ReturnKw,
    Semicolon, WhileKw,
};
use natrium::util::IntoBytes;
use natrium::vm::R0Vm;

fn id(name: &str) -> Token {
    Token::Ident(name.into())
}

fn num(i: u64) -> Token {
    Token::UIntLiteral(i)
}

/// The tokens with spans one after the other, each two wide.
fn spanned(tokens: Vec<Token>) -> Vec<(Token, Span)> {
    tokens.into_iter().enumerate().map(|(i, t)| (t, Span::new(2 * i, 2))).collect()
}

fn parser(tokens: Vec<Token>) -> Parser {
    Parser::new(spanned(tokens))
}

/// The expression of the one statement `<tokens>;` of `main`.
fn expr_of(tokens: Vec<Token>) -> Expr {
    let mut all = vec![FnKw, id("main"), LParen, RParen, Arrow, id("void"), LBrace];
    all.extend(tokens);
    all.extend(vec![Semicolon, RBrace]);
    let mut program = parser(all).parse().unwrap();
    match program.funcs.remove(0).body.stmts.remove(0) {
        Stmt::Expr(e) => e,
        other => panic!("no expression: {:?}", other),
    }
}

/// An expression in prefix form.
fn show(e: &Expr) -> String {
    match e {
        Expr::Ident(i) => i.name.clone(),
        Expr::Literal(l) => match &l.kind {
            LiteralKind::Integer(i) => format!("{}", i),
            LiteralKind::Float(f) => format!("{}", f64::from_bits(*f)),
            LiteralKind::String(s) => format!("{:?}", s),
            LiteralKind::Char(c) => format!("{:?}", c),
        },
        Expr::Unary(u) => match u.op {
            UnaryOp::Neg => format!("(neg {})", show(&u.expr)),
            UnaryOp::Pos => format!("(pos {})", show(&u.expr)),
        },
        Expr::Binary(b) => format!("({:?} {} {})", b.op, show(&b.lhs), show(&b.rhs)),
        Expr::Assign(a) => format!("(set {} {})", show(&a.lhs), show(&a.rhs)),
        Expr::As(a) => format!("(as {} {})", show(&a.val), a.ty.name),
        Expr::Call(c) => {
            let args: Vec<String> = c.params.iter().map(show).collect();
            format!("{}({})", c.func.name, args.join(" "))
        }
    }
}

#[test]
fn spans() {
    let s = Span::new(3, 4);
    assert_eq!((s.start(), s.end()), (3, 7));
    assert_eq!(Span::new_idx(9, 2), Span { idx: 2, len: 7 });
    assert_eq!(Span::new_idx(2, 9), Span { idx: 2, len: 7 });
    assert_eq!(Span::eof(), Span { idx: usize::MAX, len: 0 });
    assert_eq!(Span::default(), Span { idx: 0, len: 0 });
    assert_eq!(Span::new(3, 4).merge(Span::new(5, 10)), Span { idx: 3, len: 12 });
    assert_eq!(Span::new(5, 1).merge(Span::new(1, 20)), Span { idx: 1, len: 20 });
}

#[test]
fn bytes_of_values() {
    assert_eq!(0x12u8.into_bytes(), vec![0x12]);
    assert_eq!(0x1234u16.into_bytes(), vec![0x34, 0x12]);
    assert_eq!(0x12345678u32.into_bytes(), vec![0x78, 0x56, 0x34, 0x12]);
    assert_eq!(0x1234u64.into_bytes(), vec![0x34, 0x12, 0, 0, 0, 0, 0, 0]);
    assert_eq!([1u8, 2, 3][..].into_bytes(), vec![1, 2, 3]);
    assert_eq!("hé".into_bytes(), vec![b'h', 0xc3, 0xa9]);
}

#[test]
fn tokens_say_what_they_hold() {
    assert_eq!(id("x").get_ident(), Some("x"));
    assert_eq!(num(1).get_ident(), None);
    assert_eq!(id("x").get_ident_owned(), Some("x".to_string()));
    assert_eq!(num(7).get_uint(), Some(7));
    assert_eq!(Token::CharLiteral('a').get_uint(), Some(97));
    assert_eq!(id("x").get_uint(), None);
    assert_eq!(Token::FloatLiteral(5).get_float(), Some(5));
    assert_eq!(num(5).get_float(), None);
    assert_eq!(Token::StringLiteral("s".into()).get_string(), Some("s"));
    assert_eq!(Token::StringLiteral("s".into()).get_string_owned(), Some("s".to_string()));
    assert_eq!(id("s").get_string_owned(), None);
}

#[test]
fn operators() {
    let ops = [Plus, Minus, Mul, Div, Assign, Token::Eq, Neq, Lt, Gt, Le, Ge];
    let precedence: Vec<u32> = ops.iter().map(|t| t.precedence()).collect();
    assert_eq!(precedence, vec![10, 10, 20, 20, 1, 2, 2, 2, 2, 2, 2]);
    let left: Vec<bool> = ops.iter().map(|t| t.is_left_assoc()).collect();
    assert_eq!(left, vec![true, true, true, true, false, true, true, true, true, true, true]);
    assert!(ops.iter().all(|t| t.is_binary_op()));
    assert!(!LParen.is_binary_op() && !id("x").is_binary_op() && !Arrow.is_binary_op());
    let trees: Vec<Option<BinaryOp>> = ops.iter().map(|t| t.to_binary_op()).collect();
    assert_eq!(
        trees,
        vec![
            Some(BinaryOp::Add),
            Some(BinaryOp::Sub),
            Some(BinaryOp::Mul),
            Some(BinaryOp::Div),
            None,
            Some(BinaryOp::Eq),
            Some(BinaryOp::Neq),
            Some(BinaryOp::Lt),
            Some(BinaryOp::Gt),
            Some(BinaryOp::Le),
            Some(BinaryOp::Ge),
        ]
    );
    assert_eq!(Comma.to_binary_op(), None);
    assert_eq!(show(&combine_expr(expr_of(vec![id("a")]), expr_of(vec![num(1)]), Assign)), "(set a 1)");
    assert_eq!(show(&combine_expr(expr_of(vec![id("a")]), expr_of(vec![num(1)]), Le)), "(Le a 1)");
}

#[test]
fn kinds_of_tokens() {
    assert!(token_is(&id("x"), Expected::Ident));
    assert!(token_is(&Semicolon, Expected::Semicolon));
    assert!(!token_is(&Semicolon, Expected::Comma));
    assert!(!token_is(&num(1), Expected::Ident));
    assert_eq!(expected_name(Expected::Ident), "Token::Ident(_)");
    assert_eq!(expected_name(Expected::RBrace), "Token::RBrace");
}

#[test]
fn precedence_and_grouping() {
    assert_eq!(show(&expr_of(vec![num(1), Plus, num(2), Mul, num(3)])), "(Add 1 (Mul 2 3))");
    assert_eq!(show(&expr_of(vec![num(1), Mul, num(2), Plus, num(3)])), "(Add (Mul 1 2) 3)");
    assert_eq!(show(&expr_of(vec![num(1), Minus, num(2), Minus, num(3)])), "(Sub (Sub 1 2) 3)");
    assert_eq!(
        show(&expr_of(vec![id("a"), Assign, id("b"), Assign, num(1), Lt, num(2), Plus, num(3)])),
        "(set a (set b (Lt 1 (Add 2 3))))"
    );
    assert_eq!(
        show(&expr_of(vec![LParen, num(1), Plus, num(2), RParen, Div, Minus, Minus, id("x")])),
        "(Div (Add 1 2) (neg (neg x)))"
    );
    assert_eq!(
        show(&expr_of(vec![Minus, id("x"), AsKw, id("double"), AsKw, id("int"), Ge, num(0)])),
        "(Ge (as (as (neg x) double) int) 0)"
    );
}

#[test]
fn items() {
    assert_eq!(show(&expr_of(vec![id("f"), LParen, RParen])), "f()");
    assert_eq!(
        show(&expr_of(vec![id("f"), LParen, num(1), Comma, id("g"), LParen, id("x"), RParen, RParen])),
        "f(1 g(x))"
    );
    assert_eq!(show(&expr_of(vec![Token::CharLiteral('a')])), "97");
    assert_eq!(show(&expr_of(vec![Token::StringLiteral("hi".into())])), "\"hi\"");
    assert_eq!(show(&expr_of(vec![Token::FloatLiteral(2.5f64.to_bits())])), "2.5");
    let e = expr_of(vec![id("x")]);
    assert_eq!(e.span(), Span::new(14, 2));
}

#[test]
fn statements() {
    let tokens = vec![
        FnKw, id("f"), LParen, id("a"), Colon, id("int"), Comma, id("b"), Colon, id("double"),
        RParen, Arrow, id("int"), LBrace,
        LetKw, id("x"), Colon, id("int"), Semicolon,
        ConstKw, id("y"), Colon, id("int"), Assign, num(2), Semicolon,
        IfKw, id("a"), LBrace, BreakKw, Semicolon, RBrace,
        ElseKw, IfKw, id("x"), LBrace, ContinueKw, Semicolon, RBrace,
        ElseKw, LBrace, Semicolon, RBrace,
        WhileKw, id("a"), LBrace, LBrace, RBrace, RBrace,
        ReturnKw, Semicolon,
        ReturnKw, id("y"), Semicolon,
        RBrace,
        LetKw, id("g"), Colon, id("int"), Assign, num(1), Semicolon,
    ];
    let n = tokens.len();
    let program = parser(tokens).parse().unwrap();
    assert_eq!((program.funcs.len(), program.decls.len()), (1, 1));
    assert_eq!(program.decls[0].span, Span::new(2 * (n - 7), 14));
    let f = &program.funcs[0];
    assert_eq!(f.name.name, "f");
    assert_eq!(f.ret_ty.name, "int");
    let params: Vec<(&str, &str)> =
        f.params.iter().map(|p| (p.name.name.as_str(), p.ty.name.as_str())).collect();
    assert_eq!(params, vec![("a", "int"), ("b", "double")]);
    assert_eq!(f.span, Span::new(0, 2 * (n - 7)));
    let stmts = &f.body.stmts;
    assert_eq!(stmts.len(), 6);
    assert!(matches!(&stmts[0], Stmt::Decl(d) if !d.is_const && d.val.is_none() && d.name.name == "x"));
    assert!(matches!(&stmts[1], Stmt::Decl(d) if d.is_const && d.val.is_some() && d.span == Span::new(38, 14)));
    match &stmts[2] {
        Stmt::If(first) => {
            assert!(matches!(first.if_block.stmts[0], Stmt::Break(s) if s == Span::new(58, 2)));
            match &first.else_block {
                IfElseBlock::If(second) => {
                    assert!(matches!(second.if_block.stmts[0], Stmt::Continue(_)));
                    match &second.else_block {
                        IfElseBlock::Block(b) => assert!(matches!(b.stmts[0], Stmt::Empty(_))),
                        other => panic!("{:?}", other),
                    }
                }
                other => panic!("{:?}", other),
            }
            assert_eq!(stmts[2].span(), first.span);
        }
        other => panic!("{:?}", other),
    }
    assert!(matches!(&stmts[3], Stmt::While(w) if matches!(w.body.stmts[0], Stmt::Block(_))));
    assert!(matches!(&stmts[4], Stmt::Return(r) if r.val.is_none()));
    assert!(matches!(&stmts[5], Stmt::Return(r) if r.val.is_some()));
}

#[test]
fn parse_failures() {
    let expected = |r: Result<_, ParseError>, pattern: &str, span: Option<Span>| match r {
        Err(ParseError { kind: ParseErrorKind::ExpectedPattern(p), span: s }) => {
            assert_eq!((p.as_str(), s), (pattern, span))
        }
        other => panic!("{:?}", other.map(|_: natrium::syntax::ast::Program| ())),
    };
    expected(parser(vec![FnKw, num(1)]).parse(), "Token::Ident(_)", Some(Span::new(2, 2)));
    expected(parser(vec![FnKw, id("f")]).parse(), "Token::LParen", None);
    expected(
        parser(vec![LetKw, id("x"), Colon, id("int"), Assign, Semicolon]).parse(),
        "Literal or Identifier or parenthesis",
        Some(Span::new(10, 2)),
    );
    expected(
        parser(vec![LetKw, id("x"), Colon, id("int"), Assign]).parse(),
        "Literal or Identifier or parenthesis",
        Some(Span::eof()),
    );
    expected(
        parser(vec![ConstKw, id("x"), Colon, id("int"), Semicolon]).parse(),
        "Token::Assign",
        Some(Span::new(8, 2)),
    );
    // what follows the last declaration is not looked at
    let mut p = parser(vec![LetKw, id("x"), Colon, id("int"), Semicolon, RBrace, RBrace]);
    assert!(p.parse().is_ok());
    let mut p = parser(vec![BreakKw, Semicolon, ContinueKw, Semicolon, ContinueKw]);
    assert_eq!(p.parse_break_stmt().unwrap(), Span::new(0, 2));
    assert_eq!(p.parse_continue_stmt().unwrap(), Span::new(4, 2));
    assert!(p.parse_continue_stmt().is_err());
    assert!(p.parse_break_stmt().is_err());
    let e = ParseError::new_span(ParseErrorKind::UnexpectedEof, Span::new(1, 1));
    assert_eq!(e.span, Some(Span::new(1, 1)));
    assert!(ParseError::new_none(ParseErrorKind::Dummy).span.is_none());
    assert!(matches!(ParseError::new(ParseErrorKind::ExpectToken(Plus), None).kind, ParseErrorKind::ExpectToken(Plus)));
}

#[test]
fn a_token_without_an_end_gets_the_end_of_the_input() {
    let tokens = vec![(LetKw, Span { idx: usize::MAX, len: 2 }), (num(1), Span::new(4, 1))];
    match Parser::new(tokens).parse() {
        Err(e) => assert_eq!(e.span, Some(Span::new(4, 1))),
        Ok(_) => panic!("parsed"),
    }
}

#[test]
fn parsed_program_runs() {
    // fn main() -> int { return 1 + 2 * 3; }
    let tokens = vec![
        FnKw, id("main"), LParen, RParen, Arrow, id("int"), LBrace,
        ReturnKw, num(1), Plus, num(2), Mul, num(3), Semicolon,
        RBrace,
    ];
    let program = parser(tokens).parse().unwrap();
    let s0 = compile(&program).unwrap();
    let mut vm = R0Vm::new(&s0, vec![]).unwrap();
    assert_eq!(vm.run_to_end(), Ok(()));
    assert_eq!(vm.stack()[3], 7);
}
