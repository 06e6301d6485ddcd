use natrium::codegen::err::{CompileError, CompileErrorKind};
use natrium::codegen::generator::compile;
use natrium::error::Error;
use natrium::opcodes::Op;
use natrium::s0::io::{Reader, WriteBinary};
use natrium::s0::S0;
use natrium::syntax::ast::{
    AssignExpr, BinaryExpr, BinaryOp, BlockStmt, CallExpr, DeclStmt, Expr, FuncParam, FuncStmt,
    Ident, IfElseBlock, IfStmt, LiteralExpr, LiteralKind, Program, ReturnStmt, Stmt, TyDef,
    WhileStmt,
};
use natrium::syntax::parser::Parser;
use natrium::syntax::span::Span;
use natrium::syntax::token::Token;
use natrium::syntax::util::P;
use natrium::vm::state::{FloatReply, FloatRequest};
use natrium::vm::R0Vm;

fn sp() -> Span {
    Span::default()
}

fn ident(name: &str) -> Ident {
    Ident { span: sp(), name: name.into() }
}

fn ty(name: &str) -> TyDef {
    TyDef { span: sp(), name: name.into(), params: None }
}

fn var(name: &str) -> Expr {
    Expr::Ident(ident(name))
}

fn lit(i: u64) -> Expr {
    Expr::Literal(LiteralExpr { span: sp(), kind: LiteralKind::Integer(i) })
}

fn float_at(v: f64, span: Span) -> Expr {
    Expr::Literal(LiteralExpr { span, kind: LiteralKind::Float(v.to_bits()) })
}

fn string(s: &str) -> Expr {
    Expr::Literal(LiteralExpr { span: sp(), kind: LiteralKind::String(s.into()) })
}

fn bin(op: BinaryOp, lhs: Expr, rhs: Expr) -> Expr {
    Expr::Binary(BinaryExpr { span: sp(), op, lhs: P(lhs), rhs: P(rhs) })
}

fn call(name: &str, params: Vec<Expr>) -> Expr {
    Expr::Call(CallExpr { span: sp(), func: ident(name), params })
}

fn assign(name: &str, rhs: Expr) -> Stmt {
    Stmt::Expr(Expr::Assign(AssignExpr {
        span: sp(),
        allow_assign_const: false,
        lhs: P(var(name)),
        rhs: P(rhs),
    }))
}

fn let_(name: &str, ty_name: &str, val: Option<Expr>) -> DeclStmt {
    DeclStmt { is_const: false, name: ident(name), ty: ty(ty_name), val: val.map(P), span: sp() }
}

fn ret(val: Option<Expr>) -> Stmt {
    Stmt::Return(ReturnStmt { val: val.map(P), span: sp() })
}

fn block(stmts: Vec<Stmt>) -> BlockStmt {
    BlockStmt { span: sp(), stmts }
}

fn while_(cond: Expr, body: Vec<Stmt>) -> Stmt {
    Stmt::While(WhileStmt { span: sp(), cond: P(cond), body: P(block(body)) })
}

fn if_(cond: Expr, body: Vec<Stmt>, else_block: IfElseBlock) -> Stmt {
    Stmt::If(IfStmt { span: sp(), cond: P(cond), if_block: P(block(body)), else_block })
}

fn func(name: &str, params: Vec<(&str, &str)>, ret_ty: &str, body: Vec<Stmt>) -> FuncStmt {
    FuncStmt {
        span: sp(),
        name: ident(name),
        params: params
            .into_iter()
            .map(|(n, t)| FuncParam { is_const: false, name: ident(n), ty: ty(t) })
            .collect(),
        ret_ty: ty(ret_ty),
        body: block(body),
    }
}

fn program(funcs: Vec<FuncStmt>) -> Program {
    Program { decls: vec![], funcs }
}

fn fpu(req: FloatRequest) -> FloatReply {
    match req {
        FloatRequest::Binary(op, a, b) => {
            let (x, y) = (f64::from_bits(a), f64::from_bits(b));
            FloatReply::Bits(match op {
                Op::AddF => (x + y).to_bits(),
                Op::SubF => (x - y).to_bits(),
                Op::MulF => (x * y).to_bits(),
                Op::DivF => (x / y).to_bits(),
                _ => {
                    if x < y {
                        u64::MAX
                    } else if x > y {
                        1
                    } else {
                        0
                    }
                }
            })
        }
        FloatRequest::Unary(op, a) => FloatReply::Bits(match op {
            Op::NegF => (-f64::from_bits(a)).to_bits(),
            Op::IToF => ((a as i64) as f64).to_bits(),
            _ => (f64::from_bits(a) as i64) as u64,
        }),
        FloatRequest::Print(a) => FloatReply::Text(format!("{:.6}", f64::from_bits(a)).into_bytes()),
        FloatRequest::Parse(token) => {
            match std::str::from_utf8(&token).ok().and_then(|s| s.parse::<f64>().ok()) {
                Some(v) => FloatReply::Bits(v.to_bits()),
                None => FloatReply::NoParse,
            }
        }
    }
}

/// Runs a module on an input with a float unit, and gives how the run ended
/// and what it wrote.
fn run(s0: &S0, input: &str) -> (Result<(), Error>, Vec<u8>) {
    let mut vm = R0Vm::new(s0, input.as_bytes().to_vec()).unwrap();
    let res = loop {
        let reply = vm.float_request().map(fpu);
        match vm.step_with(reply) {
            Ok(_) => (),
            Err(Error::ControlReachesEnd(0)) => break Ok(()),
            Err(e) => break Err(e),
        }
    };
    (res, vm.stdout().clone())
}

/// The program of the power test: `is_odd`, `fastpow` and a `main` that
/// reads a count and then as many pairs of base and exponent.
fn fastpow_program() -> Program {
    let is_odd = func(
        "is_odd",
        vec![("x", "int")],
        "int",
        vec![ret(Some(bin(
            BinaryOp::Sub,
            bin(BinaryOp::Mul, bin(BinaryOp::Div, var("x"), lit(2)), lit(2)),
            var("x"),
        )))],
    );
    let fastpow = func(
        "fastpow",
        vec![("base", "int"), ("exp", "int")],
        "int",
        vec![
            Stmt::Decl(let_("res", "int", Some(lit(1)))),
            if_(bin(BinaryOp::Lt, var("exp"), lit(0)), vec![ret(Some(lit(0)))], IfElseBlock::Absent),
            while_(
                bin(BinaryOp::Gt, var("exp"), lit(0)),
                vec![
                    if_(
                        call("is_odd", vec![var("exp")]),
                        vec![assign("res", bin(BinaryOp::Mul, var("res"), var("base")))],
                        IfElseBlock::Absent,
                    ),
                    assign("base", bin(BinaryOp::Mul, var("base"), var("base"))),
                    assign("exp", bin(BinaryOp::Div, var("exp"), lit(2))),
                ],
            ),
            ret(Some(var("res"))),
        ],
    );
    let main = func(
        "main",
        vec![],
        "void",
        vec![
            Stmt::Decl(let_("base", "int", None)),
            Stmt::Decl(let_("exp", "int", None)),
            Stmt::Decl(let_("count", "int", None)),
            assign("count", call("getint", vec![])),
            while_(
                bin(BinaryOp::Gt, var("count"), lit(0)),
                vec![
                    assign("base", call("getint", vec![])),
                    assign("exp", call("getint", vec![])),
                    Stmt::Expr(call("putint", vec![call("fastpow", vec![var("base"), var("exp")])])),
                    Stmt::Expr(call("putln", vec![])),
                    assign("count", bin(BinaryOp::Sub, var("count"), lit(1))),
                ],
            ),
        ],
    );
    program(vec![putln(), is_odd, fastpow, main])
}

/// The function that ends a line: the program has it for itself.
fn putln() -> FuncStmt {
    func(
        "putln",
        vec![],
        "void",
        vec![
            Stmt::Expr(call("putchar", vec![lit(13)])),
            Stmt::Expr(call("putchar", vec![lit(10)])),
        ],
    )
}

/// The tokens of a source text of names, numbers and signs, each with its
/// span.
fn tokens_of(text: &str) -> Vec<(Token, Span)> {
    let bytes = text.as_bytes();
    let mut tokens = vec![];
    let mut i = 0;
    while i < bytes.len() {
        let start = i;
        let c = bytes[i] as char;
        if c.is_whitespace() {
            i += 1;
            continue;
        }
        let token = if c.is_ascii_alphabetic() || c == '_' {
            while i < bytes.len() && (bytes[i].is_ascii_alphanumeric() || bytes[i] == b'_') {
                i += 1;
            }
            match &text[start..i] {
                "fn" => Token::FnKw,
                "let" => Token::LetKw,
                "if" => Token::IfKw,
                "while" => Token::WhileKw,
                "return" => Token::ReturnKw,
                name => Token::Ident(name.into()),
            }
        } else if c.is_ascii_digit() {
            while i < bytes.len() && bytes[i].is_ascii_digit() {
                i += 1;
            }
            Token::UIntLiteral(text[start..i].parse().unwrap())
        } else if text[i..].starts_with("->") {
            i += 2;
            Token::Arrow
        } else {
            i += 1;
            match c {
                '(' => Token::LParen,
                ')' => Token::RParen,
                '{' => Token::LBrace,
                '}' => Token::RBrace,
                ':' => Token::Colon,
                ',' => Token::Comma,
                ';' => Token::Semicolon,
                '=' => Token::Assign,
                '+' => Token::Plus,
                '-' => Token::Minus,
                '*' => Token::Mul,
                '/' => Token::Div,
                '<' => Token::Lt,
                '>' => Token::Gt,
                other => panic!("no token begins with {:?}", other),
            }
        };
        tokens.push((token, Span::new(start, i - start)));
    }
    tokens
}

/// The program that prints the Fibonacci numbers below the count it reads.
fn fibonacci_program() -> Program {
    program(vec![putln(), func(
        "main",
        vec![],
        "void",
        vec![
            Stmt::Decl(let_("n", "int", Some(call("getint", vec![])))),
            Stmt::Decl(let_("i", "int", Some(lit(0)))),
            Stmt::Decl(let_("a", "int", Some(lit(0)))),
            Stmt::Decl(let_("b", "int", Some(lit(1)))),
            while_(
                bin(BinaryOp::Lt, var("i"), var("n")),
                vec![
                    Stmt::Expr(call("putint", vec![var("i")])),
                    Stmt::Expr(call("putchar", vec![lit(32)])),
                    Stmt::Expr(call("putint", vec![var("b")])),
                    Stmt::Expr(call("putln", vec![])),
                    Stmt::Decl(let_("t", "int", Some(bin(BinaryOp::Add, var("a"), var("b"))))),
                    assign("a", var("b")),
                    assign("b", var("t")),
                    assign("i", bin(BinaryOp::Add, var("i"), lit(1))),
                ],
            ),
        ],
    )])
}

#[test]
fn test_ser() {
    let input = r#"
fn putln() -> void {
    putchar(13);
    putchar(10);
}

fn is_odd(x: int) -> int {
    return (x / 2 * 2) - x;
}

fn fastpow(base: int, exp: int) -> int {
    let res: int = 1;
    if exp < 0 {
        return 0;
    }
    while exp > 0 {
        if is_odd(exp) {
            res = res * base;
        }
        base = base * base;
        exp = exp / 2;
    }
    return res;
}

fn main() -> void {
    let base: int;
    let exp: int;
    let count: int;
    count = getint();
    while count > 0 {
        base = getint();
        exp = getint();
        putint(fastpow(base,exp));
        putln();
        count = count - 1;
    }
}
    "#;
    let program = Parser::new(tokens_of(input)).parse().unwrap();
    let s0 = compile(&program).unwrap();
    // the tree that is written out by hand stands for the same program
    assert_eq!(s0, compile(&fastpow_program()).unwrap());

    let mut bin = vec![];
    s0.write_binary(&mut bin);
    let s0_re = S0::read_binary(&mut Reader::new(&bin[..])).unwrap().unwrap();
    assert_eq!(s0, s0_re);
}

#[test]
fn fastpow_runs() {
    let s0 = compile(&fastpow_program()).unwrap();
    let (res, out) = run(&s0, "3\n2 10\n3 4\n7 0\n");
    assert_eq!(res, Ok(()));
    assert_eq!(out, b"1024\r\n81\r\n1\r\n".to_vec());
}

#[test]
fn main_returns_seven() {
    let program = program(vec![func(
        "main",
        vec![],
        "int",
        vec![ret(Some(bin(BinaryOp::Add, lit(1), bin(BinaryOp::Mul, lit(2), lit(3)))))],
    )]);
    let s0 = compile(&program).unwrap();
    assert_eq!(s0.functions.len(), 2);
    assert_eq!(
        s0.functions[1].ins,
        vec![
            Op::ArgA(0),
            Op::Push(1),
            Op::Push(2),
            Op::Push(3),
            Op::MulI,
            Op::AddI,
            Op::Store64,
            Op::Ret
        ]
    );
    assert_eq!(s0.functions[0].ins, vec![Op::StackAlloc(1), Op::Call(1)]);
    let mut vm = R0Vm::new(&s0, vec![]).unwrap();
    assert_eq!(vm.run_to_end(), Ok(()));
    assert_eq!(vm.stack()[3], 7);
}

#[test]
fn fibonacci_prints_lines() {
    let s0 = compile(&fibonacci_program()).unwrap();
    let (res, out) = run(&s0, "5\n");
    assert_eq!(res, Ok(()));
    assert_eq!(out, b"0 1\r\n1 1\r\n2 2\r\n3 3\r\n4 5\r\n".to_vec());
}

#[test]
fn the_frames_stay_in_order_at_every_step() {
    let s0 = compile(&fibonacci_program()).unwrap();
    let mut vm = R0Vm::new(&s0, b"5\n".to_vec()).unwrap();
    let mut steps = 0;
    while !vm.is_at_end() {
        let floor = vm.bp() + 3 + vm.fn_info().loc_slots as usize;
        assert!(floor <= vm.sp() && vm.sp() <= natrium::vm::MAX_STACK_SIZE);
        let (trace, corrupted) = vm.stack_trace();
        assert!(!corrupted);
        assert!(trace.iter().all(|frame| (frame.fn_id as usize) < s0.functions.len()));
        let reply = vm.float_request().map(fpu);
        vm.step_with(reply).unwrap();
        steps += 1;
    }
    assert!(steps > 100);
}

#[test]
fn division_by_zero_is_reported() {
    let program = program(vec![func(
        "main",
        vec![],
        "void",
        vec![
            Stmt::Decl(let_("a", "int", Some(lit(1)))),
            Stmt::Decl(let_("b", "int", Some(lit(0)))),
            Stmt::Expr(call("putint", vec![bin(BinaryOp::Div, var("a"), var("b"))])),
        ],
    )]);
    let s0 = compile(&program).unwrap();
    let (res, out) = run(&s0, "");
    assert_eq!(res, Err(Error::DivZero));
    assert_eq!(out, Vec::<u8>::new());
}

#[test]
fn endless_recursion_overflows_the_stack() {
    let program = program(vec![
        func("r", vec![], "void", vec![Stmt::Expr(call("r", vec![]))]),
        func("main", vec![], "void", vec![Stmt::Expr(call("r", vec![]))]),
    ]);
    let s0 = compile(&program).unwrap();
    let mut vm = R0Vm::new(&s0, vec![]).unwrap();
    assert_eq!(vm.run_to_end(), Err(Error::StackOverflow));
    // every frame of `r` takes its three saved slots and no locals: the
    // stack is full when no further frame fits
    assert!(natrium::vm::MAX_STACK_SIZE - vm.sp() < 3);
    let (trace, corrupted) = vm.stack_trace();
    assert!(!corrupted);
    assert_eq!(trace.len(), natrium::vm::MAX_STACK_SIZE / 3);
}

#[test]
fn putstr_writes_the_bytes() {
    let program = program(vec![func(
        "main",
        vec![],
        "void",
        vec![Stmt::Expr(call("putstr", vec![string("Hi\n")]))],
    )]);
    let s0 = compile(&program).unwrap();
    let (res, out) = run(&s0, "");
    assert_eq!(res, Ok(()));
    assert_eq!(out, vec![b'H', b'i', b'\n']);
}

#[test]
fn mismatched_initializer_is_refused() {
    let at = Span::new(12, 3);
    let program = program(vec![func(
        "main",
        vec![],
        "void",
        vec![Stmt::Decl(let_("x", "int", Some(float_at(1.0, at))))],
    )]);
    let err = compile(&program).unwrap_err();
    assert_eq!(
        err,
        CompileError {
            kind: CompileErrorKind::TypeMismatch {
                expected: "int".into(),
                got: Some("double".into())
            },
            span: Some(at),
        }
    );
}

#[test]
fn round_trip_then_run() {
    let s0 = compile(&fibonacci_program()).unwrap();
    let bytes = s0.to_bytes();
    let again = S0::from_bytes(&bytes).unwrap();
    assert_eq!(again, s0);
    assert_eq!(run(&again, "5\n"), run(&s0, "5\n"));
    assert_eq!(run(&again, "5\n").1, b"0 1\r\n1 1\r\n2 2\r\n3 3\r\n4 5\r\n".to_vec());
}
