use natrium::codegen::code::{BasicBlock, Cond, JumpInst};
use natrium::codegen::err::CompileErrorKind::{
    DuplicateSymbol, FuncParamSizeMismatch, InvalidCalculation, NoSuchSymbol, NotAllRoutesReturn,
    NotLValue, TypeMismatch, UnknownType, VoidTypeVariable,
};
use natrium::codegen::err::{CompileError, CompileErrorKind, WithSpan};
use natrium::codegen::generator::entries::GlobalEntries;
use natrium::codegen::generator::util::{linearize, BBArranger};
use natrium::codegen::generator::{
    as_expr_op, binary_op_op, binary_op_result_ty, compile, create_lib_func, get_ty,
    get_ty_nonvoid, load_ty, op_load_address, store_ty, unary_op_op, unary_op_result_ty, Place,
};
use natrium::codegen::scope::{Scope, Symbol, SymbolIdGenerator};
use natrium::codegen::ty::{FuncTy, Ty};
use natrium::opcodes::Op;
use natrium::s0::GlobalValue;
use natrium::syntax::ast::{
    AsExpr, AssignExpr, BinaryExpr, BinaryOp, BlockStmt, CallExpr, DeclStmt, Expr, FuncParam,
    FuncStmt, Ident, IfElseBlock, IfStmt, LiteralExpr, LiteralKind, Program, ReturnStmt, Stmt,
    TyDef, UnaryExpr, UnaryOp, WhileStmt,
};
use natrium::syntax::span::Span;
use natrium::syntax::util::P;

fn ty(name: &str) -> TyDef {
    TyDef { span: Span::new(1, 2), name: name.into(), params: None }
}

fn ident(name: &str) -> Ident {
    Ident { span: Span::new(3, 1), name: name.into() }
}

fn var(name: &str) -> Expr {
    Expr::Ident(ident(name))
}

fn lit(i: u64) -> Expr {
    Expr::Literal(LiteralExpr { span: Span::new(5, 1), kind: LiteralKind::Integer(i) })
}

fn bin(op: BinaryOp, lhs: Expr, rhs: Expr) -> Expr {
    Expr::Binary(BinaryExpr { span: Span::default(), op, lhs: P(lhs), rhs: P(rhs) })
}

fn call(name: &str, params: Vec<Expr>) -> Expr {
    Expr::Call(CallExpr { span: Span::new(7, 4), func: ident(name), params })
}

fn assign(lhs: Expr, rhs: Expr) -> Stmt {
    Stmt::Expr(Expr::Assign(AssignExpr {
        span: Span::default(),
        allow_assign_const: false,
        lhs: P(lhs),
        rhs: P(rhs),
    }))
}

fn let_(name: &str, ty_name: &str, val: Option<Expr>) -> DeclStmt {
    DeclStmt {
        is_const: false,
        name: ident(name),
        ty: ty(ty_name),
        val: val.map(P),
        span: Span::default(),
    }
}

fn ret(val: Option<Expr>) -> Stmt {
    Stmt::Return(ReturnStmt { val: val.map(P), span: Span::new(9, 6) })
}

fn block(stmts: Vec<Stmt>) -> BlockStmt {
    BlockStmt { span: Span::default(), stmts }
}

fn func(name: &str, params: Vec<(&str, &str)>, ret_ty: &str, body: Vec<Stmt>) -> FuncStmt {
    FuncStmt {
        span: Span::new(0, 40),
        name: ident(name),
        params: params
            .into_iter()
            .map(|(n, t)| FuncParam { is_const: false, name: ident(n), ty: ty(t) })
            .collect(),
        ret_ty: ty(ret_ty),
        body: block(body),
    }
}

fn main_of(body: Vec<Stmt>) -> Program {
    Program { decls: vec![], funcs: vec![func("main", vec![], "void", body)] }
}

/// The instructions of `main` in the program that has only `main`.
fn main_code(body: Vec<Stmt>) -> Vec<Op> {
    compile(&main_of(body)).unwrap().functions.remove(1).ins
}

fn kind_of(body: Vec<Stmt>) -> CompileErrorKind {
    compile(&main_of(body)).unwrap_err().kind
}

fn blocks(list: Vec<(Vec<Op>, JumpInst)>) -> Vec<BasicBlock> {
    list.into_iter().map(|(code, jump)| BasicBlock { code, jump }).collect()
}

fn arrange(bb: &Vec<BasicBlock>) -> Result<Vec<usize>, CompileError> {
    let mut arranger = BBArranger::new(bb);
    arranger.construct_arrangement(0)?;
    Ok(arranger.arrange())
}

#[test]
fn sizes_of_types() {
    let f = || Ty::Func(FuncTy { params: vec![P(Ty::Int)], ret: P(Ty::Void) });
    let all = [Ty::Int, Ty::Double, Ty::Bool, Ty::Addr, Ty::Void, f()];
    let sizes: Vec<usize> = all.iter().map(|t| t.size()).collect();
    let slots: Vec<usize> = all.iter().map(|t| t.size_slot()).collect();
    let names: Vec<String> = all.iter().map(|t| t.to_string()).collect();
    assert_eq!(sizes, vec![8, 8, 1, 8, 0, 0]);
    assert_eq!(slots, vec![1, 1, 1, 1, 0, 0]);
    assert_eq!(names, vec!["int", "double", "bool", "addr", "void", "function"]);
    assert!(Ty::Int.get_func().is_none());
    assert_eq!(f().get_func().unwrap().params.len(), 1);
    assert_eq!(Ty::Addr.plain_copy(), Some(Ty::Addr));
    assert_eq!(f().plain_copy(), None);
    assert!(Ty::Bool.same_plain(&Ty::Bool));
    assert!(!Ty::Bool.same_plain(&Ty::Int));
    assert!(!f().same_plain(&f()));
}

#[test]
fn type_names() {
    assert_eq!(get_ty(&ty("int")), Ok(Ty::Int));
    assert_eq!(get_ty(&ty("double")), Ok(Ty::Double));
    assert_eq!(get_ty(&ty("void")), Ok(Ty::Void));
    let unknown = CompileError {
        kind: CompileErrorKind::UnknownType("bool".into()),
        span: Some(Span::new(1, 2)),
    };
    assert_eq!(get_ty(&ty("bool")), Err(unknown.clone()));
    assert_eq!(get_ty_nonvoid(&ty("bool")), Err(unknown));
    assert_eq!(get_ty_nonvoid(&ty("int")), Ok(Ty::Int));
    assert_eq!(
        get_ty_nonvoid(&ty("void")),
        Err(CompileError { kind: CompileErrorKind::VoidTypeVariable, span: Some(Span::new(1, 2)) })
    );
}

#[test]
fn instruction_tables() {
    assert_eq!(op_load_address(Place::Arg(2)), Op::ArgA(2));
    assert_eq!(op_load_address(Place::Loc(3)), Op::LocA(3));
    assert_eq!((load_ty(&Ty::Int), load_ty(&Ty::Bool), load_ty(&Ty::Void)), (Op::Load64, Op::Load64, Op::Pop));
    assert_eq!((store_ty(&Ty::Double), store_ty(&Ty::Addr), store_ty(&Ty::Void)), (Op::Store64, Op::Store64, Op::Pop));
    let ints: Vec<Vec<Op>> = [
        BinaryOp::Add,
        BinaryOp::Sub,
        BinaryOp::Mul,
        BinaryOp::Div,
        BinaryOp::Gt,
        BinaryOp::Lt,
        BinaryOp::Ge,
        BinaryOp::Le,
        BinaryOp::Eq,
        BinaryOp::Neq,
    ]
    .iter()
    .map(|op| binary_op_op(*op, &Ty::Int).unwrap())
    .collect();
    assert_eq!(
        ints,
        vec![
            vec![Op::AddI],
            vec![Op::SubI],
            vec![Op::MulI],
            vec![Op::DivI],
            vec![Op::CmpI, Op::SetGt],
            vec![Op::CmpI, Op::SetLt],
            vec![Op::CmpI, Op::SetLt, Op::Not],
            vec![Op::CmpI, Op::SetGt, Op::Not],
            vec![Op::CmpI, Op::Not],
            vec![Op::CmpI],
        ]
    );
    assert_eq!(binary_op_op(BinaryOp::Add, &Ty::Addr), Some(vec![Op::AddI]));
    assert_eq!(binary_op_op(BinaryOp::Div, &Ty::Double), Some(vec![Op::DivF]));
    assert_eq!(binary_op_op(BinaryOp::Le, &Ty::Double), Some(vec![Op::CmpF, Op::SetGt, Op::Not]));
    assert_eq!(binary_op_op(BinaryOp::Add, &Ty::Bool), None);
    assert_eq!(binary_op_op(BinaryOp::Add, &Ty::Void), None);
    assert_eq!(binary_op_result_ty(BinaryOp::Mul, &Ty::Double), Some(Ty::Double));
    assert_eq!(binary_op_result_ty(BinaryOp::Neq, &Ty::Addr), Some(Ty::Bool));
    assert_eq!(binary_op_result_ty(BinaryOp::Add, &Ty::Bool), None);
    assert_eq!(unary_op_op(UnaryOp::Neg, &Ty::Int), Some(vec![Op::NegI]));
    assert_eq!(unary_op_op(UnaryOp::Neg, &Ty::Double), Some(vec![Op::NegF]));
    assert_eq!(unary_op_op(UnaryOp::Pos, &Ty::Double), Some(vec![]));
    assert_eq!(unary_op_op(UnaryOp::Neg, &Ty::Addr), None);
    assert_eq!(unary_op_result_ty(UnaryOp::Neg, &Ty::Int), Some(Ty::Int));
    assert_eq!(unary_op_result_ty(UnaryOp::Pos, &Ty::Bool), None);
    assert_eq!(as_expr_op(&Ty::Int, &Ty::Double), Some(vec![Op::IToF]));
    assert_eq!(as_expr_op(&Ty::Addr, &Ty::Double), Some(vec![Op::IToF]));
    assert_eq!(as_expr_op(&Ty::Double, &Ty::Int), Some(vec![Op::FToI]));
    assert_eq!(as_expr_op(&Ty::Int, &Ty::Addr), Some(vec![]));
    assert_eq!(as_expr_op(&Ty::Double, &Ty::Bool), Some(vec![]));
    assert_eq!(as_expr_op(&Ty::Double, &Ty::Addr), None);
    assert_eq!(as_expr_op(&Ty::Bool, &Ty::Int), None);
    assert_eq!(as_expr_op(&Ty::Int, &Ty::Void), None);
}

#[test]
fn symbol_ids_count_up() {
    let mut ids = SymbolIdGenerator::new();
    assert_eq!((ids.next(), ids.next(), ids.try_next()), (0, 1, Some(2)));
    let s = Symbol::new(Ty::Bool, true);
    assert_eq!((s.id, s.ty, s.is_const), (0, Ty::Bool, true));
}

#[test]
fn scopes_nest() {
    let mut ids = SymbolIdGenerator::new();
    let mut root = Scope::new();
    assert!(root.is_root_scope());
    assert!(root.parent().is_none());
    assert_eq!(root.insert(&mut ids, "x".into(), Symbol::new(Ty::Int, false)), Some(0));
    assert_eq!(root.insert(&mut ids, "y".into(), Symbol::new(Ty::Double, true)), Some(1));
    // a second declaration in the same scope is refused and takes no id
    assert_eq!(root.insert(&mut ids, "x".into(), Symbol::new(Ty::Double, false)), None);
    let mut child = Scope::new_with_parent(&root);
    assert!(!child.is_root_scope());
    assert!(child.find_in_self("x").is_none());
    assert_eq!(child.find("x").map(|s| (s.id, s.ty == Ty::Int)), Some((0, true)));
    assert_eq!(child.find_is_global("y").map(|(s, g)| (s.id, s.is_const, g)), Some((1, true, true)));
    // shadowing in a nested scope is fine
    assert_eq!(child.insert(&mut ids, "x".into(), Symbol::new(Ty::Addr, false)), Some(2));
    assert_eq!(child.find_is_global("x").map(|(s, g)| (s.id, g)), Some((2, false)));
    assert_eq!(child.find_in_self("x").map(|s| s.id), Some(2));
    assert!(child.find("z").is_none());
    assert!(child.find_is_global("z").is_none());
    let inner = Scope::new_with_parent(&child);
    assert_eq!(inner.find("x").map(|s| s.id), Some(2));
    assert_eq!(inner.find("y").map(|s| s.id), Some(1));
    assert_eq!(root.find("x").map(|s| s.id), Some(0));
}

#[test]
fn library_functions() {
    let mut ids = SymbolIdGenerator::new();
    let mut root = Scope::new();
    create_lib_func(&mut root, &mut ids);
    let sig = |name: &str| {
        let s = root.find(name).unwrap();
        let f = s.ty.get_func().unwrap();
        let params: Vec<String> = f.params.iter().map(|p| p.to_string()).collect();
        (s.id, s.is_const, params.join(","), f.ret.to_string())
    };
    assert_eq!(sig("putint"), (0, true, "int".into(), "void".into()));
    assert_eq!(sig("putstr"), (1, true, "addr".into(), "void".into()));
    assert_eq!(sig("putfloat"), (2, true, "double".into(), "void".into()));
    assert_eq!(sig("putchar"), (3, true, "int".into(), "void".into()));
    assert_eq!(sig("getchar"), (4, true, "".into(), "int".into()));
    assert_eq!(sig("getint"), (5, true, "".into(), "int".into()));
    assert_eq!(sig("getdouble"), (6, true, "".into(), "double".into()));
    assert!(root.find("putdouble").is_none());
    assert!(root.find("putln").is_none());
    assert_eq!(ids.next(), 7);
}

#[test]
fn tables_of_a_module() {
    let mut e = GlobalEntries::new();
    assert_eq!((e.function_count(), e.value_count()), (1, 0));
    assert_eq!(e.function_id("_start"), Some(0));
    assert_eq!(e.function_id("main"), None);
    assert_eq!(e.add_function("main".into()), Some(1));
    assert_eq!(e.add_function("main".into()), None);
    assert_eq!(e.add_function("_start".into()), None);
    assert_eq!(e.function_id("main"), Some(1));
    assert_eq!(e.insert_value(40, vec![0; 8], false), Some(0));
    assert_eq!(e.insert_string_literal("hé", 41), Some(1));
    assert_eq!(e.value_id(41), Some(1));
    assert_eq!(e.value_id(42), None);
    // the bytes of a symbol that has a global already are replaced in place
    assert_eq!(e.insert_value(40, vec![1], true), Some(0));
    assert_eq!((e.function_count(), e.value_count()), (2, 2));
    assert_eq!(
        e.into_values(),
        vec![
            GlobalValue { is_const: true, bytes: vec![1] },
            GlobalValue { is_const: true, bytes: "hé".as_bytes().to_vec() }
        ]
    );
}

#[test]
fn errors_take_spans() {
    let e = CompileError(CompileErrorKind::NotLValue, None);
    assert_eq!(e.span, None);
    let e = e.with_span(Span::new(1, 1));
    assert_eq!(e, CompileError { kind: CompileErrorKind::NotLValue, span: Some(Span::new(1, 1)) });
    let ok: Result<u8, CompileError> = Ok(3);
    assert_eq!(ok.with_span(Span::new(2, 2)), Ok(3));
    let err: Result<u8, CompileError> = Err(e);
    assert_eq!(err.with_span(Span::new(2, 2)).unwrap_err().span, Some(Span::new(2, 2)));
}

#[test]
fn a_straight_line_is_arranged_in_order() {
    let bb = blocks(vec![
        (vec![Op::Push(1)], JumpInst::Jump(2)),
        (vec![Op::Push(9)], JumpInst::Undefined),
        (vec![Op::Push(2)], JumpInst::Return),
    ]);
    let order = arrange(&bb).unwrap();
    assert_eq!(order, vec![0, 2]);
    assert_eq!(linearize(&bb, &order), Ok(vec![Op::Push(1), Op::Br(0), Op::Push(2), Op::Ret]));
}

#[test]
fn a_diamond_joins_after_both_branches() {
    let bb = blocks(vec![
        (vec![Op::Push(1)], JumpInst::JumpIf(Cond::Eq, 1, 2)),
        (vec![Op::Push(10)], JumpInst::Jump(3)),
        (vec![Op::Push(20)], JumpInst::Jump(3)),
        (vec![], JumpInst::Return),
    ]);
    let order = arrange(&bb).unwrap();
    assert_eq!(order, vec![0, 1, 2, 3]);
    assert_eq!(
        linearize(&bb, &order),
        Ok(vec![
            Op::Push(1),
            // the true branch follows: one branch on false is enough
            Op::BrFalse(2),
            Op::Push(10),
            Op::Br(2),
            Op::Push(20),
            Op::Br(0),
            Op::Ret,
        ])
    );
    // laid out with the false branch first, the test needs both branches
    assert_eq!(
        linearize(&bb, &vec![0, 2, 1, 3]),
        Ok(vec![
            Op::Push(1),
            Op::BrTrue(3),
            Op::Br(0),
            Op::Push(20),
            Op::Br(2),
            Op::Push(10),
            Op::Br(0),
            Op::Ret,
        ])
    );
}

#[test]
fn a_loop_is_arranged_once() {
    // 0 -> 1 (condition) -> 2 (body) -> 1, and 1 -> 3
    let bb = blocks(vec![
        (vec![], JumpInst::Jump(1)),
        (vec![Op::Push(1)], JumpInst::JumpIf(Cond::Eq, 2, 3)),
        (vec![Op::Nop], JumpInst::Jump(1)),
        (vec![], JumpInst::Return),
    ]);
    let order = arrange(&bb).unwrap();
    assert_eq!(order, vec![0, 1, 2, 3]);
    assert_eq!(
        linearize(&bb, &order),
        Ok(vec![Op::Br(0), Op::Push(1), Op::BrFalse(2), Op::Nop, Op::Br(-4), Op::Ret])
    );
}

#[test]
fn a_reachable_block_without_terminator_is_refused() {
    let bb = blocks(vec![(vec![], JumpInst::Jump(1)), (vec![], JumpInst::Undefined)]);
    assert_eq!(
        arrange(&bb),
        Err(CompileError { kind: CompileErrorKind::NotAllRoutesReturn, span: None })
    );
    let bb = blocks(vec![(vec![], JumpInst::Undefined)]);
    assert!(arrange(&bb).is_err());
    // a layout must hold the targets of its blocks
    let bb = blocks(vec![(vec![], JumpInst::Jump(1)), (vec![], JumpInst::Return)]);
    assert_eq!(
        linearize(&bb, &vec![0]),
        Err(CompileError { kind: CompileErrorKind::NotAllRoutesReturn, span: None })
    );
    assert_eq!(linearize(&bb, &vec![1, 0]), Ok(vec![Op::Ret, Op::Br(-2)]));
}

#[test]
fn only_the_blocks_that_can_be_reached_are_arranged() {
    // block 1 cannot be reached and ends in `Unreachable`; block 4 cannot be
    // reached and leads into the part that can
    let bb = blocks(vec![
        (vec![Op::Push(1)], JumpInst::JumpIf(Cond::Eq, 2, 3)),
        (vec![], JumpInst::Unreachable),
        (vec![Op::Push(2)], JumpInst::Jump(3)),
        (vec![Op::Push(3)], JumpInst::Return),
        (vec![], JumpInst::Jump(2)),
    ]);
    let order = arrange(&bb).unwrap();
    assert_eq!(order, vec![0, 2, 3]);
    assert_eq!(
        linearize(&bb, &order),
        Ok(vec![Op::Push(1), Op::BrFalse(2), Op::Push(2), Op::Br(0), Op::Push(3), Op::Ret])
    );
    // a block that ends in `Unreachable` must not be reached
    let bb = blocks(vec![(vec![], JumpInst::Jump(1)), (vec![], JumpInst::Unreachable)]);
    assert_eq!(
        arrange(&bb),
        Err(CompileError { kind: CompileErrorKind::NotAllRoutesReturn, span: None })
    );
    assert_eq!(
        linearize(&bb, &vec![0, 1]),
        Err(CompileError { kind: CompileErrorKind::NotAllRoutesReturn, span: None })
    );
}

#[test]
fn a_fresh_block_is_empty() {
    let b = BasicBlock::new();
    assert!(b.code.is_empty());
    assert_eq!(b.jump, JumpInst::Undefined);
}

#[test]
fn expressions_are_lowered_in_order() {
    let code = main_code(vec![
        Stmt::Decl(let_("a", "int", Some(lit(4)))),
        Stmt::Decl(let_("d", "double", None)),
        assign(
            var("d"),
            Expr::As(AsExpr {
                span: Span::default(),
                val: P(Expr::Unary(UnaryExpr {
                    span: Span::default(),
                    op: UnaryOp::Neg,
                    expr: P(bin(BinaryOp::Sub, var("a"), lit(1))),
                })),
                ty: ty("double"),
            }),
        ),
    ]);
    assert_eq!(
        code,
        vec![
            Op::LocA(0),
            Op::Push(4),
            Op::Store64,
            Op::LocA(1),
            Op::LocA(0),
            Op::Load64,
            Op::Push(1),
            Op::SubI,
            Op::NegI,
            Op::IToF,
            Op::Store64,
            Op::Ret,
        ]
    );
}

#[test]
fn literals() {
    let float = Expr::Literal(LiteralExpr { span: Span::default(), kind: LiteralKind::Float(1.5f64.to_bits()) });
    let ch = Expr::Literal(LiteralExpr { span: Span::default(), kind: LiteralKind::Char('A') });
    let text = Expr::Literal(LiteralExpr { span: Span::default(), kind: LiteralKind::String("a\n".into()) });
    let program = main_of(vec![
        Stmt::Decl(let_("d", "double", Some(float))),
        Stmt::Expr(call("putchar", vec![ch])),
        Stmt::Expr(call("putstr", vec![text])),
    ]);
    let s0 = compile(&program).unwrap();
    let g = s0.globals.len() as u32;
    assert_eq!(
        s0.functions[1].ins,
        vec![
            Op::LocA(0),
            Op::Push(1.5f64.to_bits()),
            Op::Store64,
            Op::Push(65),
            Op::CallName(g - 3),
            Op::GlobA(g - 2),
            Op::CallName(g - 1),
            Op::Ret,
        ]
    );
    assert_eq!(s0.globals[g as usize - 3], GlobalValue { is_const: true, bytes: b"putchar".to_vec() });
    assert_eq!(s0.globals[g as usize - 2], GlobalValue { is_const: true, bytes: b"a\n".to_vec() });
    assert_eq!(s0.globals[g as usize - 1], GlobalValue { is_const: true, bytes: b"putstr".to_vec() });
}

#[test]
fn globals_and_the_entry_function() {
    let mut g = let_("g", "int", Some(lit(3)));
    g.is_const = true;
    let program = Program {
        decls: vec![g, let_("h", "double", None)],
        funcs: vec![
            func("f", vec![("a", "int"), ("b", "double")], "int", vec![ret(Some(var("a")))]),
            func("main", vec![], "void", vec![assign(var("g"), call("f", vec![var("g"), var("h")]))]),
        ],
    };
    let s0 = compile(&program).unwrap();
    let names: Vec<&[u8]> =
        s0.functions.iter().map(|f| &s0.globals[f.name as usize].bytes[..]).collect();
    assert_eq!(names, vec![&b"_start"[..], &b"f"[..], &b"main"[..]]);
    assert_eq!(s0.globals[0], GlobalValue { is_const: true, bytes: b"_start".to_vec() });
    assert_eq!(s0.globals[1], GlobalValue { is_const: true, bytes: vec![0; 8] });
    assert_eq!(s0.globals[2], GlobalValue { is_const: false, bytes: vec![0; 8] });
    let slots: Vec<(u32, u32, u32)> =
        s0.functions.iter().map(|f| (f.ret_slots, f.param_slots, f.loc_slots)).collect();
    assert_eq!(slots, vec![(0, 0, 0), (1, 2, 0), (0, 0, 0)]);
    assert_eq!(s0.functions[0].ins, vec![Op::GlobA(1), Op::Push(3), Op::Store64, Op::Call(2)]);
    assert_eq!(s0.functions[1].ins, vec![Op::ArgA(0), Op::ArgA(1), Op::Load64, Op::Store64, Op::Ret]);
    assert_eq!(
        s0.functions[2].ins,
        vec![
            Op::GlobA(1),
            Op::StackAlloc(1),
            Op::GlobA(1),
            Op::Load64,
            Op::GlobA(2),
            Op::Load64,
            Op::Call(1),
            Op::Store64,
            Op::Ret,
        ]
    );
}

#[test]
fn conditions_and_loops() {
    let cond = |stmts: Vec<Stmt>, else_block: IfElseBlock| {
        Stmt::If(IfStmt {
            span: Span::default(),
            cond: P(bin(BinaryOp::Lt, var("x"), lit(1))),
            if_block: P(block(stmts)),
            else_block,
        })
    };
    let code = main_code(vec![
        Stmt::Decl(let_("x", "int", None)),
        cond(
            vec![assign(var("x"), lit(10))],
            IfElseBlock::If(P(IfStmt {
                span: Span::default(),
                cond: P(var("x")),
                if_block: P(block(vec![assign(var("x"), lit(20))])),
                else_block: IfElseBlock::Block(P(block(vec![assign(var("x"), lit(30))]))),
            })),
        ),
        Stmt::While(WhileStmt {
            span: Span::default(),
            cond: P(var("x")),
            body: P(block(vec![
                cond(vec![Stmt::Break(Span::default())], IfElseBlock::Absent),
                Stmt::Continue(Span::default()),
                Stmt::Empty(Span::default()),
            ])),
        }),
    ]);
    let s0 = compile(&main_of(vec![])).unwrap();
    assert_eq!(s0.functions[1].ins, vec![Op::Ret]);
    // the layout is checked by running: a branch never leaves the function
    let len = code.len() as i64;
    for (at, op) in code.iter().enumerate() {
        if let Op::Br(off) | Op::BrTrue(off) | Op::BrFalse(off) = op {
            let target = at as i64 + 1 + *off as i64;
            assert!(0 <= target && target < len, "{:?} at {} of {:?}", op, at, code);
        }
    }
    assert_eq!(code.last(), Some(&Op::Ret));
    assert_eq!(code.iter().filter(|op| **op == Op::CmpI).count(), 2);
}

#[test]
fn compile_failures() {
    assert_eq!(kind_of(vec![Stmt::Decl(let_("x", "bool", None))]), UnknownType("bool".into()));
    assert_eq!(kind_of(vec![Stmt::Expr(var("nobody"))]), NoSuchSymbol("nobody".into()));
    assert_eq!(kind_of(vec![Stmt::Expr(call("nobody", vec![]))]), NoSuchSymbol("nobody".into()));
    assert_eq!(
        kind_of(vec![Stmt::Decl(let_("x", "int", None)), Stmt::Decl(let_("x", "int", None))]),
        DuplicateSymbol("x".into())
    );
    assert_eq!(
        kind_of(vec![Stmt::Expr(Expr::As(AsExpr { span: Span::default(), val: P(lit(1)), ty: ty("void") }))]),
        VoidTypeVariable
    );
    assert_eq!(
        kind_of(vec![Stmt::Expr(bin(BinaryOp::Add, lit(1), call("getdouble", vec![])))]),
        TypeMismatch { expected: "int".into(), got: Some("double".into()) }
    );
    assert_eq!(kind_of(vec![ret(Some(lit(1)))]), TypeMismatch { expected: "void".into(), got: None });
    assert_eq!(kind_of(vec![assign(lit(1), lit(2))]), NotLValue);
    assert_eq!(
        kind_of(vec![Stmt::Expr(bin(
            BinaryOp::Add,
            bin(BinaryOp::Lt, lit(1), lit(2)),
            bin(BinaryOp::Lt, lit(1), lit(2)),
        ))]),
        InvalidCalculation("bool".into())
    );
    assert_eq!(
        kind_of(vec![Stmt::Expr(Expr::Unary(UnaryExpr {
            span: Span::default(),
            op: UnaryOp::Neg,
            expr: P(call("putint", vec![lit(1)])),
        }))]),
        InvalidCalculation("void".into())
    );
    assert_eq!(kind_of(vec![Stmt::Expr(call("putint", vec![]))]), FuncParamSizeMismatch(0, 1));
    // the library has no function that ends a line
    assert_eq!(kind_of(vec![Stmt::Expr(call("putln", vec![]))]), NoSuchSymbol("putln".into()));
    assert_eq!(
        kind_of(vec![Stmt::Expr(call("getint", vec![lit(1), lit(2)]))]),
        FuncParamSizeMismatch(2, 0)
    );
    assert_eq!(
        kind_of(vec![Stmt::Decl(let_("x", "int", None)), Stmt::Expr(call("x", vec![]))]),
        NoSuchSymbol("x".into())
    );
    // a function that returns a value must return on every route
    let program = Program { decls: vec![], funcs: vec![func("main", vec![], "int", vec![])] };
    assert_eq!(
        compile(&program),
        Err(CompileError { kind: NotAllRoutesReturn, span: Some(Span::new(0, 40)) })
    );
    let program = Program {
        decls: vec![],
        funcs: vec![func("main", vec![], "int", vec![ret(None)])],
    };
    assert_eq!(
        compile(&program),
        Err(CompileError {
            kind: TypeMismatch { expected: "int".into(), got: Some("void".into()) },
            span: Some(Span::new(9, 6)),
        })
    );
    // a program needs a `main`, and a name means one function
    assert_eq!(
        compile(&Program { decls: vec![], funcs: vec![] }).unwrap_err().kind,
        NoSuchSymbol("main".into())
    );
    let twice = Program {
        decls: vec![],
        funcs: vec![func("main", vec![], "void", vec![]), func("main", vec![], "void", vec![])],
    };
    assert_eq!(compile(&twice).unwrap_err().kind, DuplicateSymbol("main".into()));
    let params = Program {
        decls: vec![],
        funcs: vec![func("main", vec![("a", "int"), ("a", "int")], "void", vec![])],
    };
    assert_eq!(compile(&params).unwrap_err().kind, DuplicateSymbol("a".into()));
}
