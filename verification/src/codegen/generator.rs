//! The generator proper: from functions to basic blocks to instructions.

pub mod entries;
pub mod lower;
pub mod plan;
pub mod util;

use crate::codegen::code::{block_views, BasicBlock, BasicBlockView, Cond, JumpInst};
use crate::codegen::err::{
    CompileError, CompileErrorKind, CompileErrorKindView, CompileErrorView, WithSpan,
};
use crate::codegen::generator::entries::GlobalEntries;
use crate::codegen::generator::lower::{
    lower_arg, lower_args, lower_assign_to, lower_block, lower_break, lower_call, lower_continue,
    lower_decl, lower_expr, lower_func, lower_ident_addr, lower_if, lower_if_arm, lower_literal,
    lower_local, lower_params, lower_return, lower_return_value, lower_signature, lower_stmt,
    lower_stmts, lower_while, mismatch, param_slots, same_plain, GenView, Lowered,
};
use crate::codegen::generator::plan::{
    compiled, declared_params, function_code, initial_state, lemma_funcs_fail_on,
    lemma_params_fail_on, library_frame, library_names, library_param, library_prefix,
    library_ret, library_ty, lower_fn_decl, lower_fn_def, lower_funcs, lower_global,
    lower_globals, lower_head, lower_inits, lower_main_call, lower_start, no_span, zeros,
};
use crate::codegen::generator::util::{
    blocks_wf, layout_wf, linear_code, linearize, term_code, BBArranger, CompileResult,
    MAX_CODE_LEN,
};
use crate::codegen::index::{id_set_index_of, id_set_insert, id_set_items, id_set_new};
use crate::codegen::scope::{
    frames_declare, FrameView, Scope, Symbol, SymbolIdGenerator, SymbolView,
};
use crate::codegen::ty::{lemma_params_view, params_view, ty_view, FuncTy, Ty, TyView};
use crate::opcodes::Op;
use crate::s0::io::WriteBinary;
use crate::s0::{FnDef, FnDefView, GlobalValue, S0View, S0};
use crate::syntax::ast::{
    AsExpr, AssignExpr, AstNode, BinaryExpr, BinaryOp, BlockStmt, CallExpr, DeclStmt, Expr,
    FuncStmt, Ident, IfElseBlock, IfStmt, LiteralExpr, LiteralKind, Program, ReturnStmt, Stmt,
    TyDef, UnaryExpr, UnaryOp, WhileStmt,
};
use crate::syntax::span::Span;
use crate::syntax::util::P;
use crate::vm::alloc_free;
use indexmap::IndexSet;
use vstd::prelude::*;
use vstd::string::*;

verus! {

/// Where a named value of a function lives: in an argument or return slot,
/// or in a local slot. The offset counts slots.
#[derive(Debug, Copy, Clone, PartialEq, Eq, Structural)]
pub enum Place {
    Arg(u32),
    Loc(u32),
}

/// The type that a type name stands for, if it stands for one.
pub open spec fn named_ty(name: Seq<char>) -> Option<TyView> {
    if name == "int"@ {
        Some(TyView::Int)
    } else if name == "double"@ {
        Some(TyView::Double)
    } else if name == "void"@ {
        Some(TyView::Void)
    } else {
        None
    }
}

fn name_is(name: &String, lit: &str) -> (r: bool)
    ensures
        r == (name@ == lit@),
{
    let other = String::from_str(lit);
    *name == other
}

/// The type that a type definition stands for. Any name but `int`, `double`
/// and `void` is unknown.
pub fn get_ty(ty: &TyDef) -> (r: CompileResult<Ty>)
    ensures
        match named_ty(ty.name@) {
            Some(t) => r matches Ok(x) && x@ == t && !(x is Func),
            None => r matches Err(e) && e@ == (CompileErrorView {
                kind: CompileErrorKindView::UnknownType(ty.name@),
                span: Some(ty.span),
            }),
        },
{
    if name_is(&ty.name, "int") {
        Ok(Ty::Int)
    } else if name_is(&ty.name, "double") {
        Ok(Ty::Double)
    } else if name_is(&ty.name, "void") {
        Ok(Ty::Void)
    } else {
        Err(CompileError(CompileErrorKind::UnknownType(ty.name.clone()), Some(ty.span)))
    }
}

/// The type that a type definition stands for, where a value is to have the
/// type: `void` is refused.
pub fn get_ty_nonvoid(ty: &TyDef) -> (r: CompileResult<Ty>)
    ensures
        match named_ty(ty.name@) {
            Some(TyView::Void) => r matches Err(e) && e@ == (CompileErrorView {
                kind: CompileErrorKindView::VoidTypeVariable,
                span: Some(ty.span),
            }),
            Some(t) => r matches Ok(x) && x@ == t && !(x is Func),
            None => r matches Err(e) && e@ == (CompileErrorView {
                kind: CompileErrorKindView::UnknownType(ty.name@),
                span: Some(ty.span),
            }),
        },
{
    if name_is(&ty.name, "int") {
        Ok(Ty::Int)
    } else if name_is(&ty.name, "double") {
        Ok(Ty::Double)
    } else if name_is(&ty.name, "void") {
        Err(CompileError(CompileErrorKind::VoidTypeVariable, Some(ty.span)))
    } else {
        Err(CompileError(CompileErrorKind::UnknownType(ty.name.clone()), Some(ty.span)))
    }
}

/// The instruction that puts the address of a place on the stack.
pub fn op_load_address(place: Place) -> (op: Op)
    ensures
        op == spec_load_address(place),
{
    match place {
        Place::Arg(x) => Op::ArgA(x),
        Place::Loc(x) => Op::LocA(x),
    }
}

/// The load instruction of a type that is no function type.
pub open spec fn spec_load_ty(ty: TyView) -> Op {
    if ty is Void {
        Op::Pop
    } else {
        Op::Load64
    }
}

/// The store instruction of a type that is no function type.
pub open spec fn spec_store_ty(ty: TyView) -> Op {
    if ty is Void {
        Op::Pop
    } else {
        Op::Store64
    }
}

/// The instruction that puts the address of a place on the stack.
pub open spec fn spec_load_address(place: Place) -> Op {
    match place {
        Place::Arg(x) => Op::ArgA(x),
        Place::Loc(x) => Op::LocA(x),
    }
}

/// The instruction that replaces the address on the stack by the value of
/// the given type at it. A value of the empty type is nothing: the address is
/// dropped. A function has no value to load.
pub fn load_ty(ty: &Ty) -> (op: Op)
    requires
        !(*ty is Func),
    ensures
        op == spec_load_ty(ty@),
{
    match ty {
        Ty::Int => Op::Load64,
        Ty::Double => Op::Load64,
        Ty::Bool => Op::Load64,
        Ty::Addr => Op::Load64,
        _ => Op::Pop,
    }
}

/// The instruction that stores the value on the stack at the address below
/// it. A value of the empty type is nothing: the address is dropped. A
/// function has no value to store.
pub fn store_ty(ty: &Ty) -> (op: Op)
    requires
        !(*ty is Func),
    ensures
        op == spec_store_ty(ty@),
{
    match ty {
        Ty::Int => Op::Store64,
        Ty::Double => Op::Store64,
        Ty::Bool => Op::Store64,
        Ty::Addr => Op::Store64,
        _ => Op::Pop,
    }
}

/// The instructions of a binary operator on operands of the given type: on
/// integers and addresses the integer instructions, on doubles the float
/// ones. A comparison compares and then turns the outcome into a boolean.
/// Other types have no binary operators.
pub open spec fn spec_binary_op_op(op: BinaryOp, ty: TyView) -> Option<Seq<Op>> {
    match ty {
        TyView::Int | TyView::Addr => Some(
            match op {
                BinaryOp::Add => seq![Op::AddI],
                BinaryOp::Sub => seq![Op::SubI],
                BinaryOp::Mul => seq![Op::MulI],
                BinaryOp::Div => seq![Op::DivI],
                BinaryOp::Gt => seq![Op::CmpI, Op::SetGt],
                BinaryOp::Lt => seq![Op::CmpI, Op::SetLt],
                BinaryOp::Ge => seq![Op::CmpI, Op::SetLt, Op::Not],
                BinaryOp::Le => seq![Op::CmpI, Op::SetGt, Op::Not],
                BinaryOp::Eq => seq![Op::CmpI, Op::Not],
                BinaryOp::Neq => seq![Op::CmpI],
            },
        ),
        TyView::Double => Some(
            match op {
                BinaryOp::Add => seq![Op::AddF],
                BinaryOp::Sub => seq![Op::SubF],
                BinaryOp::Mul => seq![Op::MulF],
                BinaryOp::Div => seq![Op::DivF],
                BinaryOp::Gt => seq![Op::CmpF, Op::SetGt],
                BinaryOp::Lt => seq![Op::CmpF, Op::SetLt],
                BinaryOp::Ge => seq![Op::CmpF, Op::SetLt, Op::Not],
                BinaryOp::Le => seq![Op::CmpF, Op::SetGt, Op::Not],
                BinaryOp::Eq => seq![Op::CmpF, Op::Not],
                BinaryOp::Neq => seq![Op::CmpF],
            },
        ),
        _ => None,
    }
}

fn ops1(a: Op) -> (v: Vec<Op>)
    ensures
        v@ == seq![a],
{
    let mut v = Vec::new();
    v.push(a);
    v
}

fn ops2(a: Op, b: Op) -> (v: Vec<Op>)
    ensures
        v@ == seq![a, b],
{
    let mut v = Vec::new();
    v.push(a);
    v.push(b);
    v
}

fn ops3(a: Op, b: Op, c: Op) -> (v: Vec<Op>)
    ensures
        v@ == seq![a, b, c],
{
    let mut v = Vec::new();
    v.push(a);
    v.push(b);
    v.push(c);
    v
}

/// The instructions of a binary operator on operands of the given type.
pub fn binary_op_op(op: BinaryOp, ty: &Ty) -> (r: Option<Vec<Op>>)
    ensures
        match r {
            Some(v) => spec_binary_op_op(op, ty@) == Some(v@),
            None => spec_binary_op_op(op, ty@) is None,
        },
{
    match ty {
        Ty::Int | Ty::Addr => Some(
            match op {
                BinaryOp::Add => ops1(Op::AddI),
                BinaryOp::Sub => ops1(Op::SubI),
                BinaryOp::Mul => ops1(Op::MulI),
                BinaryOp::Div => ops1(Op::DivI),
                BinaryOp::Gt => ops2(Op::CmpI, Op::SetGt),
                BinaryOp::Lt => ops2(Op::CmpI, Op::SetLt),
                BinaryOp::Ge => ops3(Op::CmpI, Op::SetLt, Op::Not),
                BinaryOp::Le => ops3(Op::CmpI, Op::SetGt, Op::Not),
                BinaryOp::Eq => ops2(Op::CmpI, Op::Not),
                BinaryOp::Neq => ops1(Op::CmpI),
            },
        ),
        Ty::Double => Some(
            match op {
                BinaryOp::Add => ops1(Op::AddF),
                BinaryOp::Sub => ops1(Op::SubF),
                BinaryOp::Mul => ops1(Op::MulF),
                BinaryOp::Div => ops1(Op::DivF),
                BinaryOp::Gt => ops2(Op::CmpF, Op::SetGt),
                BinaryOp::Lt => ops2(Op::CmpF, Op::SetLt),
                BinaryOp::Ge => ops3(Op::CmpF, Op::SetLt, Op::Not),
                BinaryOp::Le => ops3(Op::CmpF, Op::SetGt, Op::Not),
                BinaryOp::Eq => ops2(Op::CmpF, Op::Not),
                BinaryOp::Neq => ops1(Op::CmpF),
            },
        ),
        _ => None,
    }
}

/// The instructions of a unary operator on an operand of the given type:
/// negation negates, the plus sign does nothing. Only integers and doubles
/// have unary operators.
pub open spec fn spec_unary_op_op(op: UnaryOp, ty: TyView) -> Option<Seq<Op>> {
    match ty {
        TyView::Int => Some(
            match op {
                UnaryOp::Neg => seq![Op::NegI],
                UnaryOp::Pos => Seq::empty(),
            },
        ),
        TyView::Double => Some(
            match op {
                UnaryOp::Neg => seq![Op::NegF],
                UnaryOp::Pos => Seq::empty(),
            },
        ),
        _ => None,
    }
}

/// The instructions of a unary operator on an operand of the given type.
pub fn unary_op_op(op: UnaryOp, ty: &Ty) -> (r: Option<Vec<Op>>)
    ensures
        match r {
            Some(v) => spec_unary_op_op(op, ty@) == Some(v@),
            None => spec_unary_op_op(op, ty@) is None,
        },
{
    match ty {
        Ty::Int => Some(
            match op {
                UnaryOp::Neg => ops1(Op::NegI),
                UnaryOp::Pos => Vec::new(),
            },
        ),
        Ty::Double => Some(
            match op {
                UnaryOp::Neg => ops1(Op::NegF),
                UnaryOp::Pos => Vec::new(),
            },
        ),
        _ => None,
    }
}

/// The instructions of a conversion: an integer or an address becomes a
/// double by `IToF`, a double an integer by `FToI`; between integers and
/// addresses, to the same type and to booleans nothing is to do. Every other
/// conversion is refused.
pub open spec fn spec_as_expr_op(from_ty: TyView, to_ty: TyView) -> Option<Seq<Op>> {
    match from_ty {
        TyView::Int | TyView::Addr => match to_ty {
            TyView::Int | TyView::Addr => Some(Seq::empty()),
            TyView::Double => Some(seq![Op::IToF]),
            TyView::Bool => Some(Seq::empty()),
            _ => None,
        },
        TyView::Double => match to_ty {
            TyView::Int => Some(seq![Op::FToI]),
            TyView::Double => Some(Seq::empty()),
            TyView::Bool => Some(Seq::empty()),
            _ => None,
        },
        _ => None,
    }
}

/// The instructions of a conversion.
pub fn as_expr_op(from_ty: &Ty, to_ty: &Ty) -> (r: Option<Vec<Op>>)
    ensures
        match r {
            Some(v) => spec_as_expr_op(from_ty@, to_ty@) == Some(v@),
            None => spec_as_expr_op(from_ty@, to_ty@) is None,
        },
{
    match from_ty {
        Ty::Int | Ty::Addr => match to_ty {
            Ty::Int | Ty::Addr => Some(Vec::new()),
            Ty::Double => Some(ops1(Op::IToF)),
            Ty::Bool => Some(Vec::new()),
            _ => None,
        },
        Ty::Double => match to_ty {
            Ty::Int => Some(ops1(Op::FToI)),
            Ty::Double => Some(Vec::new()),
            Ty::Bool => Some(Vec::new()),
            _ => None,
        },
        _ => None,
    }
}

/// The type of the result of a binary operator on operands of the given
/// type: that of the operands for arithmetic, a boolean for a comparison.
pub open spec fn spec_binary_op_result_ty(op: BinaryOp, ty: TyView) -> Option<TyView> {
    match ty {
        TyView::Int | TyView::Double | TyView::Addr => match op {
            BinaryOp::Add | BinaryOp::Sub | BinaryOp::Mul | BinaryOp::Div => Some(ty),
            _ => Some(TyView::Bool),
        },
        _ => None,
    }
}

/// The type of the result of a binary operator on operands of the given type.
pub fn binary_op_result_ty(op: BinaryOp, ty: &Ty) -> (r: Option<Ty>)
    ensures
        match r {
            Some(t) => spec_binary_op_result_ty(op, ty@) == Some(t@) && !(t is Func),
            None => spec_binary_op_result_ty(op, ty@) is None,
        },
{
    match ty {
        Ty::Int | Ty::Double | Ty::Addr => match op {
            BinaryOp::Add | BinaryOp::Sub | BinaryOp::Mul | BinaryOp::Div => ty.plain_copy(),
            _ => Some(Ty::Bool),
        },
        _ => None,
    }
}

/// The type of the result of a unary operator on an operand of the given
/// type: that of the operand, which is an integer or a double.
pub open spec fn spec_unary_op_result_ty(op: UnaryOp, ty: TyView) -> Option<TyView> {
    match ty {
        TyView::Int | TyView::Double => Some(ty),
        _ => None,
    }
}

/// The type of the result of a unary operator on an operand of the given type.
pub fn unary_op_result_ty(op: UnaryOp, ty: &Ty) -> (r: Option<Ty>)
    ensures
        match r {
            Some(t) => spec_unary_op_result_ty(op, ty@) == Some(t@) && !(t is Func),
            None => spec_unary_op_result_ty(op, ty@) is None,
        },
{
    match ty {
        Ty::Int | Ty::Double => ty.plain_copy(),
        _ => None,
    }
}

/// Whether an instruction names only functions and globals that exist among
/// `nf` functions and `ng` globals, and is none that is reserved and no
/// allocation: the generator makes no others.
pub open spec fn op_ok(op: Op, nf: int, ng: int) -> bool {
    match op {
        Op::Call(id) => id < nf,
        Op::GlobA(id) => id < ng,
        Op::CallName(id) => id < ng,
        Op::BrA(_) => false,
        Op::Alloc => false,
        _ => true,
    }
}

/// Whether all instructions of a sequence name only functions and globals
/// that exist.
pub open spec fn code_ok(code: Seq<Op>, nf: int, ng: int) -> bool {
    forall|i: int| 0 <= i < code.len() ==> op_ok(#[trigger] code[i], nf, ng)
}

/// Whether all instructions of all blocks name only functions and globals
/// that exist.
pub open spec fn blocks_ok(blocks: Seq<BasicBlockView>, nf: int, ng: int) -> bool {
    forall|b: int| 0 <= b < blocks.len() ==> code_ok((#[trigger] blocks[b]).code, nf, ng)
}

/// The generator of one function.
struct FuncCodegen<'f> {
    global_scope: &'f Scope<'f>,
    entries: GlobalEntries,
    symbol_gen: SymbolIdGenerator,
    basic_blocks: Vec<BasicBlock>,
    place_ids: IndexSet<u64>,
    places: Vec<Place>,
    arg_top: u32,
    loc_top: u32,
    /// For each loop around the statement that is compiled, the block behind
    /// the loop and the block of its condition.
    loops: Vec<(usize, usize)>,
    ret_ty: Ty,
}

fn failure(kind: CompileErrorKind, span: Span) -> (e: CompileError)
    ensures
        e@ == (CompileErrorView { kind: kind@, span: Some(span) }),
{
    CompileError(kind, Some(span))
}

fn type_mismatch(expected: &Ty, got: &Ty, span: Span) -> (e: CompileError)
    ensures
        e@ == (CompileErrorView { kind: mismatch(expected@, got@), span: Some(span) }),
{
    failure(
        CompileErrorKind::TypeMismatch {
            expected: expected.to_string(),
            got: Some(got.to_string()),
        },
        span,
    )
}

fn invalid_calculation(ty: &Ty, span: Span) -> (e: CompileError)
    ensures
        e@ == (CompileErrorView {
            kind: CompileErrorKindView::InvalidCalculation(ty@.name()),
            span: Some(span),
        }),
{
    failure(CompileErrorKind::InvalidCalculation(ty.to_string()), span)
}

fn no_such_symbol(name: &String, span: Span) -> (e: CompileError)
    ensures
        e@ == (CompileErrorView {
            kind: CompileErrorKindView::NoSuchSymbol(name@),
            span: Some(span),
        }),
{
    failure(CompileErrorKind::NoSuchSymbol(name.clone()), span)
}

fn duplicate_symbol(name: &str, span: Span) -> (e: CompileError)
    ensures
        e@ == (CompileErrorView {
            kind: CompileErrorKindView::DuplicateSymbol(name@),
            span: Some(span),
        }),
{
    failure(CompileErrorKind::DuplicateSymbol(String::from_str(name)), span)
}

fn misplaced(what: &str, span: Span) -> (e: CompileError)
    ensures
        e@ == (CompileErrorView {
            kind: CompileErrorKindView::InvalidCalculation(what@),
            span: Some(span),
        }),
{
    failure(CompileErrorKind::InvalidCalculation(String::from_str(what)), span)
}

proof fn lemma_blocks_grow(blocks: Seq<BasicBlockView>, nf: int, ng: int, ng2: int)
    requires
        blocks_ok(blocks, nf, ng),
        ng <= ng2,
    ensures
        blocks_ok(blocks, nf, ng2),
{
    assert forall|b: int| 0 <= b < blocks.len() implies code_ok((#[trigger] blocks[b]).code, nf, ng2) by {
        assert(code_ok(blocks[b].code, nf, ng));
    }
}

proof fn lemma_blocks_update(
    before: Seq<BasicBlockView>,
    k: int,
    block: BasicBlockView,
    nf: int,
    ng: int,
)
    requires
        blocks_wf(before),
        blocks_ok(before, nf, ng),
        0 <= k < before.len(),
        code_ok(block.code, nf, ng),
        match block.jump {
            JumpInst::Jump(t) => t < before.len(),
            JumpInst::JumpIf(_, t, f) => t < before.len() && f < before.len(),
            _ => true,
        },
    ensures
        blocks_wf(before.update(k, block)),
        blocks_ok(before.update(k, block), nf, ng),
{
    let after = before.update(k, block);
    assert forall|b: int| 0 <= b < after.len() implies code_ok((#[trigger] after[b]).code, nf, ng) by {
        if b != k {
            assert(code_ok(before[b].code, nf, ng));
        }
    }
    assert forall|i: int| 0 <= i < after.len() implies match (#[trigger] after[i]).jump {
        JumpInst::Jump(t) => t < after.len(),
        JumpInst::JumpIf(_, t, f) => t < after.len() && f < after.len(),
        _ => true,
    } by {
        if i != k {
            assert(after[i] == before[i]);
        }
    }
}

proof fn lemma_blocks_push(before: Seq<BasicBlockView>, nf: int, ng: int)
    requires
        blocks_wf(before),
        blocks_ok(before, nf, ng),
    ensures
        blocks_wf(before.push(BasicBlockView { code: Seq::empty(), jump: JumpInst::Undefined })),
        blocks_ok(
            before.push(BasicBlockView { code: Seq::empty(), jump: JumpInst::Undefined }),
            nf,
            ng,
        ),
{
    let after = before.push(BasicBlockView { code: Seq::empty(), jump: JumpInst::Undefined });
    assert forall|b: int| 0 <= b < after.len() implies code_ok((#[trigger] after[b]).code, nf, ng) by {
        if b < before.len() {
            assert(code_ok(before[b].code, nf, ng));
        }
    }
    assert forall|i: int| 0 <= i < after.len() implies match (#[trigger] after[i]).jump {
        JumpInst::Jump(t) => t < after.len(),
        JumpInst::JumpIf(_, t, f) => t < after.len() && f < after.len(),
        _ => true,
    } by {
        if i < before.len() {
            assert(after[i] == before[i]);
        }
    }
}

proof fn lemma_code_concat(a: Seq<Op>, b: Seq<Op>, nf: int, ng: int)
    requires
        code_ok(a, nf, ng),
        code_ok(b, nf, ng),
    ensures
        code_ok(a + b, nf, ng),
{
    assert forall|i: int| 0 <= i < (a + b).len() implies op_ok(#[trigger] (a + b)[i], nf, ng) by {
        if i < a.len() {
            assert((a + b)[i] == a[i]);
        } else {
            assert((a + b)[i] == b[i - a.len()]);
        }
    }
}

impl<'f> View for FuncCodegen<'f> {
    type V = GenView;

    closed spec fn view(&self) -> GenView {
        GenView {
            global_frames: self.global_scope.chain(),
            functions: self.entries.functions(),
            value_ids: self.entries.value_ids(),
            values: self.entries.values(),
            next_id: self.symbol_gen.upcoming(),
            blocks: block_views(self.basic_blocks@),
            place_ids: id_set_items(self.place_ids),
            places: self.places@,
            arg_top: self.arg_top,
            loc_top: self.loc_top,
            loops: self.loops@,
            ret_ty: self.ret_ty@,
        }
    }
}

/// How the lowering of an expression went, against what it should give.
spec fn expr_ok(
    before: GenView,
    after: &FuncCodegen,
    expected: Lowered<(GenView, TyView)>,
    r: CompileResult<Ty>,
) -> bool {
    match expected {
        Ok((st, ty)) => r matches Ok(t) && t@ == ty && !(t is Func) && after@ == st && after.inv()
            && after.extends(before) && after@.blocks.len() == before.blocks.len(),
        Err(e) => r matches Err(x) && x@ == e,
    }
}

/// How the lowering of a statement went, against what it should give.
spec fn stmt_ok(
    before: GenView,
    after: &FuncCodegen,
    expected: Lowered<(GenView, usize)>,
    r: CompileResult<usize>,
) -> bool {
    match expected {
        Ok((st, bb)) => r matches Ok(b) && b == bb && after@ == st && after.inv() && after.extends(
            before,
        ) && bb < after@.blocks.len(),
        Err(e) => r matches Err(x) && x@ == e,
    }
}

impl<'f> FuncCodegen<'f> {
    spec fn nf(&self) -> int {
        self.entries.functions().len() as int
    }

    spec fn ng(&self) -> int {
        self.entries.values().len() as int
    }

    spec fn inv(&self) -> bool {
        &&& self.global_scope.chain_wf()
        &&& self.entries.wf()
        &&& self@.place_ids.len() == self@.places.len()
        &&& self@.place_ids.no_duplicates()
        &&& blocks_wf(self@.blocks)
        &&& blocks_ok(self@.blocks, self.nf(), self.ng())
        &&& forall|l: int|
            0 <= l < self.loops@.len() ==> (#[trigger] self.loops@[l]).0 < self.basic_blocks@.len()
                && self.loops@[l].1 < self.basic_blocks@.len()
        &&& !(self.ret_ty is Func)
    }

    /// What a step of the generator keeps: the scope of the globals, the
    /// functions, the loops around and the return type; blocks and globals
    /// only come, none goes.
    spec fn extends(&self, before: GenView) -> bool {
        &&& self@.global_frames == before.global_frames
        &&& self@.functions == before.functions
        &&& self@.values.len() >= before.values.len()
        &&& self@.blocks.len() >= before.blocks.len()
        &&& self@.loops == before.loops
        &&& self@.ret_ty == before.ret_ty
    }

    fn new(scope: &'f Scope<'f>, entries: GlobalEntries, symbol_gen: SymbolIdGenerator, ret_ty: Ty) -> (fc:
        FuncCodegen<'f>)
        requires
            scope.chain_wf(),
            entries.wf(),
            !(ret_ty is Func),
        ensures
            fc.inv(),
            fc@ == (GenView {
                global_frames: scope.chain(),
                functions: entries.functions(),
                value_ids: entries.value_ids(),
                values: entries.values(),
                next_id: symbol_gen.upcoming(),
                blocks: Seq::empty(),
                place_ids: Seq::empty(),
                places: Seq::empty(),
                arg_top: 0,
                loc_top: 0,
                loops: Seq::empty(),
                ret_ty: ret_ty@,
            }),
            fc.global_scope == scope,
    {
        let fc = FuncCodegen {
            global_scope: scope,
            entries,
            symbol_gen,
            basic_blocks: Vec::new(),
            place_ids: id_set_new(),
            places: Vec::new(),
            arg_top: 0,
            loc_top: 0,
            loops: Vec::new(),
            ret_ty,
        };
        assert(fc@.blocks =~= Seq::<BasicBlockView>::empty());
        fc
    }

    fn new_bb(&mut self) -> (bb_id: usize)
        requires
            old(self).inv(),
        ensures
            final(self).inv(),
            final(self).extends(old(self)@),
            bb_id == old(self)@.next_bb(),
            bb_id == old(self)@.blocks.len(),
            final(self)@ == old(self)@.new_bb(),
            final(self).global_scope == old(self).global_scope,
    {
        let bb_id = self.basic_blocks.len();
        self.basic_blocks.push(BasicBlock::new());
        proof {
            assert(self@.blocks =~= old(self)@.new_bb().blocks);
            lemma_blocks_push(old(self)@.blocks, self.nf(), self.ng());
        }
        bb_id
    }

    fn append_code(&mut self, bb_id: usize, code: Op)
        requires
            old(self).inv(),
            bb_id < old(self)@.blocks.len(),
            op_ok(code, old(self).nf(), old(self).ng()),
        ensures
            final(self).inv(),
            final(self).extends(old(self)@),
            final(self)@ == old(self)@.append(bb_id as int, code),
            final(self)@.blocks.len() == old(self)@.blocks.len(),
            final(self).global_scope == old(self).global_scope,
    {
        let mut block = BasicBlock::new();
        let ghost before = self@.blocks;
        core::mem::swap(&mut block, &mut self.basic_blocks[bb_id]);
        block.code.push(code);
        let ghost updated = block@;
        self.basic_blocks.set(bb_id, block);
        proof {
            assert(before[bb_id as int].code.push(code) =~= before[bb_id as int].code + seq![code]);
            assert(self@.blocks =~= before.update(bb_id as int, updated));
            assert(code_ok(before[bb_id as int].code, self.nf(), self.ng()));
            assert(code_ok(seq![code], self.nf(), self.ng()));
            lemma_code_concat(before[bb_id as int].code, seq![code], self.nf(), self.ng());
            lemma_blocks_update(before, bb_id as int, updated, self.nf(), self.ng());
        }
    }

    fn set_jump(&mut self, bb_id: usize, jump: JumpInst)
        requires
            old(self).inv(),
            bb_id < old(self)@.blocks.len(),
            match jump {
                JumpInst::Jump(t) => t < old(self)@.blocks.len(),
                JumpInst::JumpIf(_, t, f) => t < old(self)@.blocks.len() && f < old(self)@.blocks.len(),
                _ => true,
            },
        ensures
            final(self).inv(),
            final(self).extends(old(self)@),
            final(self)@ == old(self)@.set_jump(bb_id as int, jump),
            final(self)@.blocks.len() == old(self)@.blocks.len(),
            final(self).global_scope == old(self).global_scope,
    {
        let mut block = BasicBlock::new();
        let ghost before = self@.blocks;
        core::mem::swap(&mut block, &mut self.basic_blocks[bb_id]);
        block.jump = jump;
        let ghost updated = block@;
        self.basic_blocks.set(bb_id, block);
        proof {
            assert(self@.blocks =~= before.update(bb_id as int, updated));
            assert(code_ok(before[bb_id as int].code, self.nf(), self.ng()));
            lemma_blocks_update(before, bb_id as int, updated, self.nf(), self.ng());
        }
    }

    fn append_all(&mut self, bb_id: usize, code: &Vec<Op>)
        requires
            old(self).inv(),
            bb_id < old(self)@.blocks.len(),
            code_ok(code@, old(self).nf(), old(self).ng()),
        ensures
            final(self).inv(),
            final(self).extends(old(self)@),
            final(self)@ == old(self)@.append_all(bb_id as int, code@),
            final(self)@.blocks.len() == old(self)@.blocks.len(),
            final(self).global_scope == old(self).global_scope,
    {
        let mut i: usize = 0;
        proof {
            let st = old(self)@;
            assert(st.blocks[bb_id as int].code + code@.take(0) =~= st.blocks[bb_id as int].code);
            assert(st.append_all(bb_id as int, code@.take(0)).blocks =~= st.blocks);
        }
        while i < code.len()
            invariant
                i <= code@.len(),
                self.inv(),
                self.extends(old(self)@),
                self@ == old(self)@.append_all(bb_id as int, code@.take(i as int)),
                self@.blocks.len() == old(self)@.blocks.len(),
                self.global_scope == old(self).global_scope,
                bb_id < self@.blocks.len(),
                code_ok(code@, self.nf(), self.ng()),
            decreases code@.len() - i,
        {
            self.append_code(bb_id, code[i]);
            proof {
                let st = old(self)@;
                let base = st.blocks[bb_id as int].code;
                assert((base + code@.take(i as int)) + seq![code@[i as int]] =~= base + code@.take(
                    i + 1,
                ));
                assert(self@.blocks =~= st.append_all(bb_id as int, code@.take(i + 1)).blocks);
            }
            i = i + 1;
        }
        assert(code@.take(i as int) =~= code@);
    }

    fn get_place(&self, var_id: u64) -> (r: Option<Place>)
        requires
            self.inv(),
        ensures
            r == self@.get_place(var_id),
    {
        match id_set_index_of(&self.place_ids, var_id) {
            Some(i) => {
                proof {
                    let ids = self@.place_ids;
                    assert(ids[i as int] == var_id);
                    assert(ids.contains(var_id));
                    assert(ids[ids.index_of(var_id)] == var_id);
                }
                Some(self.places[i])
            },
            None => None,
        }
    }

    fn set_place(&mut self, var_id: u64, place: Place)
        requires
            old(self).inv(),
        ensures
            final(self).inv(),
            final(self).extends(old(self)@),
            final(self)@ == old(self)@.set_place(var_id, place),
            final(self).global_scope == old(self).global_scope,
    {
        let ghost ids = self@.place_ids;
        let placed = id_set_insert(&mut self.place_ids, var_id);
        if placed.1 {
            self.places.push(place);
            proof {
                assert forall|i: int, j: int|
                    0 <= i < self@.place_ids.len() && 0 <= j < self@.place_ids.len() && i
                        != j implies self@.place_ids[i] != self@.place_ids[j] by {
                    if i < ids.len() && j < ids.len() {
                        assert(ids[i] != ids[j]);
                    } else if i < ids.len() {
                        assert(ids.contains(ids[i]));
                    } else if j < ids.len() {
                        assert(ids.contains(ids[j]));
                    }
                }
            }
        } else {
            proof {
                assert(ids[placed.0 as int] == var_id);
                assert(ids.contains(var_id));
                assert(ids[ids.index_of(var_id)] == var_id);
            }
            self.places.set(placed.0, place);
        }
    }

    /// Enters a global constant that holds the bytes of a string, under a
    /// fresh symbol id, and gives its id in the module.
    fn add_literal(&mut self, s: &str, span: Span) -> (r: CompileResult<u32>)
        requires
            old(self).inv(),
        ensures
            match old(self)@.add_literal(s@) {
                Some((st, g)) => r == Ok::<u32, CompileError>(g) && final(self)@ == st && final(self).inv() && final(self).extends(old(self)@) && g < final(self).ng() && final(self)@.blocks == old(self)@.blocks,
                None => r matches Err(x) && x@ == (CompileErrorView {
                    kind: CompileErrorKindView::DuplicateSymbol(s@),
                    span: Some(span),
                }),
            },
            final(self).global_scope == old(self).global_scope,
    {
        let val_id = match self.symbol_gen.try_next() {
            Some(id) => id,
            None => {
                return Err(duplicate_symbol(s, span));
            },
        };
        let ghost ids = self@.value_ids;
        match self.entries.insert_string_literal(s, val_id) {
            Some(id) => {
                proof {
                    lemma_blocks_grow(self@.blocks, self.nf(), old(self).ng(), self.ng());
                    if ids.contains(val_id) {
                        assert(ids[ids.index_of(val_id)] == val_id);
                    }
                }
                Ok(id)
            },
            None => Err(duplicate_symbol(s, span)),
        }
    }

    /// Puts the address of a named value on the stack, and gives its type.
    /// A name that stands for nothing, or for a function, has no address.
    fn gen_ident_addr(&mut self, i: &Ident, bb_id: usize, scope: &Scope) -> (r: CompileResult<Ty>)
        requires
            old(self).inv(),
            bb_id < old(self)@.blocks.len(),
            scope.chain_wf(),
        ensures
            expr_ok(
                old(self)@,
                final(self),
                lower_ident_addr(old(self)@, *i, bb_id as int, scope.chain()),
                r,
            ),
            final(self).global_scope == old(self).global_scope,
    {
        let (sym, is_global) = match scope.find_is_global(i.name.as_str()) {
            Some(found) => found,
            None => {
                return Err(no_such_symbol(&i.name, i.span));
            },
        };
        let ty = match sym.ty.plain_copy() {
            Some(ty) => ty,
            None => {
                return Err(invalid_calculation(&sym.ty, i.span));
            },
        };
        if is_global {
            let global_val_id = match self.entries.value_id(sym.id) {
                Some(id) => id,
                None => {
                    return Err(no_such_symbol(&i.name, i.span));
                },
            };
            self.append_code(bb_id, Op::GlobA(global_val_id));
        } else {
            let place = match self.get_place(sym.id) {
                Some(p) => p,
                None => {
                    return Err(no_such_symbol(&i.name, i.span));
                },
            };
            self.append_code(bb_id, op_load_address(place));
        }
        Ok(ty)
    }

    fn compile_ident_expr(&mut self, expr: &Ident, bb_id: usize, scope: &Scope) -> (r: CompileResult<
        Ty,
    >)
        requires
            old(self).inv(),
            bb_id < old(self)@.blocks.len(),
            scope.chain_wf(),
        ensures
            expr_ok(
                old(self)@,
                final(self),
                lower_expr(old(self)@, Expr::Ident(*expr), bb_id as int, scope.chain()),
                r,
            ),
            final(self).global_scope == old(self).global_scope,
    {
        let ty = match self.gen_ident_addr(expr, bb_id, scope) {
            Ok(ty) => ty,
            Err(e) => {
                return Err(e);
            },
        };
        self.append_code(bb_id, load_ty(&ty));
        Ok(ty)
    }

    fn compile_literal_expr(&mut self, expr: &LiteralExpr, bb_id: usize) -> (r: CompileResult<Ty>)
        requires
            old(self).inv(),
            bb_id < old(self)@.blocks.len(),
        ensures
            expr_ok(old(self)@, final(self), lower_literal(old(self)@, *expr, bb_id as int), r),
            final(self).global_scope == old(self).global_scope,
    {
        match &expr.kind {
            LiteralKind::Integer(i) => {
                self.append_code(bb_id, Op::Push(*i));
                Ok(Ty::Int)
            },
            LiteralKind::Float(f) => {
                self.append_code(bb_id, Op::Push(*f));
                Ok(Ty::Double)
            },
            LiteralKind::String(s) => {
                let glob_id = match self.add_literal(s.as_str(), expr.span) {
                    Ok(id) => id,
                    Err(e) => {
                        return Err(e);
                    },
                };
                self.append_code(bb_id, Op::GlobA(glob_id));
                Ok(Ty::Addr)
            },
            LiteralKind::Char(c) => {
                self.append_code(bb_id, Op::Push((*c as u32) as u64));
                Ok(Ty::Int)
            },
        }
    }

    /// Lowers an expression into a block: the instructions leave the value
    /// of the expression on the stack. Gives the type of the expression.
    fn compile_expr(&mut self, expr: &Expr, bb_id: usize, scope: &Scope) -> (r: CompileResult<Ty>)
        requires
            old(self).inv(),
            bb_id < old(self)@.blocks.len(),
            scope.chain_wf(),
        ensures
            expr_ok(
                old(self)@,
                final(self),
                lower_expr(old(self)@, *expr, bb_id as int, scope.chain()),
                r,
            ),
            final(self).global_scope == old(self).global_scope,
        decreases expr, 0nat,
    {
        match expr {
            Expr::Ident(e) => self.compile_ident_expr(e, bb_id, scope),
            Expr::Assign(e) => self.compile_assign_expr(e, bb_id, scope),
            Expr::As(e) => self.compile_as_expr(e, bb_id, scope),
            Expr::Literal(e) => self.compile_literal_expr(e, bb_id),
            Expr::Unary(e) => self.compile_unary_expr(e, bb_id, scope),
            Expr::Binary(e) => self.compile_binary_expr(e, bb_id, scope),
            Expr::Call(e) => self.compile_call_expr(e, bb_id, scope),
        }
    }

    /// Stores the value of an expression in the named value: the address,
    /// then the value, then the store. The types must be the same.
    fn compile_assign_to(&mut self, target: &Ident, rhs: &Expr, bb_id: usize, scope: &Scope) -> (r:
        CompileResult<Ty>)
        requires
            old(self).inv(),
            bb_id < old(self)@.blocks.len(),
            scope.chain_wf(),
        ensures
            expr_ok(
                old(self)@,
                final(self),
                lower_assign_to(old(self)@, *target, *rhs, bb_id as int, scope.chain()),
                r,
            ),
            final(self).global_scope == old(self).global_scope,
        decreases rhs, 1nat,
    {
        let lhs_ty = match self.gen_ident_addr(target, bb_id, scope) {
            Ok(ty) => ty,
            Err(e) => {
                return Err(e);
            },
        };
        let rhs_ty = match self.compile_expr(rhs, bb_id, scope) {
            Ok(ty) => ty,
            Err(e) => {
                return Err(e);
            },
        };
        if !lhs_ty.same_plain(&rhs_ty) {
            return Err(type_mismatch(&lhs_ty, &rhs_ty, rhs.span()));
        }
        self.append_code(bb_id, store_ty(&lhs_ty));
        Ok(Ty::Void)
    }

    fn compile_assign_expr(&mut self, expr: &AssignExpr, bb_id: usize, scope: &Scope) -> (r:
        CompileResult<Ty>)
        requires
            old(self).inv(),
            bb_id < old(self)@.blocks.len(),
            scope.chain_wf(),
        ensures
            expr_ok(
                old(self)@,
                final(self),
                lower_expr(old(self)@, Expr::Assign(*expr), bb_id as int, scope.chain()),
                r,
            ),
            final(self).global_scope == old(self).global_scope,
        decreases expr, 0nat,
    {
        match &*expr.lhs {
            Expr::Ident(i) => self.compile_assign_to(i, &*expr.rhs, bb_id, scope),
            other => Err(failure(CompileErrorKind::NotLValue, other.span())),
        }
    }

    fn compile_binary_expr(&mut self, expr: &BinaryExpr, bb_id: usize, scope: &Scope) -> (r:
        CompileResult<Ty>)
        requires
            old(self).inv(),
            bb_id < old(self)@.blocks.len(),
            scope.chain_wf(),
        ensures
            expr_ok(
                old(self)@,
                final(self),
                lower_expr(old(self)@, Expr::Binary(*expr), bb_id as int, scope.chain()),
                r,
            ),
            final(self).global_scope == old(self).global_scope,
        decreases expr, 0nat,
    {
        let lhs_ty = match self.compile_expr(&*expr.lhs, bb_id, scope) {
            Ok(ty) => ty,
            Err(e) => {
                return Err(e);
            },
        };
        let rhs_ty = match self.compile_expr(&*expr.rhs, bb_id, scope) {
            Ok(ty) => ty,
            Err(e) => {
                return Err(e);
            },
        };
        if !lhs_ty.same_plain(&rhs_ty) {
            return Err(type_mismatch(&lhs_ty, &rhs_ty, expr.rhs.span()));
        }
        let code = match binary_op_op(expr.op, &lhs_ty) {
            Some(code) => code,
            None => {
                return Err(invalid_calculation(&lhs_ty, expr.rhs.span()));
            },
        };
        let result = match binary_op_result_ty(expr.op, &lhs_ty) {
            Some(ty) => ty,
            None => {
                return Err(invalid_calculation(&lhs_ty, expr.rhs.span()));
            },
        };
        self.append_all(bb_id, &code);
        Ok(result)
    }

    fn compile_unary_expr(&mut self, expr: &UnaryExpr, bb_id: usize, scope: &Scope) -> (r: CompileResult<
        Ty,
    >)
        requires
            old(self).inv(),
            bb_id < old(self)@.blocks.len(),
            scope.chain_wf(),
        ensures
            expr_ok(
                old(self)@,
                final(self),
                lower_expr(old(self)@, Expr::Unary(*expr), bb_id as int, scope.chain()),
                r,
            ),
            final(self).global_scope == old(self).global_scope,
        decreases expr, 0nat,
    {
        let lhs_ty = match self.compile_expr(&*expr.expr, bb_id, scope) {
            Ok(ty) => ty,
            Err(e) => {
                return Err(e);
            },
        };
        let code = match unary_op_op(expr.op, &lhs_ty) {
            Some(code) => code,
            None => {
                return Err(invalid_calculation(&lhs_ty, expr.expr.span()));
            },
        };
        let result = match unary_op_result_ty(expr.op, &lhs_ty) {
            Some(ty) => ty,
            None => {
                return Err(invalid_calculation(&lhs_ty, expr.expr.span()));
            },
        };
        self.append_all(bb_id, &code);
        Ok(result)
    }

    fn compile_as_expr(&mut self, expr: &AsExpr, bb_id: usize, scope: &Scope) -> (r: CompileResult<Ty>)
        requires
            old(self).inv(),
            bb_id < old(self)@.blocks.len(),
            scope.chain_wf(),
        ensures
            expr_ok(
                old(self)@,
                final(self),
                lower_expr(old(self)@, Expr::As(*expr), bb_id as int, scope.chain()),
                r,
            ),
            final(self).global_scope == old(self).global_scope,
        decreases expr, 0nat,
    {
        let lhs_ty = match self.compile_expr(&*expr.val, bb_id, scope) {
            Ok(ty) => ty,
            Err(e) => {
                return Err(e);
            },
        };
        let rhs_ty = match get_ty_nonvoid(&expr.ty) {
            Ok(ty) => ty,
            Err(e) => {
                return Err(e);
            },
        };
        let code = match as_expr_op(&lhs_ty, &rhs_ty) {
            Some(code) => code,
            None => {
                return Err(invalid_calculation(&lhs_ty, expr.ty.span));
            },
        };
        self.append_all(bb_id, &code);
        Ok(rhs_ty)
    }
}

impl<'f> FuncCodegen<'f> {
    /// Lowers the arguments of a call from left to right; each must have the
    /// type of its parameter.
    fn compile_args(&mut self, expr: &CallExpr, func_ty: &FuncTy, bb_id: usize, scope: &Scope) -> (r:
        CompileResult<()>)
        requires
            old(self).inv(),
            bb_id < old(self)@.blocks.len(),
            scope.chain_wf(),
        ensures
            match lower_args(
                old(self)@,
                *expr,
                0,
                bb_id as int,
                scope.chain(),
                params_view(*func_ty, 0),
            ) {
                Ok(st) => r is Ok && final(self)@ == st && final(self).inv() && final(self).extends(
                    old(self)@,
                ) && final(self)@.blocks.len() == old(self)@.blocks.len(),
                Err(e) => r matches Err(x) && x@ == e,
            },
            final(self).global_scope == old(self).global_scope,
        decreases expr, 0nat,
    {
        let ghost params = params_view(*func_ty, 0);
        proof {
            lemma_params_view(*func_ty, 0);
        }
        let mut k: usize = 0;
        while k < expr.params.len()
            invariant
                k <= expr.params@.len(),
                self.inv(),
                self.extends(old(self)@),
                self@.blocks.len() == old(self)@.blocks.len(),
                self.global_scope == old(self).global_scope,
                bb_id < self@.blocks.len(),
                scope.chain_wf(),
                params == params_view(*func_ty, 0),
                params.len() == func_ty.params@.len(),
                forall|i: int|
                    0 <= i < func_ty.params@.len() ==> #[trigger] params[i] == ty_view(
                        *func_ty.params@[i],
                    ),
                lower_args(old(self)@, *expr, 0, bb_id as int, scope.chain(), params) == lower_args(
                    self@,
                    *expr,
                    k as nat,
                    bb_id as int,
                    scope.chain(),
                    params,
                ),
            decreases expr.params@.len() - k,
        {
            let param = &expr.params[k];
            let ty = match self.compile_expr(param, bb_id, scope) {
                Ok(ty) => ty,
                Err(e) => {
                    return Err(e);
                },
            };
            if k < func_ty.params.len() {
                let want = &*func_ty.params[k];
                assert(want@ == params[k as int]);
                if !ty.same_plain(want) {
                    return Err(type_mismatch(&ty, want, param.span()));
                }
            }
            k = k + 1;
        }
        Ok(())
    }

    /// Lowers a call: the return slots of a function of the program are
    /// allocated first, then the arguments are evaluated from left to right,
    /// then the function is called by its id, or, where it is a library
    /// function, by its name.
    fn compile_call_expr(&mut self, expr: &CallExpr, bb_id: usize, scope: &Scope) -> (r: CompileResult<
        Ty,
    >)
        requires
            old(self).inv(),
            bb_id < old(self)@.blocks.len(),
            scope.chain_wf(),
        ensures
            expr_ok(
                old(self)@,
                final(self),
                lower_call(old(self)@, *expr, bb_id as int, scope.chain()),
                r,
            ),
            final(self).global_scope == old(self).global_scope,
        decreases expr, 1nat,
    {
        let globals: &'f Scope<'f> = self.global_scope;
        let func_sig = match globals.find(expr.func.name.as_str()) {
            Some(sym) => sym,
            None => {
                return Err(no_such_symbol(&expr.func.name, expr.func.span));
            },
        };
        let func_ty = match func_sig.ty.get_func() {
            Some(f) => f,
            None => {
                return Err(
                    failure(
                        CompileErrorKind::TypeMismatch {
                            expected: String::from_str("function"),
                            got: Some(func_sig.ty.to_string()),
                        },
                        expr.func.span,
                    ),
                );
            },
        };
        let ret_ty = match func_ty.ret.plain_copy() {
            Some(ty) => ty,
            None => {
                return Err(invalid_calculation(&*func_ty.ret, expr.func.span));
            },
        };
        let func_id = self.entries.function_id(expr.func.name.as_str());
        if func_id.is_some() && ret_ty.size_slot() > 0 {
            self.append_code(bb_id, Op::StackAlloc(ret_ty.size_slot() as u32));
        }
        match self.compile_args(expr, func_ty, bb_id, scope) {
            Ok(()) => {},
            Err(e) => {
                return Err(e);
            },
        }
        proof {
            lemma_params_view(*func_ty, 0);
        }
        if expr.params.len() != func_ty.params.len() {
            return Err(
                failure(
                    CompileErrorKind::FuncParamSizeMismatch(
                        expr.params.len(),
                        func_ty.params.len(),
                    ),
                    expr.span,
                ),
            );
        }
        match func_id {
            Some(id) => {
                self.append_code(bb_id, Op::Call(id));
            },
            None => {
                let glob_id = match self.add_literal(expr.func.name.as_str(), expr.func.span) {
                    Ok(id) => id,
                    Err(e) => {
                        return Err(e);
                    },
                };
                self.append_code(bb_id, Op::CallName(glob_id));
            },
        }
        Ok(ret_ty)
    }
}

/// Declares the value of a declaration in a scope, and gives the id of its
/// symbol and its type. A name that the scope declares already is refused.
fn add_decl_scope(decl: &DeclStmt, scope: &mut Scope, symbol_gen: &mut SymbolIdGenerator) -> (r:
    CompileResult<(u64, Ty)>)
    requires
        old(scope).chain_wf(),
    ensures
        final(scope).outer() == old(scope).outer(),
        final(scope).chain_wf(),
        match named_ty(decl.ty.name@) {
            None => r matches Err(x) && x@ == (CompileErrorView {
                kind: CompileErrorKindView::UnknownType(decl.ty.name@),
                span: Some(decl.ty.span),
            }),
            Some(ty) => if old(scope).chain()[0].names.contains(decl.name.name@) || old(symbol_gen).upcoming() == u64::MAX {
                r matches Err(x) && x@ == (CompileErrorView {
                    kind: CompileErrorKindView::DuplicateSymbol(decl.name.name@),
                    span: Some(decl.name.span),
                })
            } else {
                r matches Ok((id, t)) && id == old(symbol_gen).upcoming() && t@ == ty && !(t is Func)
                    && final(symbol_gen).upcoming() == id + 1 && final(scope).chain()
                    == frames_declare(
                    old(scope).chain(),
                    decl.name.name@,
                    SymbolView { id, ty, is_const: decl.is_const },
                )
            },
        },
{
    proof {
        scope.lemma_chain();
    }
    let ty = match get_ty(&decl.ty) {
        Ok(ty) => ty,
        Err(e) => {
            return Err(e);
        },
    };
    let copy = match ty.plain_copy() {
        Some(t) => t,
        None => {
            return Err(invalid_calculation(&ty, decl.ty.span));
        },
    };
    let symbol = Symbol::new(ty, decl.is_const);
    match scope.insert(symbol_gen, decl.name.name.clone(), symbol) {
        Some(id) => Ok((id, copy)),
        None => Err(duplicate_symbol(decl.name.name.as_str(), decl.name.span)),
    }
}

impl<'f> FuncCodegen<'f> {
    /// Lowers the statements of a block, in a scope of their own, one after
    /// the other; each goes on in the block where the one before ended.
    fn compile_block(&mut self, blk: &BlockStmt, bb_id: usize, scope: &Scope) -> (r: CompileResult<
        usize,
    >)
        requires
            old(self).inv(),
            bb_id < old(self)@.blocks.len(),
            scope.chain_wf(),
        ensures
            stmt_ok(
                old(self)@,
                final(self),
                lower_block(old(self)@, *blk, bb_id, scope.chain()),
                r,
            ),
            final(self).global_scope == old(self).global_scope,
        decreases blk, 0nat,
    {
        let mut block_scope = Scope::new_with_parent(scope);
        let mut cur_bb_id = bb_id;
        let mut i: usize = 0;
        while i < blk.stmts.len()
            invariant
                i <= blk.stmts@.len(),
                self.inv(),
                self.extends(old(self)@),
                self.global_scope == old(self).global_scope,
                cur_bb_id < self@.blocks.len(),
                block_scope.chain_wf(),
                lower_block(old(self)@, *blk, bb_id, scope.chain()) == lower_stmts(
                    self@,
                    *blk,
                    i as nat,
                    cur_bb_id,
                    block_scope.chain(),
                ),
            decreases blk.stmts@.len() - i,
        {
            cur_bb_id = match self.compile_stmt(&blk.stmts[i], cur_bb_id, &mut block_scope) {
                Ok(bb) => bb,
                Err(e) => {
                    return Err(e);
                },
            };
            i = i + 1;
        }
        Ok(cur_bb_id)
    }

    /// Lowers a statement that begins in the given block, and gives the
    /// block in which the next statement begins.
    fn compile_stmt(&mut self, stmt: &Stmt, bb_id: usize, scope: &mut Scope) -> (r: CompileResult<
        usize,
    >)
        requires
            old(self).inv(),
            bb_id < old(self)@.blocks.len(),
            old(scope).chain_wf(),
        ensures
            final(scope).chain_wf(),
            match lower_stmt(old(self)@, *stmt, bb_id, old(scope).chain()) {
                Ok((st, bb, frames)) => r matches Ok(b) && b == bb && final(self)@ == st && final(self).inv() && final(self).extends(old(self)@) && bb < final(self)@.blocks.len()
                    && final(scope).chain() == frames,
                Err(e) => r matches Err(x) && x@ == e,
            },
            final(self).global_scope == old(self).global_scope,
        decreases stmt, 0nat,
    {
        match stmt {
            Stmt::Block(blk) => self.compile_block(blk, bb_id, scope),
            Stmt::While(stmt) => self.compile_while(stmt, bb_id, scope),
            Stmt::If(stmt) => self.compile_if(stmt, bb_id, scope),
            Stmt::Expr(expr) => {
                match self.compile_expr(expr, bb_id, scope) {
                    Ok(_) => Ok(bb_id),
                    Err(e) => Err(e),
                }
            },
            Stmt::Decl(stmt) => self.compile_decl(stmt, bb_id, scope),
            Stmt::Return(stmt) => self.compile_return(stmt, bb_id, scope),
            Stmt::Break(span) => self.compile_break(*span, bb_id),
            Stmt::Continue(span) => self.compile_continue(*span, bb_id),
            Stmt::Empty(_) => Ok(bb_id),
        }
    }

    /// Lowers a loop: the block before jumps to the condition, the
    /// condition to the body or behind the loop, the end of the body back to
    /// the condition. The next statement begins behind the loop.
    fn compile_while(&mut self, stmt: &WhileStmt, bb_id: usize, scope: &Scope) -> (r: CompileResult<
        usize,
    >)
        requires
            old(self).inv(),
            bb_id < old(self)@.blocks.len(),
            scope.chain_wf(),
        ensures
            stmt_ok(
                old(self)@,
                final(self),
                lower_while(old(self)@, *stmt, bb_id, scope.chain()),
                r,
            ),
            final(self).global_scope == old(self).global_scope,
        decreases stmt, 0nat,
    {
        let cond_bb = self.new_bb();
        let body_bb = self.new_bb();
        let next_bb = self.new_bb();
        match self.compile_expr(&*stmt.cond, cond_bb, scope) {
            Ok(_) => {},
            Err(e) => {
                return Err(e);
            },
        }
        self.set_jump(bb_id, JumpInst::Jump(cond_bb));
        self.set_jump(cond_bb, JumpInst::JumpIf(Cond::Eq, body_bb, next_bb));
        let ghost outside = self.loops@;
        self.loops.push((next_bb, cond_bb));
        let body_end_bb = match self.compile_block(&*stmt.body, body_bb, scope) {
            Ok(bb) => bb,
            Err(e) => {
                return Err(e);
            },
        };
        let ghost inside = self.loops@;
        let _ = self.loops.pop();
        assert(self.loops@ =~= inside.drop_last());
        assert(self.loops@ =~= outside);
        self.set_jump(body_end_bb, JumpInst::Jump(cond_bb));
        Ok(next_bb)
    }

    /// Lowers a chain of conditions: each condition jumps to its body or to
    /// the next condition, the last one to the else body or behind the
    /// chain; each body jumps behind the chain, where the next statement
    /// begins.
    fn compile_if(&mut self, stmt: &IfStmt, bb_id: usize, scope: &Scope) -> (r: CompileResult<usize>)
        requires
            old(self).inv(),
            bb_id < old(self)@.blocks.len(),
            scope.chain_wf(),
        ensures
            stmt_ok(old(self)@, final(self), lower_if(old(self)@, *stmt, bb_id, scope.chain()), r),
            final(self).global_scope == old(self).global_scope,
        decreases stmt, 1nat,
    {
        let end_bb = self.new_bb();
        let cond_bb = self.new_bb();
        self.set_jump(bb_id, JumpInst::Jump(cond_bb));
        match self.compile_if_arm(stmt, cond_bb, end_bb, scope) {
            Ok(()) => Ok(end_bb),
            Err(e) => Err(e),
        }
    }

    fn compile_if_arm(&mut self, stmt: &IfStmt, cond_bb: usize, end_bb: usize, scope: &Scope) -> (r:
        CompileResult<()>)
        requires
            old(self).inv(),
            cond_bb < old(self)@.blocks.len(),
            end_bb < old(self)@.blocks.len(),
            scope.chain_wf(),
        ensures
            match lower_if_arm(old(self)@, *stmt, cond_bb, end_bb, scope.chain()) {
                Ok(st) => r is Ok && final(self)@ == st && final(self).inv() && final(self).extends(
                    old(self)@,
                ),
                Err(e) => r matches Err(x) && x@ == e,
            },
            final(self).global_scope == old(self).global_scope,
        decreases stmt, 0nat,
    {
        match self.compile_expr(&*stmt.cond, cond_bb, scope) {
            Ok(_) => {},
            Err(e) => {
                return Err(e);
            },
        }
        let body_bb = self.new_bb();
        let body_end_bb = match self.compile_block(&*stmt.if_block, body_bb, scope) {
            Ok(bb) => bb,
            Err(e) => {
                return Err(e);
            },
        };
        self.set_jump(body_end_bb, JumpInst::Jump(end_bb));
        match &stmt.else_block {
            IfElseBlock::Absent => {
                self.set_jump(cond_bb, JumpInst::JumpIf(Cond::Eq, body_bb, end_bb));
                Ok(())
            },
            IfElseBlock::Block(b) => {
                let else_bb = self.new_bb();
                let else_end_bb = match self.compile_block(&**b, else_bb, scope) {
                    Ok(bb) => bb,
                    Err(e) => {
                        return Err(e);
                    },
                };
                self.set_jump(else_end_bb, JumpInst::Jump(end_bb));
                self.set_jump(cond_bb, JumpInst::JumpIf(Cond::Eq, body_bb, else_bb));
                Ok(())
            },
            IfElseBlock::If(next) => {
                let next_cond_bb = self.new_bb();
                self.set_jump(cond_bb, JumpInst::JumpIf(Cond::Eq, body_bb, next_cond_bb));
                self.compile_if_arm(&**next, next_cond_bb, end_bb, scope)
            },
        }
    }

    /// Gives a value the next local slots.
    fn place_local(&mut self, val_id: u64, ty: &Ty, span: Span) -> (r: CompileResult<()>)
        requires
            old(self).inv(),
        ensures
            match lower_local(old(self)@, val_id, ty@, span) {
                Ok(st) => r is Ok && final(self)@ == st && final(self).inv() && final(self).extends(
                    old(self)@,
                ) && final(self)@.blocks == old(self)@.blocks,
                Err(e) => r matches Err(x) && x@ == e,
            },
            final(self).global_scope == old(self).global_scope,
    {
        let loc = self.loc_top;
        self.set_place(val_id, Place::Loc(loc));
        let var_size = ty.size_slot() as u32;
        if loc > u32::MAX - var_size {
            return Err(misplaced("local slots", span));
        }
        self.loc_top = loc + var_size;
        Ok(())
    }

    /// Lowers a declaration: the value gets the next local slot and is
    /// declared in the scope; an initializer is assigned to it.
    fn compile_decl(&mut self, stmt: &DeclStmt, bb_id: usize, scope: &mut Scope) -> (r: CompileResult<
        usize,
    >)
        requires
            old(self).inv(),
            bb_id < old(self)@.blocks.len(),
            old(scope).chain_wf(),
        ensures
            final(scope).chain_wf(),
            match lower_decl(old(self)@, *stmt, bb_id, old(scope).chain()) {
                Ok((st, frames)) => r matches Ok(b) && b == bb_id && final(self)@ == st && final(self).inv() && final(self).extends(old(self)@) && final(scope).chain() == frames,
                Err(e) => r matches Err(x) && x@ == e,
            },
            final(self).global_scope == old(self).global_scope,
        decreases stmt, 2nat,
    {
        let (val_id, ty) = match add_decl_scope(stmt, scope, &mut self.symbol_gen) {
            Ok(found) => found,
            Err(e) => {
                return Err(e);
            },
        };
        match self.place_local(val_id, &ty, stmt.span) {
            Ok(()) => {},
            Err(e) => {
                return Err(e);
            },
        }
        match &stmt.val {
            Some(val) => {
                match self.compile_assign_to(&stmt.name, &**val, bb_id, scope) {
                    Ok(_) => Ok(bb_id),
                    Err(e) => Err(e),
                }
            },
            None => Ok(bb_id),
        }
    }

    /// Stores the value of a return statement in the return slot. A value
    /// where the function returns none, no value where it returns one, and
    /// a value of another type are refused.
    fn compile_return_value(&mut self, stmt: &ReturnStmt, bb_id: usize, scope: &Scope) -> (r:
        CompileResult<()>)
        requires
            old(self).inv(),
            bb_id < old(self)@.blocks.len(),
            scope.chain_wf(),
        ensures
            match lower_return_value(old(self)@, *stmt, bb_id, scope.chain()) {
                Ok(st) => r is Ok && final(self)@ == st && final(self).inv() && final(self).extends(
                    old(self)@,
                ) && final(self)@.blocks.len() == old(self)@.blocks.len(),
                Err(e) => r matches Err(x) && x@ == e,
            },
            final(self).global_scope == old(self).global_scope,
        decreases stmt, 0nat,
    {
        match &stmt.val {
            None => {
                if !self.ret_ty.same_plain(&Ty::Void) {
                    return Err(type_mismatch(&self.ret_ty, &Ty::Void, stmt.span));
                }
            },
            Some(val) => {
                if self.ret_ty.same_plain(&Ty::Void) {
                    return Err(
                        failure(
                            CompileErrorKind::TypeMismatch {
                                expected: String::from_str("void"),
                                got: None,
                            },
                            stmt.span,
                        ),
                    );
                }
                let ret_id = match scope.find("$ret") {
                    Some(sym) => sym.id,
                    None => {
                        return Err(misplaced("return", stmt.span));
                    },
                };
                let place = match self.get_place(ret_id) {
                    Some(p) => p,
                    None => {
                        return Err(misplaced("return", stmt.span));
                    },
                };
                self.append_code(bb_id, op_load_address(place));
                let ty = match self.compile_expr(&**val, bb_id, scope) {
                    Ok(ty) => ty,
                    Err(e) => {
                        return Err(e);
                    },
                };
                if !self.ret_ty.same_plain(&ty) {
                    return Err(type_mismatch(&self.ret_ty, &ty, val.span()));
                }
                self.append_code(bb_id, Op::Store64);
            },
        }
        Ok(())
    }

    /// Lowers a return: a value is stored in the return slot, and the block
    /// ends in `Return`. What follows begins in a block that nothing leads
    /// to.
    fn compile_return(&mut self, stmt: &ReturnStmt, bb_id: usize, scope: &Scope) -> (r: CompileResult<
        usize,
    >)
        requires
            old(self).inv(),
            bb_id < old(self)@.blocks.len(),
            scope.chain_wf(),
        ensures
            stmt_ok(
                old(self)@,
                final(self),
                lower_return(old(self)@, *stmt, bb_id, scope.chain()),
                r,
            ),
            final(self).global_scope == old(self).global_scope,
        decreases stmt, 1nat,
    {
        match self.compile_return_value(stmt, bb_id, scope) {
            Ok(()) => {},
            Err(e) => {
                return Err(e);
            },
        }
        self.set_jump(bb_id, JumpInst::Return);
        Ok(self.new_bb())
    }

    /// Lowers a break: the block jumps behind the innermost loop. What
    /// follows begins in a block that nothing leads to. Outside a loop a
    /// break is refused.
    fn compile_break(&mut self, span: Span, bb_id: usize) -> (r: CompileResult<usize>)
        requires
            old(self).inv(),
            bb_id < old(self)@.blocks.len(),
        ensures
            stmt_ok(old(self)@, final(self), lower_break(old(self)@, span, bb_id), r),
            final(self).global_scope == old(self).global_scope,
    {
        let n = self.loops.len();
        if n == 0 {
            return Err(misplaced("break", span));
        }
        let target = self.loops[n - 1].0;
        self.set_jump(bb_id, JumpInst::Jump(target));
        Ok(self.new_bb())
    }

    /// Lowers a continue: the block jumps to the condition of the
    /// innermost loop. What follows begins in a block that nothing leads to.
    /// Outside a loop a continue is refused.
    fn compile_continue(&mut self, span: Span, bb_id: usize) -> (r: CompileResult<usize>)
        requires
            old(self).inv(),
            bb_id < old(self)@.blocks.len(),
        ensures
            stmt_ok(old(self)@, final(self), lower_continue(old(self)@, span, bb_id), r),
            final(self).global_scope == old(self).global_scope,
    {
        let n = self.loops.len();
        if n == 0 {
            return Err(misplaced("continue", span));
        }
        let target = self.loops[n - 1].1;
        self.set_jump(bb_id, JumpInst::Jump(target));
        Ok(self.new_bb())
    }
}

proof fn lemma_linear_code_ok(blocks: Seq<BasicBlockView>, order: Seq<usize>, n: int, nf: int, ng: int)
    requires
        blocks_ok(blocks, nf, ng),
        layout_wf(blocks, order),
        0 <= n <= order.len(),
    ensures
        code_ok(linear_code(blocks, order, n), nf, ng),
    decreases n,
{
    if n > 0 {
        lemma_linear_code_ok(blocks, order, n - 1, nf, ng);
        let head = linear_code(blocks, order, n - 1);
        let body = blocks[order[n - 1] as int].code;
        let tail = term_code(blocks, order, n - 1);
        assert(code_ok(body, nf, ng));
        assert forall|i: int| 0 <= i < tail.len() implies op_ok(#[trigger] tail[i], nf, ng) by {}
        let all = linear_code(blocks, order, n);
        assert forall|i: int| 0 <= i < all.len() implies op_ok(#[trigger] all[i], nf, ng) by {
            if i < head.len() {
                assert(all[i] == head[i]);
            } else if i < head.len() + body.len() {
                assert(all[i] == body[i - head.len()]);
            } else {
                assert(all[i] == tail[i - head.len() - body.len()]);
            }
        }
    }
}

proof fn lemma_code_grow(code: Seq<Op>, nf: int, ng: int, nf2: int, ng2: int)
    requires
        code_ok(code, nf, ng),
        nf <= nf2,
        ng <= ng2,
    ensures
        code_ok(code, nf2, ng2),
{
    assert forall|i: int| 0 <= i < code.len() implies op_ok(#[trigger] code[i], nf2, ng2) by {
        assert(op_ok(code[i], nf, ng));
    }
}

/// Whether all instructions of all functions name only functions and globals
/// that exist, and no function is too long.
pub open spec fn defs_ok(defs: Seq<FnDef>, nf: int, ng: int) -> bool {
    forall|f: int|
        0 <= f < defs.len() ==> code_ok((#[trigger] defs[f]).ins@, nf, ng) && defs[f].name < ng
            && defs[f].ins@.len() <= MAX_CODE_LEN
}

proof fn lemma_defs_grow(defs: Seq<FnDef>, nf: int, ng: int, nf2: int, ng2: int)
    requires
        defs_ok(defs, nf, ng),
        nf <= nf2,
        ng <= ng2,
    ensures
        defs_ok(defs, nf2, ng2),
{
    assert forall|f: int| 0 <= f < defs.len() implies code_ok(
        (#[trigger] defs[f]).ins@,
        nf2,
        ng2,
    ) && defs[f].name < ng2 && defs[f].ins@.len() <= MAX_CODE_LEN by {
        lemma_code_grow(defs[f].ins@, nf, ng, nf2, ng2);
    }
}

/// The call of `main` is lowered like any call without arguments.
proof fn lemma_main_call(st: GenView, call: CallExpr, frames: Seq<FrameView>)
    requires
        call.func.name@ == "main"@,
        call.params@.len() == 0,
        call.span == no_span(),
        call.func.span == no_span(),
    ensures
        match lower_main_call(st) {
            Ok(after) => lower_call(st, call, 0, frames) matches Ok((s, _)) && s == after,
            Err(e) => lower_call(st, call, 0, frames) == Err::<(GenView, TyView), CompileErrorView>(
                e,
            ),
        },
{
    reveal_with_fuel(lower_args, 2);
}

/// The state of a compilation between two functions.
spec fn top(frames: Seq<FrameView>, entries: &GlobalEntries, symbol_gen: &SymbolIdGenerator) -> GenView {
    GenView {
        global_frames: frames,
        functions: entries.functions(),
        value_ids: entries.value_ids(),
        values: entries.values(),
        next_id: symbol_gen.upcoming(),
        blocks: Seq::empty(),
        place_ids: Seq::empty(),
        places: Seq::empty(),
        arg_top: 0,
        loc_top: 0,
        loops: Seq::empty(),
        ret_ty: TyView::Void,
    }
}

/// Arranges the blocks of a function from the first one on and lays them
/// out, each with its terminator as branches.
fn lay_out(blocks: &Vec<BasicBlock>, span: Span, Ghost(nf): Ghost<int>, Ghost(ng): Ghost<int>) -> (r:
    CompileResult<Vec<Op>>)
    requires
        blocks@.len() > 0,
        blocks_wf(block_views(blocks@)),
        blocks_ok(block_views(blocks@), nf, ng),
    ensures
        match function_code(block_views(blocks@)) {
            Ok(code) => r matches Ok(ins) && ins@ == code && code_ok(ins@, nf, ng) && ins@.len()
                <= MAX_CODE_LEN,
            Err(kind) => r matches Err(x) && x@ == (CompileErrorView { kind, span: Some(span) }),
        },
{
    let mut arranger = BBArranger::new(blocks);
    match arranger.construct_arrangement(0) {
        Ok(()) => {},
        Err(e) => {
            return Err(e.with_span(span));
        },
    }
    let order = arranger.arrange();
    let ins = match linearize(blocks, &order) {
        Ok(code) => code,
        Err(e) => {
            return Err(e.with_span(span));
        },
    };
    proof {
        lemma_linear_code_ok(block_views(blocks@), order@, order@.len() as int, nf, ng);
    }
    Ok(ins)
}

impl<'f> FuncCodegen<'f> {
    /// Gives a value the next argument slots.
    fn place_arg(&mut self, val_id: u64, ty: &Ty, span: Span) -> (r: CompileResult<()>)
        requires
            old(self).inv(),
        ensures
            match lower_arg(old(self)@, val_id, ty@, span) {
                Ok(st) => r is Ok && final(self)@ == st && final(self).inv() && final(self).extends(
                    old(self)@,
                ) && final(self)@.blocks == old(self)@.blocks,
                Err(e) => r matches Err(x) && x@ == e,
            },
            final(self).global_scope == old(self).global_scope,
    {
        let top = self.arg_top;
        self.set_place(val_id, Place::Arg(top));
        let size = ty.size_slot() as u32;
        if top > u32::MAX - size {
            return Err(misplaced("argument slots", span));
        }
        self.arg_top = top + size;
        Ok(())
    }

    /// Declares the return value and the parameters of a function in its
    /// scope, each in the argument slots behind the one before it.
    fn add_params(&mut self, func: &FuncStmt, scope: &mut Scope) -> (r: CompileResult<()>)
        requires
            old(self).inv(),
            old(scope).chain_wf(),
        ensures
            final(scope).chain_wf(),
            match lower_signature(old(self)@, *func, old(scope).chain()) {
                Ok((st, frames)) => r is Ok && final(self)@ == st && final(self).inv() && final(self).extends(old(self)@) && final(self)@.blocks == old(self)@.blocks && final(scope).chain() == frames,
                Err(e) => r matches Err(x) && x@ == e,
            },
            final(self).global_scope == old(self).global_scope,
    {
        let ret_ty = match self.ret_ty.plain_copy() {
            Some(t) => t,
            None => {
                return Err(misplaced("return type", func.ret_ty.span));
            },
        };
        let ret_symbol = match self.ret_ty.plain_copy() {
            Some(t) => Symbol::new(t, false),
            None => {
                return Err(misplaced("return type", func.ret_ty.span));
            },
        };
        let ret_id = match scope.insert(&mut self.symbol_gen, String::from_str("$ret"), ret_symbol) {
            Some(id) => id,
            None => {
                return Err(misplaced("return value", func.ret_ty.span));
            },
        };
        match self.place_arg(ret_id, &ret_ty, func.span) {
            Ok(()) => {},
            Err(e) => {
                return Err(e);
            },
        }
        let mut i: usize = 0;
        while i < func.params.len()
            invariant
                i <= func.params@.len(),
                self.inv(),
                self.extends(old(self)@),
                self@.blocks == old(self)@.blocks,
                self.global_scope == old(self).global_scope,
                scope.chain_wf(),
                lower_signature(old(self)@, *func, old(scope).chain()) == lower_params(
                    self@,
                    *func,
                    i as nat,
                    scope.chain(),
                ),
            decreases func.params@.len() - i,
        {
            let param = &func.params[i];
            proof {
                scope.lemma_chain();
            }
            let param_ty = match get_ty_nonvoid(&param.ty) {
                Ok(t) => t,
                Err(e) => {
                    return Err(e);
                },
            };
            let param_symbol = match param_ty.plain_copy() {
                Some(t) => Symbol::new(t, false),
                None => {
                    return Err(invalid_calculation(&param_ty, param.ty.span));
                },
            };
            let param_id = match scope.insert(
                &mut self.symbol_gen,
                param.name.name.clone(),
                param_symbol,
            ) {
                Some(id) => id,
                None => {
                    return Err(duplicate_symbol(param.name.name.as_str(), param.name.span));
                },
            };
            match self.place_arg(param_id, &param_ty, func.span) {
                Ok(()) => {},
                Err(e) => {
                    return Err(e);
                },
            }
            i = i + 1;
        }
        Ok(())
    }

    /// Lowers a function to basic blocks: the signature, then the body from
    /// a first block on. A function that returns nothing returns at the end
    /// of its body.
    fn lower_body(&mut self, func: &FuncStmt) -> (r: CompileResult<()>)
        requires
            old(self).inv(),
            old(self)@.blocks.len() == 0,
        ensures
            match lower_func(old(self)@, *func) {
                Ok(st) => r is Ok && final(self)@ == st && final(self).inv() && final(self).extends(
                    old(self)@,
                ) && final(self)@.blocks.len() > 0,
                Err(e) => r matches Err(x) && x@ == e,
            },
            final(self).global_scope == old(self).global_scope,
    {
        let globals: &'f Scope<'f> = self.global_scope;
        let mut scope = Scope::new_with_parent(globals);
        match self.add_params(func, &mut scope) {
            Ok(()) => {},
            Err(e) => {
                return Err(e);
            },
        }
        let start_bb = self.new_bb();
        let end_bb = match self.compile_block(&func.body, start_bb, &scope) {
            Ok(bb) => bb,
            Err(e) => {
                return Err(e);
            },
        };
        if self.ret_ty.same_plain(&Ty::Void) {
            assert(self@.blocks[end_bb as int] == self.basic_blocks@[end_bb as int]@);
            if let JumpInst::Undefined = self.basic_blocks[end_bb].jump {
                self.set_jump(end_bb, JumpInst::Return);
            }
        }
        Ok(())
    }

    /// Generates a function: its body is lowered to basic blocks, the blocks
    /// are arranged from the first one on, and laid out with their
    /// terminators as branches. Gives the definition, and the tables and the
    /// id source for what is compiled next.
    fn compile_func(self, func: &FuncStmt, name_idx: u32) -> (r: CompileResult<
        (FnDef, GlobalEntries, SymbolIdGenerator),
    >)
        requires
            self.inv(),
            self@.blocks.len() == 0,
            name_idx < self.ng(),
        ensures
            match lower_func(self@, *func) {
                Err(e) => r matches Err(x) && x@ == e,
                Ok(st) => match function_code(st.blocks) {
                    Err(kind) => r matches Err(x) && x@ == (CompileErrorView {
                        kind,
                        span: Some(func.span),
                    }),
                    Ok(ins) => r matches Ok((def, entries, symbol_gen)) && top(
                        self@.global_frames,
                        &entries,
                        &symbol_gen,
                    ) == st.fresh(TyView::Void) && entries.wf() && def@ == (FnDefView {
                        name: name_idx,
                        ret_slots: st.ret_ty.size_slot() as u32,
                        param_slots: lower::param_slots(st),
                        loc_slots: st.loc_top,
                        ins,
                    }) && code_ok(
                        def.ins@,
                        entries.functions().len() as int,
                        entries.values().len() as int,
                    ) && entries.values().len() >= self.ng() && entries.functions()
                        == self@.functions && def.ins@.len() <= MAX_CODE_LEN,
                },
            },
    {
        let mut fc = self;
        match fc.lower_body(func) {
            Ok(()) => {},
            Err(e) => {
                return Err(e);
            },
        }
        let ret_slots = fc.ret_ty.size_slot() as u32;
        let ghost st = fc@;
        let FuncCodegen { entries, symbol_gen, basic_blocks, arg_top, loc_top, .. } = fc;
        assert(block_views(basic_blocks@) == st.blocks);
        let ins = match lay_out(
            &basic_blocks,
            func.span,
            Ghost(entries.functions().len() as int),
            Ghost(entries.values().len() as int),
        ) {
            Ok(code) => code,
            Err(e) => {
                return Err(e);
            },
        };
        let param_slots = if arg_top >= ret_slots {
            arg_top - ret_slots
        } else {
            0
        };
        let def = FnDef { name: name_idx, ret_slots, param_slots, loc_slots: loc_top, ins };
        proof {
            assert(param_slots == lower::param_slots(st));
            assert(top(self@.global_frames, &entries, &symbol_gen) == st.fresh(TyView::Void));
        }
        Ok((def, entries, symbol_gen))
    }

    /// Generates the entry function: the initializers of the globals are
    /// assigned in the order of the declarations, then `main` is called.
    /// The function ends where its instructions end.
    fn compile_start(self, tree: &Program, name_idx: u32) -> (r: CompileResult<
        (FnDef, GlobalEntries, SymbolIdGenerator),
    >)
        requires
            self.inv(),
            self@.blocks.len() == 0,
            name_idx < self.ng(),
        ensures
            match lower_start(self@, *tree) {
                Err(e) => r matches Err(x) && x@ == e,
                Ok(st) => r matches Ok((def, entries, _)) && def@ == (FnDefView {
                    name: name_idx,
                    ret_slots: 0,
                    param_slots: 0,
                    loc_slots: 0,
                    ins: st.blocks[0].code,
                }) && entries.wf() && entries.values() == st.values && entries.functions()
                    == self@.functions && entries.values().len() >= self.ng() && code_ok(
                    def.ins@,
                    entries.functions().len() as int,
                    entries.values().len() as int,
                ),
            },
    {
        let mut fc = self;
        let globals: &'f Scope<'f> = fc.global_scope;
        let bb = fc.new_bb();
        let mut i: usize = 0;
        while i < tree.decls.len()
            invariant
                i <= tree.decls@.len(),
                fc.inv(),
                fc.extends(self@),
                bb == 0,
                bb < fc@.blocks.len(),
                globals == fc.global_scope,
                globals.chain() == fc@.global_frames,
                lower_inits(self@.new_bb(), *tree, 0) == lower_inits(fc@, *tree, i as nat),
            decreases tree.decls@.len() - i,
        {
            let decl = &tree.decls[i];
            match &decl.val {
                Some(val) => {
                    match fc.compile_assign_to(&decl.name, &**val, bb, globals) {
                        Ok(_) => {},
                        Err(e) => {
                            return Err(e);
                        },
                    }
                },
                None => {},
            }
            i = i + 1;
        }
        let call = CallExpr {
            span: Span::default(),
            func: Ident { span: Span::default(), name: String::from_str("main") },
            params: Vec::new(),
        };
        let ghost before = fc@;
        proof {
            lemma_main_call(before, call, globals.chain());
        }
        match fc.compile_call_expr(&call, bb, globals) {
            Ok(_) => {},
            Err(e) => {
                return Err(e);
            },
        }
        let ghost st = fc@;
        let FuncCodegen { entries, symbol_gen, mut basic_blocks, .. } = fc;
        assert(st.blocks[0] == basic_blocks@[0]@);
        let mut block = BasicBlock::new();
        core::mem::swap(&mut block, &mut basic_blocks[bb]);
        Ok(
            (
                FnDef { name: name_idx, ret_slots: 0, param_slots: 0, loc_slots: 0, ins: block.code },
                entries,
                symbol_gen,
            ),
        )
    }
}

/// Declares the `k`-th library function in the global scope.
fn declare_library(
    scope: &mut Scope,
    symbol_gen: &mut SymbolIdGenerator,
    name: &str,
    param: Option<Ty>,
    ret: Ty,
    Ghost(first): Ghost<u64>,
    Ghost(k): Ghost<int>,
)
    requires
        old(scope).wf(),
        0 <= k < library_names().len(),
        name@ == library_names()[k],
        !library_names().take(k).contains(name@),
        match param {
            Some(p) => library_param(k) == Some(p@),
            None => library_param(k) is None,
        },
        ret@ == library_ret(k),
        old(scope).frame() == library_prefix(first, k),
        old(symbol_gen).upcoming() == first + k,
        first + library_names().len() <= u64::MAX,
    ensures
        final(scope).wf(),
        final(scope).outer() == old(scope).outer(),
        final(scope).frame() == library_prefix(first, k + 1),
        final(symbol_gen).upcoming() == first + k + 1,
{
    let mut params: Vec<P<Ty>> = Vec::new();
    match param {
        Some(p) => {
            params.push(P(p));
        },
        None => {},
    }
    let func_ty = FuncTy { params, ret: P(ret) };
    proof {
        lemma_params_view(func_ty, 0);
        assert(Ty::Func(func_ty)@ == library_ty(k)) by {
            assert(params_view(func_ty, 0) =~= match library_param(k) {
                Some(p) => seq![p],
                None => Seq::empty(),
            });
        }
    }
    let _ = scope.insert(symbol_gen, String::from_str(name), Symbol::new(Ty::Func(func_ty), true));
    proof {
        assert(scope.frame().names =~= library_prefix(first, k + 1).names);
        assert(scope.frame().symbols =~= library_prefix(first, k + 1).symbols);
    }
}

/// Declares the library functions in a fresh global scope, with their fixed
/// signatures: `putint`, `putstr`, `putfloat` and `putchar` take one value
/// and return nothing, `getchar`, `getint` and `getdouble` take nothing and
/// return one.
pub fn create_lib_func(scope: &mut Scope, symbol_gen: &mut SymbolIdGenerator)
    requires
        old(scope).wf(),
        old(scope).names().len() == 0,
        old(scope).symbols().len() == 0,
        old(symbol_gen).upcoming() <= u64::MAX - 7,
    ensures
        final(scope).wf(),
        final(scope).outer() == old(scope).outer(),
        final(scope).frame() == library_frame(old(symbol_gen).upcoming()),
        final(symbol_gen).upcoming() == old(symbol_gen).upcoming() + 7,
{
    proof {
        reveal_strlit("putint");
        reveal_strlit("putstr");
        reveal_strlit("putfloat");
        reveal_strlit("putchar");
        reveal_strlit("getchar");
        reveal_strlit("getint");
        reveal_strlit("getdouble");
    }
    let ghost names = library_names();
    let ghost first = symbol_gen.upcoming();
    assert(names[0][3] == 'i' && names[1][3] == 's');
    assert(names[0][0] == 'p' && names[1][0] == 'p' && names[2][0] == 'p' && names[3][0] == 'p'
        && names[4][0] == 'g' && names[5][0] == 'g');
    assert(names[0].len() == 6 && names[1].len() == 6 && names[2].len() == 8 && names[3].len() == 7
        && names[4].len() == 7 && names[5].len() == 6 && names[6].len() == 9);
    assert(scope.frame().names =~= library_prefix(first, 0).names);
    assert(scope.frame().symbols =~= library_prefix(first, 0).symbols);
    declare_library(scope, symbol_gen, "putint", Some(Ty::Int), Ty::Void, Ghost(first), Ghost(0));
    declare_library(scope, symbol_gen, "putstr", Some(Ty::Addr), Ty::Void, Ghost(first), Ghost(1));
    declare_library(
        scope,
        symbol_gen,
        "putfloat",
        Some(Ty::Double),
        Ty::Void,
        Ghost(first),
        Ghost(2),
    );
    declare_library(scope, symbol_gen, "putchar", Some(Ty::Int), Ty::Void, Ghost(first), Ghost(3));
    declare_library(scope, symbol_gen, "getchar", None, Ty::Int, Ghost(first), Ghost(4));
    declare_library(scope, symbol_gen, "getint", None, Ty::Int, Ghost(first), Ghost(5));
    declare_library(scope, symbol_gen, "getdouble", None, Ty::Double, Ghost(first), Ghost(6));
    proof {
        assert(scope.frame().names =~= library_frame(first).names);
        assert(scope.frame().symbols =~= library_frame(first).symbols);
    }
}

fn zero_bytes(n: usize) -> (v: Vec<u8>)
    requires
        n <= 8,
    ensures
        v@ == zeros(n as nat),
{
    let mut v: Vec<u8> = Vec::new();
    let mut i: usize = 0;
    while i < n
        invariant
            i <= n,
            v@ == zeros(i as nat),
        decreases n - i,
    {
        v.push(0);
        assert(v@ =~= zeros((i + 1) as nat));
        i = i + 1;
    }
    v
}

/// The type of a function as its declaration gives it, and the type that
/// it returns.
fn declared_fn_ty(func: &FuncStmt) -> (r: CompileResult<(FuncTy, Ty)>)
    ensures
        match named_ty(func.ret_ty.name@) {
            None => r matches Err(x) && x@ == (CompileErrorView {
                kind: CompileErrorKindView::UnknownType(func.ret_ty.name@),
                span: Some(func.ret_ty.span),
            }),
            Some(ret) => match declared_params(*func, func.params@.len()) {
                Err(e) => r matches Err(x) && x@ == e,
                Ok(params) => r matches Ok((f, t)) && Ty::Func(f)@ == (TyView::Func {
                    params,
                    ret: Box::new(ret),
                }) && t@ == ret && !(t is Func),
            },
        },
{
    let ret_ty = match get_ty(&func.ret_ty) {
        Ok(t) => t,
        Err(e) => {
            return Err(e);
        },
    };
    let ret_copy = match ret_ty.plain_copy() {
        Some(t) => t,
        None => {
            return Err(invalid_calculation(&ret_ty, func.ret_ty.span));
        },
    };
    let mut params: Vec<P<Ty>> = Vec::new();
    let ghost mut tys: Seq<TyView> = Seq::empty();
    let mut i: usize = 0;
    while i < func.params.len()
        invariant
            i <= func.params@.len(),
            declared_params(*func, i as nat) == Ok::<Seq<TyView>, CompileErrorView>(tys),
            named_ty(func.ret_ty.name@) == Some(ret_ty@),
            ret_copy@ == ret_ty@,
            !(ret_copy is Func),
            tys.len() == i,
            params@.len() == i,
            forall|k: int| 0 <= k < i ==> ty_view(*#[trigger] params@[k]) == tys[k],
        decreases func.params@.len() - i,
    {
        match get_ty_nonvoid(&func.params[i].ty) {
            Ok(t) => {
                proof {
                    tys = tys.push(t@);
                }
                params.push(P(t));
            },
            Err(e) => {
                proof {
                    assert(declared_params(*func, (i + 1) as nat) is Err);
                    lemma_params_fail_on(*func, (i + 1) as nat, func.params@.len());
                }
                return Err(e);
            },
        }
        i = i + 1;
    }
    let func_ty = FuncTy { params, ret: P(ret_ty) };
    proof {
        lemma_params_view(func_ty, 0);
        assert(params_view(func_ty, 0) =~= tys);
    }
    Ok((func_ty, ret_copy))
}

/// Enters a global constant that holds a name, under a fresh symbol id, and
/// gives its id in the module.
fn fresh_name_global(
    entries: &mut GlobalEntries,
    symbol_gen: &mut SymbolIdGenerator,
    name: &str,
    span: Span,
    Ghost(frames): Ghost<Seq<FrameView>>,
) -> (r: CompileResult<u32>)
    requires
        old(entries).wf(),
    ensures
        final(entries).wf(),
        final(entries).functions() == old(entries).functions(),
        final(entries).values().len() >= old(entries).values().len(),
        match top(frames, old(entries), old(symbol_gen)).add_literal(name@) {
            Some((st, g)) => r == Ok::<u32, CompileError>(g) && top(
                frames,
                final(entries),
                final(symbol_gen),
            ) == st && g < final(entries).values().len(),
            None => r matches Err(x) && x@ == (CompileErrorView {
                kind: CompileErrorKindView::DuplicateSymbol(name@),
                span: Some(span),
            }),
        },
{
    let id = match symbol_gen.try_next() {
        Some(id) => id,
        None => {
            return Err(duplicate_symbol(name, span));
        },
    };
    let ghost ids = entries.value_ids();
    match entries.insert_string_literal(name, id) {
        Some(idx) => {
            proof {
                if ids.contains(id) {
                    assert(ids[ids.index_of(id)] == id);
                }
            }
            Ok(idx)
        },
        None => Err(duplicate_symbol(name, span)),
    }
}

/// Declares a global in the global scope and enters its buffer of zero
/// bytes in the module.
fn declare_global(
    scope: &mut Scope,
    entries: &mut GlobalEntries,
    symbol_gen: &mut SymbolIdGenerator,
    decl: &DeclStmt,
) -> (r: CompileResult<()>)
    requires
        old(scope).chain_wf(),
        old(scope).chain().len() == 1,
        old(entries).wf(),
    ensures
        final(scope).chain_wf(),
        final(scope).chain().len() == 1,
        final(entries).wf(),
        final(entries).functions() == old(entries).functions(),
        final(entries).values().len() >= old(entries).values().len(),
        match lower_global(top(old(scope).chain(), old(entries), old(symbol_gen)), *decl) {
            Ok(st) => r is Ok && top(final(scope).chain(), final(entries), final(symbol_gen)) == st,
            Err(e) => r matches Err(x) && x@ == e,
        },
{
    let ghost frames = scope.chain();
    let (var_id, ty) = match add_decl_scope(decl, scope, symbol_gen) {
        Ok(found) => found,
        Err(e) => {
            return Err(e);
        },
    };
    let ghost ids = entries.value_ids();
    match entries.insert_value(var_id, zero_bytes(ty.size()), decl.is_const) {
        Some(idx) => {
            proof {
                if ids.contains(var_id) {
                    assert(ids[ids.index_of(var_id)] == var_id);
                }
            }
            Ok(())
        },
        None => Err(duplicate_symbol(decl.name.name.as_str(), decl.name.span)),
    }
}

/// Declares a function: the global scope gets its name with its type, the
/// module gets the function and a global that holds its name. Gives the id
/// of that global and the type that the function returns.
fn declare_func(
    scope: &mut Scope,
    entries: &mut GlobalEntries,
    symbol_gen: &mut SymbolIdGenerator,
    func: &FuncStmt,
) -> (r: CompileResult<(u32, Ty)>)
    requires
        old(scope).chain_wf(),
        old(scope).chain().len() == 1,
        old(entries).wf(),
    ensures
        final(scope).chain_wf(),
        final(scope).chain().len() == 1,
        final(entries).wf(),
        final(entries).values().len() >= old(entries).values().len(),
        match lower_fn_decl(top(old(scope).chain(), old(entries), old(symbol_gen)), *func) {
            Ok((st, name)) => r matches Ok((n, ret)) && n == name && !(ret is Func) && top(
                final(scope).chain(),
                final(entries),
                final(symbol_gen),
            ).fresh(ret@) == st && n < final(entries).values().len() && final(entries).functions() == old(entries).functions().push(func.name.name@),
            Err(e) => r matches Err(x) && x@ == e,
        },
{
    let (func_ty, ret_ty) = match declared_fn_ty(func) {
        Ok(found) => found,
        Err(e) => {
            return Err(e);
        },
    };
    proof {
        scope.lemma_chain();
    }
    match scope.insert(symbol_gen, func.name.name.clone(), Symbol::new(Ty::Func(func_ty), true)) {
        Some(_) => {},
        None => {
            return Err(duplicate_symbol(func.name.name.as_str(), func.name.span));
        },
    }
    match entries.add_function(func.name.name.clone()) {
        Some(_) => {},
        None => {
            return Err(duplicate_symbol(func.name.name.as_str(), func.name.span));
        },
    }
    let name_idx = match fresh_name_global(
        entries,
        symbol_gen,
        func.name.name.as_str(),
        func.name.span,
        Ghost(scope.chain()),
    ) {
        Ok(idx) => idx,
        Err(e) => {
            return Err(e);
        },
    };
    Ok((name_idx, ret_ty))
}

/// Whether the entry function and every global of a module has a length
/// that the length field of the binary form can hold.
pub open spec fn fits_length_fields(m: S0View) -> bool {
    &&& m.functions.len() > 0
    &&& m.functions[0].ins.len() <= u32::MAX
    &&& forall|g: int| 0 <= g < m.globals.len() ==> (#[trigger] m.globals[g]).bytes.len() <= u32::MAX
}

/// What the definitions of functions hold.
pub open spec fn def_views(defs: Seq<FnDef>) -> Seq<FnDefView> {
    Seq::new(defs.len(), |i: int| defs[i]@)
}

/// Declares a function and generates it.
fn compile_fn_def(
    scope: &mut Scope,
    entries: GlobalEntries,
    symbol_gen: SymbolIdGenerator,
    func: &FuncStmt,
) -> (r: CompileResult<(FnDef, GlobalEntries, SymbolIdGenerator)>)
    requires
        old(scope).chain_wf(),
        old(scope).chain().len() == 1,
        entries.wf(),
    ensures
        final(scope).chain_wf(),
        final(scope).chain().len() == 1,
        match lower_fn_def(top(old(scope).chain(), &entries, &symbol_gen), *func) {
            Ok((st, def)) => r matches Ok((d, e, g)) && d@ == def && top(final(scope).chain(), &e, &g)
                == st && e.wf() && e.functions().len() == entries.functions().len() + 1
                && e.values().len() >= entries.values().len() && d.name < e.values().len()
                && code_ok(d.ins@, e.functions().len() as int, e.values().len() as int)
                && d.ins@.len() <= MAX_CODE_LEN,
            Err(e) => r matches Err(x) && x@ == e,
        },
{
    let mut entries = entries;
    let mut symbol_gen = symbol_gen;
    let (name_idx, ret_ty) = match declare_func(scope, &mut entries, &mut symbol_gen, func) {
        Ok(found) => found,
        Err(e) => {
            return Err(e);
        },
    };
    let fc = FuncCodegen::new(scope, entries, symbol_gen, ret_ty);
    fc.compile_func(func, name_idx)
}

/// Compiles a program to a module. The global scope holds the library
/// functions; each global gets a buffer of zero bytes of the size of its
/// type; each function is declared with its type and then generated, so a
/// function can call itself and those before it. The module holds the
/// entry function `_start` first and then the functions in the order of
/// their declarations. The first failure ends the compilation.
///
/// In the module, every call names a function of the module, every global
/// address a global of it, and the name of every function lies in a global.
/// The module can be written in binary form, unless a global or the entry
/// function is too long for the length field of the form. It holds no
/// allocation, so a run of it ends as the steps of the machine lead.
pub fn compile(tree: &Program) -> (r: CompileResult<S0>)
    ensures
        match compiled(*tree) {
            Ok(m) => r matches Ok(x) && x@ == m,
            Err(e) => r matches Err(x) && x@ == e,
        },
        r matches Ok(m) ==> m@.references_in_range() && forall|f: int|
            0 <= f < m@.functions.len() ==> (#[trigger] m@.functions[f]).name < m@.globals.len(),
        r matches Ok(m) ==> (<S0 as WriteBinary>::encodable(m@) <==> fits_length_fields(m@)),
        r matches Ok(m) ==> alloc_free(m@),
{
    let mut symbol_gen = SymbolIdGenerator::new();
    let mut global_scope = Scope::new();
    let mut entries = GlobalEntries::new();
    create_lib_func(&mut global_scope, &mut symbol_gen);
    proof {
        global_scope.lemma_chain();
        assert(global_scope.chain() =~= seq![library_frame(0)]);
    }
    let start_idx = match fresh_name_global(
        &mut entries,
        &mut symbol_gen,
        "_start",
        Span::default(),
        Ghost(global_scope.chain()),
    ) {
        Ok(idx) => idx,
        Err(e) => {
            return Err(e);
        },
    };
    assert(top(global_scope.chain(), &entries, &symbol_gen) == initial_state());
    let mut d: usize = 0;
    while d < tree.decls.len()
        invariant
            d <= tree.decls@.len(),
            global_scope.chain_wf(),
            global_scope.chain().len() == 1,
            entries.wf(),
            entries.functions().len() == 1,
            start_idx == 0,
            start_idx < entries.values().len(),
            lower_head(*tree) == lower_globals(
                top(global_scope.chain(), &entries, &symbol_gen),
                *tree,
                d as nat,
            ),
        decreases tree.decls@.len() - d,
    {
        match declare_global(&mut global_scope, &mut entries, &mut symbol_gen, &tree.decls[d]) {
            Ok(()) => {},
            Err(e) => {
                return Err(e);
            },
        }
        d = d + 1;
    }
    let ghost st1 = top(global_scope.chain(), &entries, &symbol_gen);
    let mut funcs: Vec<FnDef> = Vec::new();
    let mut i: usize = 0;
    assert(def_views(funcs@) =~= Seq::<FnDefView>::empty());
    while i < tree.funcs.len()
        invariant
            i <= tree.funcs@.len(),
            global_scope.chain_wf(),
            global_scope.chain().len() == 1,
            entries.wf(),
            entries.functions().len() == funcs@.len() + 1,
            funcs@.len() == i,
            start_idx == 0,
            start_idx < entries.values().len(),
            lower_head(*tree) == Ok::<GenView, CompileErrorView>(st1),
            lower_funcs(st1, *tree, i as nat) == Ok::<(GenView, Seq<FnDefView>), CompileErrorView>(
                (top(global_scope.chain(), &entries, &symbol_gen), def_views(funcs@)),
            ),
            defs_ok(funcs@, entries.functions().len() as int, entries.values().len() as int),
        decreases tree.funcs@.len() - i,
    {
        let ghost nf0 = entries.functions().len() as int;
        let ghost ng0 = entries.values().len() as int;
        let ghost before = top(global_scope.chain(), &entries, &symbol_gen);
        proof {
            if lower_fn_def(before, tree.funcs@[i as int]) is Err {
                lemma_funcs_fail_on(st1, *tree, (i + 1) as nat, tree.funcs@.len() as nat);
            }
        }
        let (def, e, g) = match compile_fn_def(&mut global_scope, entries, symbol_gen, &tree.funcs[i]) {
            Ok(done) => done,
            Err(e) => {
                return Err(e);
            },
        };
        entries = e;
        symbol_gen = g;
        proof {
            lemma_defs_grow(
                funcs@,
                nf0,
                ng0,
                entries.functions().len() as int,
                entries.values().len() as int,
            );
            assert(def_views(funcs@.push(def)) =~= def_views(funcs@).push(def@));
        }
        funcs.push(def);
        i = i + 1;
    }
    let ghost nf1 = entries.functions().len() as int;
    let ghost ng1 = entries.values().len() as int;
    let fc = FuncCodegen::new(&global_scope, entries, symbol_gen, Ty::Void);
    let (start, entries, _) = match fc.compile_start(tree, start_idx) {
        Ok(done) => done,
        Err(e) => {
            return Err(e);
        },
    };
    proof {
        lemma_defs_grow(
            funcs@,
            nf1,
            ng1,
            entries.functions().len() as int,
            entries.values().len() as int,
        );
    }
    let ghost nf = entries.functions().len() as int;
    let ghost ng = entries.values().len() as int;
    let ghost rest = funcs@;
    funcs.insert(0, start);
    let globals = entries.into_values();
    let module = S0 { globals, functions: funcs };
    proof {
        let m = compiled(*tree)->Ok_0;
        assert(module@.globals =~= m.globals);
        assert(module@.functions =~= m.functions) by {
            assert forall|f: int| 0 <= f < module@.functions.len() implies module@.functions[f]
                == m.functions[f] by {
                if f > 0 {
                    assert(module.functions@[f] == rest[f - 1]);
                    assert(def_views(rest)[f - 1] == rest[f - 1]@);
                }
            }
        }
        assert forall|f: int, i: int|
            0 <= f < module@.functions.len() && 0 <= i < module@.functions[f].ins.len() implies (
        #[trigger] module@.functions[f].ins[i] matches Op::Call(id) ==> id
            < module@.functions.len()) && (module@.functions[f].ins[i] matches Op::GlobA(id) ==> id
            < module@.globals.len()) by {
            if f > 0 {
                assert(module.functions@[f] == rest[f - 1]);
                assert(code_ok(rest[f - 1].ins@, nf, ng));
            }
            assert(code_ok(module.functions@[f].ins@, nf, ng));
            assert(op_ok(module.functions@[f].ins@[i], nf, ng));
        }
        assert forall|f: int| 0 <= f < module@.functions.len() implies (
        #[trigger] module@.functions[f]).name < module@.globals.len() by {
            if f > 0 {
                assert(module.functions@[f] == rest[f - 1]);
                assert(rest[f - 1].name < ng);
            }
        }
        assert forall|f: int, i: int|
            0 <= f < module@.functions.len() && 0 <= i < module@.functions[f].ins.len() implies !(
        #[trigger] module@.functions[f].ins[i] is Alloc) by {
            if f > 0 {
                assert(module.functions@[f] == rest[f - 1]);
                assert(code_ok(rest[f - 1].ins@, nf, ng));
            }
            assert(code_ok(module.functions@[f].ins@, nf, ng));
            assert(op_ok(module.functions@[f].ins@[i], nf, ng));
        }
        if fits_length_fields(module@) {
            assert forall|f: int| 0 <= f < module@.functions.len() implies <FnDef as WriteBinary>::encodable(
                #[trigger] module@.functions[f],
            ) by {
                if f > 0 {
                    assert(module.functions@[f] == rest[f - 1]);
                    assert(code_ok(rest[f - 1].ins@, nf, ng));
                }
                assert(code_ok(module.functions@[f].ins@, nf, ng));
                assert forall|i: int| 0 <= i < module@.functions[f].ins.len() implies (
                #[trigger] module@.functions[f].ins[i]).encodable() by {
                    assert(op_ok(module.functions@[f].ins@[i], nf, ng));
                }
            }
            assert forall|g: int| 0 <= g < module@.globals.len() implies <GlobalValue as WriteBinary>::encodable(
                #[trigger] module@.globals[g],
            ) by {}
        }
    }
    Ok(module)
}

} // verus!
