//! What the generator makes of a program, as a mathematical function: the
//! lowering of expressions and statements to basic blocks, with the checks
//! on types and names in the order in which they are made.
//!
//! The first failure ends the lowering.

use crate::codegen::code::{BasicBlockView, Cond, JumpInst};
use crate::codegen::err::{CompileErrorKindView, CompileErrorView};
use crate::codegen::generator::entries::index_u32;
use crate::codegen::generator::{
    named_ty, spec_as_expr_op, spec_binary_op_op, spec_binary_op_result_ty, spec_load_address,
    spec_load_ty, spec_store_ty, spec_unary_op_op, spec_unary_op_result_ty, Place,
};
use crate::codegen::scope::{empty_frame, frames_declare, frames_lookup, FrameView, SymbolView};
use crate::codegen::ty::TyView;
use crate::opcodes::Op;
use crate::s0::GlobalValueView;
use crate::syntax::ast::{
    BlockStmt, CallExpr, DeclStmt, Expr, FuncStmt, Ident, IfElseBlock, IfStmt, LiteralExpr,
    LiteralKind, ReturnStmt, Stmt, WhileStmt,
};
use crate::syntax::span::Span;
use vstd::prelude::*;
use vstd::utf8::encode_utf8;

verus! {

/// The state of the generator of one function.
pub struct GenView {
    /// The global scope.
    pub global_frames: Seq<FrameView>,
    /// The names of the functions of the module, by function id.
    pub functions: Seq<Seq<char>>,
    /// The symbol ids of the globals of the module, by global id.
    pub value_ids: Seq<u64>,
    /// The globals of the module, by global id.
    pub values: Seq<GlobalValueView>,
    /// The symbol id that is given out next.
    pub next_id: u64,
    /// The basic blocks of the function.
    pub blocks: Seq<BasicBlockView>,
    /// The symbol ids of the values of the function that have a place.
    pub place_ids: Seq<u64>,
    /// The place of each of them.
    pub places: Seq<Place>,
    /// The number of argument slots in use.
    pub arg_top: u32,
    /// The number of local slots in use.
    pub loc_top: u32,
    /// For each loop around, the block behind it and the block of its
    /// condition.
    pub loops: Seq<(usize, usize)>,
    /// The type that the function returns.
    pub ret_ty: TyView,
}

/// What a step of the lowering gives: a result, or the first failure.
pub type Lowered<T> = Result<T, CompileErrorView>;

/// The failure of a kind at a span.
pub open spec fn fail<T>(kind: CompileErrorKindView, span: Span) -> Lowered<T> {
    Err(CompileErrorView { kind, span: Some(span) })
}

/// The failure of two types that should be the same.
pub open spec fn mismatch(expected: TyView, got: TyView) -> CompileErrorKindView {
    CompileErrorKindView::TypeMismatch { expected: expected.name(), got: Some(got.name()) }
}

/// Whether two types are the same type of values: no function type.
pub open spec fn same_plain(a: TyView, b: TyView) -> bool {
    a == b && !(a is Func)
}

impl GenView {
    /// The state with an instruction behind the instructions of a block.
    pub open spec fn append(self, bb: int, op: Op) -> GenView {
        self.append_all(bb, seq![op])
    }

    /// The state with instructions behind the instructions of a block.
    pub open spec fn append_all(self, bb: int, code: Seq<Op>) -> GenView {
        GenView {
            blocks: self.blocks.update(
                bb,
                BasicBlockView { code: self.blocks[bb].code + code, jump: self.blocks[bb].jump },
            ),
            ..self
        }
    }

    /// The state with the terminator of a block set.
    pub open spec fn set_jump(self, bb: int, jump: JumpInst) -> GenView {
        GenView {
            blocks: self.blocks.update(bb, BasicBlockView { code: self.blocks[bb].code, jump }),
            ..self
        }
    }

    /// The state with a fresh block behind the blocks: its id is the number
    /// of blocks before.
    pub open spec fn new_bb(self) -> GenView {
        GenView {
            blocks: self.blocks.push(
                BasicBlockView { code: Seq::empty(), jump: JumpInst::Undefined },
            ),
            ..self
        }
    }

    /// The id of the block that `new_bb` adds.
    pub open spec fn next_bb(self) -> usize {
        self.blocks.len() as usize
    }

    /// The place of the value with the given symbol id.
    pub open spec fn get_place(self, id: u64) -> Option<Place> {
        if self.place_ids.contains(id) {
            Some(self.places[self.place_ids.index_of(id)])
        } else {
            None
        }
    }

    /// The state with the place of a value set.
    pub open spec fn set_place(self, id: u64, place: Place) -> GenView {
        if self.place_ids.contains(id) {
            GenView { places: self.places.update(self.place_ids.index_of(id), place), ..self }
        } else {
            GenView {
                place_ids: self.place_ids.push(id),
                places: self.places.push(place),
                ..self
            }
        }
    }

    /// The state with a global constant that holds the UTF-8 bytes of a
    /// text, under a fresh symbol id, and the id of the global. Nothing
    /// where the symbol ids or the global ids are used up.
    pub open spec fn add_literal(self, text: Seq<char>) -> Option<(GenView, u32)> {
        let global = GlobalValueView { is_const: true, bytes: encode_utf8(text) };
        if self.next_id == u64::MAX || self.values.len() >= u32::MAX {
            None
        } else if self.value_ids.contains(self.next_id) {
            Some(
                (
                    GenView {
                        next_id: (self.next_id + 1) as u64,
                        values: self.values.update(self.value_ids.index_of(self.next_id), global),
                        ..self
                    },
                    self.value_ids.index_of(self.next_id) as u32,
                ),
            )
        } else {
            Some(
                (
                    GenView {
                        next_id: (self.next_id + 1) as u64,
                        value_ids: self.value_ids.push(self.next_id),
                        values: self.values.push(global),
                        ..self
                    },
                    self.values.len() as u32,
                ),
            )
        }
    }

    /// The state with a symbol declared in the innermost scope under a fresh
    /// id, and the scopes with it. Nothing where the innermost scope declares
    /// the name already or the symbol ids are used up.
    pub open spec fn declare(
        self,
        frames: Seq<FrameView>,
        name: Seq<char>,
        ty: TyView,
        is_const: bool,
    ) -> Option<(GenView, Seq<FrameView>, u64)> {
        if frames[0].names.contains(name) || self.next_id == u64::MAX {
            None
        } else {
            Some(
                (
                    GenView { next_id: (self.next_id + 1) as u64, ..self },
                    frames_declare(frames, name, SymbolView { id: self.next_id, ty, is_const }),
                    self.next_id,
                ),
            )
        }
    }
}

/// The address of a named value is put on the stack. A name that stands for
/// nothing has no address, nor has a function, nor a value without a place.
pub open spec fn lower_ident_addr(st: GenView, i: Ident, bb: int, frames: Seq<FrameView>) -> Lowered<
    (GenView, TyView),
> {
    match frames_lookup(frames, i.name@) {
        None => fail(CompileErrorKindView::NoSuchSymbol(i.name@), i.span),
        Some((sym, is_global)) => if sym.ty is Func {
            fail(CompileErrorKindView::InvalidCalculation(sym.ty.name()), i.span)
        } else if is_global {
            match index_u32(st.value_ids, sym.id) {
                Some(g) => Ok((st.append(bb, Op::GlobA(g)), sym.ty)),
                None => fail(CompileErrorKindView::NoSuchSymbol(i.name@), i.span),
            }
        } else {
            match st.get_place(sym.id) {
                Some(p) => Ok((st.append(bb, spec_load_address(p)), sym.ty)),
                None => fail(CompileErrorKindView::NoSuchSymbol(i.name@), i.span),
            }
        },
    }
}

/// A literal is pushed: an integer and a character as an integer, a double
/// as its bits, a string as the address of a fresh global constant that
/// holds its bytes.
pub open spec fn lower_literal(st: GenView, l: LiteralExpr, bb: int) -> Lowered<(GenView, TyView)> {
    match l.kind {
        LiteralKind::Integer(i) => Ok((st.append(bb, Op::Push(i)), TyView::Int)),
        LiteralKind::Float(f) => Ok((st.append(bb, Op::Push(f)), TyView::Double)),
        LiteralKind::String(s) => match st.add_literal(s@) {
            Some((st2, g)) => Ok((st2.append(bb, Op::GlobA(g)), TyView::Addr)),
            None => fail(CompileErrorKindView::DuplicateSymbol(s@), l.span),
        },
        LiteralKind::Char(c) => Ok((st.append(bb, Op::Push(c as u64)), TyView::Int)),
    }
}

/// An expression is lowered into a block: the instructions leave its value
/// on the stack. Gives the state behind it and the type of the expression.
pub open spec fn lower_expr(st: GenView, e: Expr, bb: int, frames: Seq<FrameView>) -> Lowered<
    (GenView, TyView),
>
    decreases e, 0nat,
{
    match e {
        Expr::Ident(i) => match lower_ident_addr(st, i, bb, frames) {
            Ok((st2, ty)) => Ok((st2.append(bb, spec_load_ty(ty)), ty)),
            Err(e) => Err(e),
        },
        Expr::Assign(a) => match *a.lhs {
            Expr::Ident(i) => lower_assign_to(st, i, *a.rhs, bb, frames),
            other => fail(CompileErrorKindView::NotLValue, other.spec_span()),
        },
        Expr::As(a) => match lower_expr(st, *a.val, bb, frames) {
            Ok((st2, from)) => match named_ty(a.ty.name@) {
                None => fail(CompileErrorKindView::UnknownType(a.ty.name@), a.ty.span),
                Some(TyView::Void) => fail(CompileErrorKindView::VoidTypeVariable, a.ty.span),
                Some(to) => match spec_as_expr_op(from, to) {
                    Some(code) => Ok((st2.append_all(bb, code), to)),
                    None => fail(CompileErrorKindView::InvalidCalculation(from.name()), a.ty.span),
                },
            },
            Err(e) => Err(e),
        },
        Expr::Literal(l) => lower_literal(st, l, bb),
        Expr::Unary(u) => match lower_expr(st, *u.expr, bb, frames) {
            Ok((st2, ty)) => match (spec_unary_op_op(u.op, ty), spec_unary_op_result_ty(u.op, ty)) {
                (Some(code), Some(r)) => Ok((st2.append_all(bb, code), r)),
                _ => fail(
                    CompileErrorKindView::InvalidCalculation(ty.name()),
                    u.expr.spec_span(),
                ),
            },
            Err(e) => Err(e),
        },
        Expr::Binary(b) => match lower_expr(st, *b.lhs, bb, frames) {
            Ok((st2, lhs_ty)) => match lower_expr(st2, *b.rhs, bb, frames) {
                Ok((st3, rhs_ty)) => if !same_plain(lhs_ty, rhs_ty) {
                    fail(mismatch(lhs_ty, rhs_ty), b.rhs.spec_span())
                } else {
                    match (
                        spec_binary_op_op(b.op, lhs_ty),
                        spec_binary_op_result_ty(b.op, lhs_ty),
                    ) {
                        (Some(code), Some(r)) => Ok((st3.append_all(bb, code), r)),
                        _ => fail(
                            CompileErrorKindView::InvalidCalculation(lhs_ty.name()),
                            b.rhs.spec_span(),
                        ),
                    }
                },
                Err(e) => Err(e),
            },
            Err(e) => Err(e),
        },
        Expr::Call(c) => lower_call(st, c, bb, frames),
    }
}

/// The value of an expression is stored in a named value: the address, then
/// the value, then the store. The types must be the same.
pub open spec fn lower_assign_to(
    st: GenView,
    target: Ident,
    rhs: Expr,
    bb: int,
    frames: Seq<FrameView>,
) -> Lowered<(GenView, TyView)>
    decreases rhs, 1nat,
{
    match lower_ident_addr(st, target, bb, frames) {
        Ok((st2, lhs_ty)) => match lower_expr(st2, rhs, bb, frames) {
            Ok((st3, rhs_ty)) => if !same_plain(lhs_ty, rhs_ty) {
                fail(mismatch(lhs_ty, rhs_ty), rhs.spec_span())
            } else {
                Ok((st3.append(bb, spec_store_ty(lhs_ty)), TyView::Void))
            },
            Err(e) => Err(e),
        },
        Err(e) => Err(e),
    }
}

/// A value of another type than that of its target cannot be assigned: the
/// lowering fails with the type of the target as the expected one and the
/// type of the value as the one it got, at the value. That holds of an
/// assignment expression and of the initializer of a declaration, which
/// is assigned to the name that is declared.
pub proof fn lemma_assignment_mismatch(
    st: GenView,
    target: Ident,
    rhs: Expr,
    bb: int,
    frames: Seq<FrameView>,
    at_target: GenView,
    lhs_ty: TyView,
    at_value: GenView,
    rhs_ty: TyView,
)
    requires
        lower_ident_addr(st, target, bb, frames) == Ok::<(GenView, TyView), CompileErrorView>(
            (at_target, lhs_ty),
        ),
        lower_expr(at_target, rhs, bb, frames) == Ok::<(GenView, TyView), CompileErrorView>(
            (at_value, rhs_ty),
        ),
        lhs_ty != rhs_ty,
    ensures
        lower_assign_to(st, target, rhs, bb, frames) == Err::<(GenView, TyView), CompileErrorView>(
            CompileErrorView {
                kind: CompileErrorKindView::TypeMismatch {
                    expected: lhs_ty.name(),
                    got: Some(rhs_ty.name()),
                },
                span: Some(rhs.spec_span()),
            },
        ),
{
}

/// What a call is lowered to behind its arguments: a call of a function of
/// the module by its id, of another function by its name in a fresh global
/// constant.
pub open spec fn lower_call_end(
    st: GenView,
    name: Seq<char>,
    name_span: Span,
    func_id: Option<u32>,
    ret: TyView,
    bb: int,
) -> Lowered<(GenView, TyView)> {
    match func_id {
        Some(id) => Ok((st.append(bb, Op::Call(id)), ret)),
        None => match st.add_literal(name) {
            Some((st2, g)) => Ok((st2.append(bb, Op::CallName(g)), ret)),
            None => fail(CompileErrorKindView::DuplicateSymbol(name), name_span),
        },
    }
}

/// The state before the arguments of a call: a function of the module gets
/// its return slots.
pub open spec fn lower_call_begin(st: GenView, func_id: Option<u32>, ret: TyView, bb: int) -> GenView {
    if func_id is Some && ret.size_slot() > 0 {
        st.append(bb, Op::StackAlloc(ret.size_slot() as u32))
    } else {
        st
    }
}

/// A call is lowered: the callee is a function of the global scope; the
/// arguments are evaluated from left to right, each of the type of its
/// parameter; there are as many arguments as parameters.
pub open spec fn lower_call(st: GenView, c: CallExpr, bb: int, frames: Seq<FrameView>) -> Lowered<
    (GenView, TyView),
>
    decreases c, c.params@.len() + 1,
{
    match frames_lookup(st.global_frames, c.func.name@) {
        None => fail(CompileErrorKindView::NoSuchSymbol(c.func.name@), c.func.span),
        Some((sym, _)) => match sym.ty {
            TyView::Func { params, ret } => if *ret is Func {
                fail(CompileErrorKindView::InvalidCalculation((*ret).name()), c.func.span)
            } else {
                let func_id = index_u32(st.functions, c.func.name@);
                match lower_args(st.with_call_begin(func_id, *ret, bb), c, 0, bb, frames, params) {
                    Ok(st2) => if c.params@.len() != params.len() {
                        fail(
                            CompileErrorKindView::FuncParamSizeMismatch(
                                c.params@.len() as usize,
                                params.len() as usize,
                            ),
                            c.span,
                        )
                    } else {
                        lower_call_end(st2, c.func.name@, c.func.span, func_id, *ret, bb)
                    },
                    Err(e) => Err(e),
                }
            },
            other => fail(
                CompileErrorKindView::TypeMismatch {
                    expected: "function"@,
                    got: Some(other.name()),
                },
                c.func.span,
            ),
        },
    }
}

impl GenView {
    /// The state before the arguments of a call.
    pub open spec fn with_call_begin(self, func_id: Option<u32>, ret: TyView, bb: int) -> GenView {
        lower_call_begin(self, func_id, ret, bb)
    }
}

/// The arguments of a call from the `k`-th on are lowered.
pub open spec fn lower_args(
    st: GenView,
    c: CallExpr,
    k: nat,
    bb: int,
    frames: Seq<FrameView>,
    params: Seq<TyView>,
) -> Lowered<GenView>
    decreases c, c.params@.len() - k,
{
    if k >= c.params@.len() {
        Ok(st)
    } else {
        match lower_expr(st, c.params@[k as int], bb, frames) {
            Ok((st2, ty)) => if k < params.len() && !same_plain(ty, params[k as int]) {
                fail(mismatch(ty, params[k as int]), c.params@[k as int].spec_span())
            } else {
                lower_args(st2, c, k + 1, bb, frames, params)
            },
            Err(e) => Err(e),
        }
    }
}

/// A statement that begins in a block is lowered. Gives the state behind
/// it, the block in which the next statement begins, and the scopes.
pub open spec fn lower_stmt(st: GenView, stmt: Stmt, bb: usize, frames: Seq<FrameView>) -> Lowered<
    (GenView, usize, Seq<FrameView>),
>
    decreases stmt, 0nat,
{
    match stmt {
        Stmt::Block(b) => match lower_block(st, b, bb, frames) {
            Ok((st2, bb2)) => Ok((st2, bb2, frames)),
            Err(e) => Err(e),
        },
        Stmt::While(w) => match lower_while(st, w, bb, frames) {
            Ok((st2, bb2)) => Ok((st2, bb2, frames)),
            Err(e) => Err(e),
        },
        Stmt::If(i) => match lower_if(st, i, bb, frames) {
            Ok((st2, bb2)) => Ok((st2, bb2, frames)),
            Err(e) => Err(e),
        },
        Stmt::Expr(e) => match lower_expr(st, e, bb as int, frames) {
            Ok((st2, _)) => Ok((st2, bb, frames)),
            Err(e) => Err(e),
        },
        Stmt::Decl(d) => match lower_decl(st, d, bb, frames) {
            Ok((st2, frames2)) => Ok((st2, bb, frames2)),
            Err(e) => Err(e),
        },
        Stmt::Return(r) => match lower_return(st, r, bb, frames) {
            Ok((st2, bb2)) => Ok((st2, bb2, frames)),
            Err(e) => Err(e),
        },
        Stmt::Break(span) => match lower_break(st, span, bb) {
            Ok((st2, bb2)) => Ok((st2, bb2, frames)),
            Err(e) => Err(e),
        },
        Stmt::Continue(span) => match lower_continue(st, span, bb) {
            Ok((st2, bb2)) => Ok((st2, bb2, frames)),
            Err(e) => Err(e),
        },
        Stmt::Empty(_) => Ok((st, bb, frames)),
    }
}

/// The statements of a block are lowered in a scope of their own.
pub open spec fn lower_block(st: GenView, blk: BlockStmt, bb: usize, frames: Seq<FrameView>) -> Lowered<
    (GenView, usize),
>
    decreases blk, blk.stmts@.len() + 1,
{
    lower_stmts(st, blk, 0, bb, seq![empty_frame()] + frames)
}

/// The statements of a block from the `i`-th on are lowered, each where the
/// one before it ended.
pub open spec fn lower_stmts(
    st: GenView,
    blk: BlockStmt,
    i: nat,
    bb: usize,
    frames: Seq<FrameView>,
) -> Lowered<(GenView, usize)>
    decreases blk, blk.stmts@.len() - i,
{
    if i >= blk.stmts@.len() {
        Ok((st, bb))
    } else {
        match lower_stmt(st, blk.stmts@[i as int], bb, frames) {
            Ok((st2, bb2, frames2)) => lower_stmts(st2, blk, i + 1, bb2, frames2),
            Err(e) => Err(e),
        }
    }
}

/// A loop is lowered: three fresh blocks for the condition, the body and
/// what follows; the block before jumps to the condition, the condition to
/// the body or behind the loop, the end of the body back to the condition.
pub open spec fn lower_while(st: GenView, w: WhileStmt, bb: usize, frames: Seq<FrameView>) -> Lowered<
    (GenView, usize),
>
    decreases w, 0nat,
{
    let cond_bb = st.next_bb();
    let body_bb = (cond_bb + 1) as usize;
    let next_bb = (cond_bb + 2) as usize;
    match lower_expr(st.new_bb().new_bb().new_bb(), *w.cond, cond_bb as int, frames) {
        Ok((st2, _)) => {
            let st3 = st2.set_jump(bb as int, JumpInst::Jump(cond_bb)).set_jump(
                cond_bb as int,
                JumpInst::JumpIf(Cond::Eq, body_bb, next_bb),
            );
            let inside = GenView { loops: st3.loops.push((next_bb, cond_bb)), ..st3 };
            match lower_block(inside, *w.body, body_bb, frames) {
                Ok((st4, body_end)) => Ok(
                    (
                        GenView { loops: st4.loops.drop_last(), ..st4 }.set_jump(
                            body_end as int,
                            JumpInst::Jump(cond_bb),
                        ),
                        next_bb,
                    ),
                ),
                Err(e) => Err(e),
            }
        },
        Err(e) => Err(e),
    }
}

/// A chain of conditions is lowered: a fresh block behind the chain and one
/// for the first condition, to which the block before jumps.
pub open spec fn lower_if(st: GenView, i: IfStmt, bb: usize, frames: Seq<FrameView>) -> Lowered<
    (GenView, usize),
>
    decreases i, 1nat,
{
    let end_bb = st.next_bb();
    let cond_bb = (end_bb + 1) as usize;
    match lower_if_arm(
        st.new_bb().new_bb().set_jump(bb as int, JumpInst::Jump(cond_bb)),
        i,
        cond_bb,
        end_bb,
        frames,
    ) {
        Ok(st2) => Ok((st2, end_bb)),
        Err(e) => Err(e),
    }
}

/// One condition of a chain is lowered into its block: the condition jumps
/// to its body, in a fresh block, or to what the else part begins with: the
/// block behind the chain where there is no else part, a fresh block for an
/// else body or for the next condition. Each body jumps behind the chain.
pub open spec fn lower_if_arm(
    st: GenView,
    i: IfStmt,
    cond_bb: usize,
    end_bb: usize,
    frames: Seq<FrameView>,
) -> Lowered<GenView>
    decreases i, 0nat,
{
    match lower_expr(st, *i.cond, cond_bb as int, frames) {
        Ok((st2, _)) => {
            let body_bb = st2.next_bb();
            match lower_block(st2.new_bb(), *i.if_block, body_bb, frames) {
                Ok((st3, body_end)) => {
                    let st4 = st3.set_jump(body_end as int, JumpInst::Jump(end_bb));
                    match i.else_block {
                        IfElseBlock::Absent => Ok(
                            st4.set_jump(
                                cond_bb as int,
                                JumpInst::JumpIf(Cond::Eq, body_bb, end_bb),
                            ),
                        ),
                        IfElseBlock::Block(b) => {
                            let else_bb = st4.next_bb();
                            match lower_block(st4.new_bb(), *b, else_bb, frames) {
                                Ok((st5, else_end)) => Ok(
                                    st5.set_jump(else_end as int, JumpInst::Jump(end_bb)).set_jump(
                                        cond_bb as int,
                                        JumpInst::JumpIf(Cond::Eq, body_bb, else_bb),
                                    ),
                                ),
                                Err(e) => Err(e),
                            }
                        },
                        IfElseBlock::If(next) => {
                            let next_cond = st4.next_bb();
                            lower_if_arm(
                                st4.new_bb().set_jump(
                                    cond_bb as int,
                                    JumpInst::JumpIf(Cond::Eq, body_bb, next_cond),
                                ),
                                *next,
                                next_cond,
                                end_bb,
                                frames,
                            )
                        },
                    }
                },
                Err(e) => Err(e),
            }
        },
        Err(e) => Err(e),
    }
}

/// The state with a value in the next local slots.
pub open spec fn lower_local(st: GenView, id: u64, ty: TyView, span: Span) -> Lowered<GenView> {
    let placed = st.set_place(id, Place::Loc(st.loc_top));
    if st.loc_top > u32::MAX - ty.size_slot() {
        fail(CompileErrorKindView::InvalidCalculation("local slots"@), span)
    } else {
        Ok(GenView { loc_top: (st.loc_top + ty.size_slot()) as u32, ..placed })
    }
}

/// A declaration is lowered: the value is declared in the innermost scope
/// and gets the next local slot; an initializer is assigned to it.
pub open spec fn lower_decl(st: GenView, d: DeclStmt, bb: usize, frames: Seq<FrameView>) -> Lowered<
    (GenView, Seq<FrameView>),
>
    decreases d, 2nat,
{
    match named_ty(d.ty.name@) {
        None => fail(CompileErrorKindView::UnknownType(d.ty.name@), d.ty.span),
        Some(ty) => match st.declare(frames, d.name.name@, ty, d.is_const) {
            None => fail(CompileErrorKindView::DuplicateSymbol(d.name.name@), d.name.span),
            Some((st2, frames2, id)) => match lower_local(st2, id, ty, d.span) {
                Ok(st3) => match d.val {
                    Some(val) => match lower_assign_to(st3, d.name, *val, bb as int, frames2) {
                        Ok((st4, _)) => Ok((st4, frames2)),
                        Err(e) => Err(e),
                    },
                    None => Ok((st3, frames2)),
                },
                Err(e) => Err(e),
            },
        },
    }
}

/// The value of a return statement is stored in the return slot.
pub open spec fn lower_return_value(st: GenView, r: ReturnStmt, bb: usize, frames: Seq<FrameView>) -> Lowered<
    GenView,
>
    decreases r, 0nat,
{
    match r.val {
        None => if !same_plain(st.ret_ty, TyView::Void) {
            fail(mismatch(st.ret_ty, TyView::Void), r.span)
        } else {
            Ok(st)
        },
        Some(val) => if same_plain(st.ret_ty, TyView::Void) {
            fail(
                CompileErrorKindView::TypeMismatch { expected: "void"@, got: None },
                r.span,
            )
        } else {
            match frames_lookup(frames, "$ret"@) {
                None => fail(CompileErrorKindView::InvalidCalculation("return"@), r.span),
                Some((sym, _)) => match st.get_place(sym.id) {
                    None => fail(CompileErrorKindView::InvalidCalculation("return"@), r.span),
                    Some(p) => match lower_expr(
                        st.append(bb as int, spec_load_address(p)),
                        *val,
                        bb as int,
                        frames,
                    ) {
                        Ok((st2, ty)) => if !same_plain(st.ret_ty, ty) {
                            fail(mismatch(st.ret_ty, ty), val.spec_span())
                        } else {
                            Ok(st2.append(bb as int, Op::Store64))
                        },
                        Err(e) => Err(e),
                    },
                },
            }
        },
    }
}

/// A return is lowered: the block ends in `Return`; what follows begins in
/// a fresh block.
pub open spec fn lower_return(st: GenView, r: ReturnStmt, bb: usize, frames: Seq<FrameView>) -> Lowered<
    (GenView, usize),
>
    decreases r, 1nat,
{
    match lower_return_value(st, r, bb, frames) {
        Ok(st2) => Ok((st2.set_jump(bb as int, JumpInst::Return).new_bb(), st2.next_bb())),
        Err(e) => Err(e),
    }
}

/// A break is lowered: the block jumps behind the innermost loop; what
/// follows begins in a fresh block.
pub open spec fn lower_break(st: GenView, span: Span, bb: usize) -> Lowered<(GenView, usize)> {
    if st.loops.len() == 0 {
        fail(CompileErrorKindView::InvalidCalculation("break"@), span)
    } else {
        Ok((st.set_jump(bb as int, JumpInst::Jump(st.loops.last().0)).new_bb(), st.next_bb()))
    }
}

/// A continue is lowered: the block jumps to the condition of the
/// innermost loop; what follows begins in a fresh block.
pub open spec fn lower_continue(st: GenView, span: Span, bb: usize) -> Lowered<(GenView, usize)> {
    if st.loops.len() == 0 {
        fail(CompileErrorKindView::InvalidCalculation("continue"@), span)
    } else {
        Ok((st.set_jump(bb as int, JumpInst::Jump(st.loops.last().1)).new_bb(), st.next_bb()))
    }
}

/// The state with a value in the next argument slots.
pub open spec fn lower_arg(st: GenView, id: u64, ty: TyView, span: Span) -> Lowered<GenView> {
    let placed = st.set_place(id, Place::Arg(st.arg_top));
    if st.arg_top > u32::MAX - ty.size_slot() {
        fail(CompileErrorKindView::InvalidCalculation("argument slots"@), span)
    } else {
        Ok(GenView { arg_top: (st.arg_top + ty.size_slot()) as u32, ..placed })
    }
}

/// The parameters of a function from the `i`-th on are declared, each in
/// the argument slots behind the one before it.
pub open spec fn lower_params(st: GenView, func: FuncStmt, i: nat, frames: Seq<FrameView>) -> Lowered<
    (GenView, Seq<FrameView>),
>
    decreases func.params@.len() - i,
{
    if i >= func.params@.len() {
        Ok((st, frames))
    } else {
        let param = func.params@[i as int];
        match named_ty(param.ty.name@) {
            None => fail(CompileErrorKindView::UnknownType(param.ty.name@), param.ty.span),
            Some(TyView::Void) => fail(CompileErrorKindView::VoidTypeVariable, param.ty.span),
            Some(ty) => match st.declare(frames, param.name.name@, ty, false) {
                None => fail(
                    CompileErrorKindView::DuplicateSymbol(param.name.name@),
                    param.name.span,
                ),
                Some((st2, frames2, id)) => match lower_arg(st2, id, ty, func.span) {
                    Ok(st3) => lower_params(st3, func, i + 1, frames2),
                    Err(e) => Err(e),
                },
            },
        }
    }
}

/// The return value of a function, under the name `$ret`, and its
/// parameters are declared in the scope of the function.
pub open spec fn lower_signature(st: GenView, func: FuncStmt, frames: Seq<FrameView>) -> Lowered<
    (GenView, Seq<FrameView>),
> {
    if st.ret_ty is Func {
        fail(CompileErrorKindView::InvalidCalculation("return type"@), func.ret_ty.span)
    } else {
        match st.declare(frames, "$ret"@, st.ret_ty, false) {
            None => fail(CompileErrorKindView::InvalidCalculation("return value"@), func.ret_ty.span),
            Some((st2, frames2, id)) => match lower_arg(st2, id, st.ret_ty, func.span) {
                Ok(st3) => lower_params(st3, func, 0, frames2),
                Err(e) => Err(e),
            },
        }
    }
}

/// The body of a function is lowered to basic blocks, from block 0 on, in
/// the scope of the function inside the global scope. A function that
/// returns nothing returns at the end of its body.
pub open spec fn lower_func(st: GenView, func: FuncStmt) -> Lowered<GenView> {
    match lower_signature(st, func, seq![empty_frame()] + st.global_frames) {
        Ok((st2, frames)) => match lower_block(st2.new_bb(), func.body, st2.next_bb(), frames) {
            Ok((st3, end_bb)) => if same_plain(st3.ret_ty, TyView::Void)
                && st3.blocks[end_bb as int].jump is Undefined {
                Ok(st3.set_jump(end_bb as int, JumpInst::Return))
            } else {
                Ok(st3)
            },
            Err(e) => Err(e),
        },
        Err(e) => Err(e),
    }
}

/// The number of parameter slots of a function that is lowered.
pub open spec fn param_slots(st: GenView) -> u32 {
    if st.arg_top >= st.ret_ty.size_slot() {
        (st.arg_top - st.ret_ty.size_slot()) as u32
    } else {
        0
    }
}

} // verus!
