//! What the generator makes of a whole program, as a mathematical function:
//! the global scope with the library functions, the globals, the functions
//! one after the other, and the entry function.
//!
//! The order in which the blocks of a function are laid out is that of the
//! arrangement.

use crate::codegen::code::BasicBlockView;
use crate::codegen::err::CompileErrorKindView;
use crate::codegen::generator::entries::index_u32;
use crate::codegen::generator::lower::{
    fail, lower_assign_to, lower_call_end, lower_func, param_slots, GenView, Lowered,
};
use crate::codegen::generator::named_ty;
use crate::codegen::generator::util::{arrangement, layout_code};
use crate::codegen::scope::{frames_lookup, FrameView, SymbolView};
use crate::codegen::ty::TyView;
use crate::opcodes::Op;
use crate::s0::{FnDefView, GlobalValueView, S0View};
use crate::syntax::ast::{DeclStmt, FuncStmt, Program};
use crate::syntax::span::Span;
use vstd::prelude::*;
use vstd::utf8::encode_utf8;

verus! {

/// The names of the library functions, in the order in which the global
/// scope declares them.
pub open spec fn library_names() -> Seq<Seq<char>> {
    seq![
        "putint"@,
        "putstr"@,
        "putfloat"@,
        "putchar"@,
        "getchar"@,
        "getint"@,
        "getdouble"@,
    ]
}

/// The type of the one parameter of the `i`-th library function, if it has
/// one.
pub open spec fn library_param(i: int) -> Option<TyView> {
    if i == 0 || i == 3 {
        Some(TyView::Int)
    } else if i == 1 {
        Some(TyView::Addr)
    } else if i == 2 {
        Some(TyView::Double)
    } else {
        None
    }
}

/// The type that the `i`-th library function returns.
pub open spec fn library_ret(i: int) -> TyView {
    if i == 4 || i == 5 {
        TyView::Int
    } else if i == 6 {
        TyView::Double
    } else {
        TyView::Void
    }
}

/// The type of the `i`-th library function.
pub open spec fn library_ty(i: int) -> TyView {
    TyView::Func {
        params: match library_param(i) {
            Some(p) => seq![p],
            None => Seq::empty(),
        },
        ret: Box::new(library_ret(i)),
    }
}

/// The scope that declares the library functions and nothing else, each a
/// constant, with symbol ids from `first` on.
pub open spec fn library_frame(first: u64) -> FrameView {
    FrameView {
        names: library_names(),
        symbols: Seq::new(
            library_names().len(),
            |i: int| SymbolView { id: (first + i) as u64, ty: library_ty(i), is_const: true },
        ),
    }
}

/// The scope that declares the first `k` library functions.
pub open spec fn library_prefix(first: u64, k: int) -> FrameView {
    FrameView {
        names: library_names().take(k),
        symbols: library_frame(first).symbols.take(k),
    }
}

/// A buffer of zero bytes.
pub open spec fn zeros(n: nat) -> Seq<u8> {
    Seq::new(n, |i: int| 0u8)
}

impl GenView {
    /// The state before a function is lowered: no block, no place, no slot
    /// in use, no loop around.
    pub open spec fn fresh(self, ret_ty: TyView) -> GenView {
        GenView {
            blocks: Seq::empty(),
            place_ids: Seq::empty(),
            places: Seq::empty(),
            arg_top: 0,
            loc_top: 0,
            loops: Seq::empty(),
            ret_ty,
            ..self
        }
    }

    /// The state with the global of a symbol, and the id of the global. A
    /// symbol that has a global already gets the new bytes in place of the
    /// old ones. Nothing where the global ids are used up.
    pub open spec fn add_value(self, id: u64, bytes: Seq<u8>, is_const: bool) -> Option<
        (GenView, u32),
    > {
        let global = GlobalValueView { is_const, bytes };
        if self.values.len() >= u32::MAX {
            None
        } else if self.value_ids.contains(id) {
            Some(
                (
                    GenView {
                        values: self.values.update(self.value_ids.index_of(id), global),
                        ..self
                    },
                    self.value_ids.index_of(id) as u32,
                ),
            )
        } else {
            Some(
                (
                    GenView {
                        value_ids: self.value_ids.push(id),
                        values: self.values.push(global),
                        ..self
                    },
                    self.values.len() as u32,
                ),
            )
        }
    }
}

/// The state in which the compilation of every program begins: the global
/// scope declares the library functions, the module has the function
/// `_start`, and its first global holds that name.
pub open spec fn initial_state() -> GenView {
    GenView {
        global_frames: seq![library_frame(0)],
        functions: seq!["_start"@],
        value_ids: seq![library_names().len() as u64],
        values: seq![GlobalValueView { is_const: true, bytes: encode_utf8("_start"@) }],
        next_id: (library_names().len() + 1) as u64,
        blocks: Seq::empty(),
        place_ids: Seq::empty(),
        places: Seq::empty(),
        arg_top: 0,
        loc_top: 0,
        loops: Seq::empty(),
        ret_ty: TyView::Void,
    }
}

/// A global is declared in the global scope, with a buffer of zero bytes
/// of the size of its type.
pub open spec fn lower_global(st: GenView, d: DeclStmt) -> Lowered<GenView> {
    match named_ty(d.ty.name@) {
        None => fail(CompileErrorKindView::UnknownType(d.ty.name@), d.ty.span),
        Some(ty) => match st.declare(st.global_frames, d.name.name@, ty, d.is_const) {
            None => fail(CompileErrorKindView::DuplicateSymbol(d.name.name@), d.name.span),
            Some((st2, frames, id)) => match (GenView { global_frames: frames, ..st2 }).add_value(
                id,
                zeros(ty.size() as nat),
                d.is_const,
            ) {
                None => fail(CompileErrorKindView::DuplicateSymbol(d.name.name@), d.name.span),
                Some((st3, _)) => Ok(st3),
            },
        },
    }
}

/// The globals of a program from the `i`-th on are declared, in the order
/// of their declarations.
pub open spec fn lower_globals(st: GenView, prog: Program, i: nat) -> Lowered<GenView>
    decreases prog.decls@.len() - i,
{
    if i >= prog.decls@.len() {
        Ok(st)
    } else {
        match lower_global(st, prog.decls@[i as int]) {
            Ok(st2) => lower_globals(st2, prog, i + 1),
            Err(e) => Err(e),
        }
    }
}

/// The types of the first `n` parameters of a function, as its declaration
/// names them. A parameter has a type of values.
pub open spec fn declared_params(func: FuncStmt, n: nat) -> Lowered<Seq<TyView>>
    decreases n,
{
    if n == 0 || n > func.params@.len() {
        Ok(Seq::empty())
    } else {
        match declared_params(func, (n - 1) as nat) {
            Err(e) => Err(e),
            Ok(before) => {
                let param = func.params@[n - 1];
                match named_ty(param.ty.name@) {
                    None => fail(
                        CompileErrorKindView::UnknownType(param.ty.name@),
                        param.ty.span,
                    ),
                    Some(TyView::Void) => fail(
                        CompileErrorKindView::VoidTypeVariable,
                        param.ty.span,
                    ),
                    Some(ty) => Ok(before.push(ty)),
                }
            },
        }
    }
}

/// A function is declared: the global scope gets its name with its type,
/// the module gets the function and a global that holds its name. Gives the
/// state in which its body is lowered, and the id of the global.
pub open spec fn lower_fn_decl(st: GenView, func: FuncStmt) -> Lowered<(GenView, u32)> {
    let name = func.name.name@;
    let taken = fail(CompileErrorKindView::DuplicateSymbol(name), func.name.span);
    match named_ty(func.ret_ty.name@) {
        None => fail(CompileErrorKindView::UnknownType(func.ret_ty.name@), func.ret_ty.span),
        Some(ret) => match declared_params(func, func.params@.len()) {
            Err(e) => Err(e),
            Ok(params) => match st.declare(
                st.global_frames,
                name,
                TyView::Func { params, ret: Box::new(ret) },
                true,
            ) {
                None => taken,
                Some((st2, frames, _)) => if st2.functions.contains(name) || st2.functions.len()
                    >= u32::MAX {
                    taken
                } else {
                    match (GenView {
                        global_frames: frames,
                        functions: st2.functions.push(name),
                        ..st2
                    }).add_literal(name) {
                        None => taken,
                        Some((st3, name_id)) => Ok((st3.fresh(ret), name_id)),
                    }
                },
            },
        },
    }
}

/// The instructions of a function with the given basic blocks: the blocks
/// are arranged from the first one on and laid out in that order.
pub open spec fn function_code(blocks: Seq<BasicBlockView>) -> Result<
    Seq<Op>,
    CompileErrorKindView,
> {
    match arrangement(blocks, 0) {
        None => Err(CompileErrorKindView::NotAllRoutesReturn),
        Some(order) => layout_code(blocks, order),
    }
}

/// A function is declared, lowered to basic blocks and laid out. Gives the
/// state behind it, and the definition. A failure of the layout is one of
/// the whole function.
pub open spec fn lower_fn_def(st: GenView, func: FuncStmt) -> Lowered<(GenView, FnDefView)> {
    match lower_fn_decl(st, func) {
        Err(e) => Err(e),
        Ok((st2, name)) => match lower_func(st2, func) {
            Err(e) => Err(e),
            Ok(st3) => match function_code(st3.blocks) {
                Err(kind) => fail(kind, func.span),
                Ok(ins) => Ok(
                    (
                        st3.fresh(TyView::Void),
                        FnDefView {
                            name,
                            ret_slots: st3.ret_ty.size_slot() as u32,
                            param_slots: param_slots(st3),
                            loc_slots: st3.loc_top,
                            ins,
                        },
                    ),
                ),
            },
        },
    }
}

/// The first `n` functions of a program are generated, each before the
/// next one is declared: a function can call itself and those before it.
pub open spec fn lower_funcs(st: GenView, prog: Program, n: nat) -> Lowered<
    (GenView, Seq<FnDefView>),
>
    decreases n,
{
    if n == 0 || n > prog.funcs@.len() {
        Ok((st, Seq::empty()))
    } else {
        match lower_funcs(st, prog, (n - 1) as nat) {
            Err(e) => Err(e),
            Ok((st1, defs)) => match lower_fn_def(st1, prog.funcs@[n - 1]) {
                Err(e) => Err(e),
                Ok((st2, def)) => Ok((st2, defs.push(def))),
            },
        }
    }
}

/// The initializers of the globals from the `i`-th on are assigned, in the
/// first block.
pub open spec fn lower_inits(st: GenView, prog: Program, i: nat) -> Lowered<GenView>
    decreases prog.decls@.len() - i,
{
    if i >= prog.decls@.len() {
        Ok(st)
    } else {
        let d = prog.decls@[i as int];
        match d.val {
            Some(val) => match lower_assign_to(st, d.name, *val, 0, st.global_frames) {
                Ok((st2, _)) => lower_inits(st2, prog, i + 1),
                Err(e) => Err(e),
            },
            None => lower_inits(st, prog, i + 1),
        }
    }
}

/// The span of what stands for no source text.
pub open spec fn no_span() -> Span {
    Span { idx: 0, len: 0 }
}

/// The call of `main` without arguments, in the first block. What `main`
/// returns stays on the stack.
pub open spec fn lower_main_call(st: GenView) -> Lowered<GenView> {
    match frames_lookup(st.global_frames, "main"@) {
        None => fail(CompileErrorKindView::NoSuchSymbol("main"@), no_span()),
        Some((sym, _)) => match sym.ty {
            TyView::Func { params, ret } => if *ret is Func {
                fail(CompileErrorKindView::InvalidCalculation((*ret).name()), no_span())
            } else if params.len() != 0 {
                fail(
                    CompileErrorKindView::FuncParamSizeMismatch(0, params.len() as usize),
                    no_span(),
                )
            } else {
                let func_id = index_u32(st.functions, "main"@);
                match lower_call_end(
                    st.with_call_begin(func_id, *ret, 0),
                    "main"@,
                    no_span(),
                    func_id,
                    *ret,
                    0,
                ) {
                    Ok((st2, _)) => Ok(st2),
                    Err(e) => Err(e),
                }
            },
            other => fail(
                CompileErrorKindView::TypeMismatch {
                    expected: "function"@,
                    got: Some(other.name()),
                },
                no_span(),
            ),
        },
    }
}

/// The entry function in one block: the initializers of the globals in the
/// order of the declarations, then the call of `main`.
pub open spec fn lower_start(st: GenView, prog: Program) -> Lowered<GenView> {
    match lower_inits(st.new_bb(), prog, 0) {
        Ok(st2) => lower_main_call(st2),
        Err(e) => Err(e),
    }
}

/// The state behind the declarations of the globals of a program.
pub open spec fn lower_head(prog: Program) -> Lowered<GenView> {
    lower_globals(initial_state(), prog, 0)
}

/// The module that a program is compiled to: its globals are declared,
/// then its functions are generated, then the entry function. The module
/// holds the entry function first, without slots and under the name in the
/// first global, and then the functions in the order of their
/// declarations. The first failure ends the compilation.
pub open spec fn compiled(prog: Program) -> Lowered<S0View> {
    match lower_head(prog) {
        Err(e) => Err(e),
        Ok(st1) => match lower_funcs(st1, prog, prog.funcs@.len()) {
            Err(e) => Err(e),
            Ok((st2, defs)) => match lower_start(st2, prog) {
                Err(e) => Err(e),
                Ok(st3) => Ok(
                    S0View {
                        globals: st3.values,
                        functions: seq![
                            FnDefView {
                                name: 0,
                                ret_slots: 0,
                                param_slots: 0,
                                loc_slots: 0,
                                ins: st3.blocks[0].code,
                            },
                        ] + defs,
                    },
                ),
            },
        },
    }
}

/// Where the lowering of the first functions fails, that of more functions
/// fails alike.
pub proof fn lemma_funcs_fail_on(st: GenView, prog: Program, n: nat, m: nat)
    requires
        lower_funcs(st, prog, n) is Err,
        n <= m <= prog.funcs@.len(),
    ensures
        lower_funcs(st, prog, m) == lower_funcs(st, prog, n),
    decreases m,
{
    if m > n {
        lemma_funcs_fail_on(st, prog, n, (m - 1) as nat);
    }
}

/// Where the type of one of the first parameters is refused, the types of
/// more parameters are refused alike.
pub proof fn lemma_params_fail_on(func: FuncStmt, n: nat, m: nat)
    requires
        declared_params(func, n) is Err,
        n <= m <= func.params@.len(),
    ensures
        declared_params(func, m) == declared_params(func, n),
    decreases m,
{
    if m > n {
        lemma_params_fail_on(func, n, (m - 1) as nat);
    }
}

} // verus!
