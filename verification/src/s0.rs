//! The s0 module: globals and function definitions, as held in memory.

use crate::opcodes::Op;
use vstd::prelude::*;

pub mod io;

verus! {

/// An s0 module. Function `0` is the entry.
#[derive(Debug, PartialEq, Eq, Clone)]
pub struct S0 {
    pub globals: Vec<GlobalValue>,
    pub functions: Vec<FnDef>,
}

/// Global variable or constant, described by bytes, addressed by its index.
#[derive(Debug, PartialEq, Eq, Clone)]
pub struct GlobalValue {
    pub is_const: bool,
    pub bytes: Vec<u8>,
}

/// Function definition. `name` is the index of the global that holds the
/// function's name.
#[derive(Debug, PartialEq, Eq, Clone)]
pub struct FnDef {
    pub name: u32,
    pub ret_slots: u32,
    pub param_slots: u32,
    pub loc_slots: u32,
    pub ins: Vec<Op>,
}

/// What a global holds.
pub struct GlobalValueView {
    pub is_const: bool,
    pub bytes: Seq<u8>,
}

/// What a function definition holds.
pub struct FnDefView {
    pub name: u32,
    pub ret_slots: u32,
    pub param_slots: u32,
    pub loc_slots: u32,
    pub ins: Seq<Op>,
}

/// What a module holds.
pub struct S0View {
    pub globals: Seq<GlobalValueView>,
    pub functions: Seq<FnDefView>,
}

impl View for GlobalValue {
    type V = GlobalValueView;

    open spec fn view(&self) -> GlobalValueView {
        GlobalValueView { is_const: self.is_const, bytes: self.bytes@ }
    }
}

impl View for FnDef {
    type V = FnDefView;

    open spec fn view(&self) -> FnDefView {
        FnDefView {
            name: self.name,
            ret_slots: self.ret_slots,
            param_slots: self.param_slots,
            loc_slots: self.loc_slots,
            ins: self.ins@,
        }
    }
}

impl View for S0 {
    type V = S0View;

    open spec fn view(&self) -> S0View {
        S0View {
            globals: Seq::new(self.globals@.len(), |i: int| self.globals@[i]@),
            functions: Seq::new(self.functions@.len(), |i: int| self.functions@[i]@),
        }
    }
}

impl S0View {
    /// Every call names a function of the module and every global address
    /// names a global of it.
    pub open spec fn references_in_range(self) -> bool {
        forall|f: int, i: int|
            0 <= f < self.functions.len() && 0 <= i < self.functions[f].ins.len() ==> (
            #[trigger] self.functions[f].ins[i] matches Op::Call(id) ==> id < self.functions.len())
                && (self.functions[f].ins[i] matches Op::GlobA(id) ==> id < self.globals.len())
    }
}

pub const MAGIC_NUMBER: u32 = 0x72303b3e;

pub const VERSION: u32 = 1;

} // verus!
