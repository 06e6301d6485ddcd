//! The types of r0 values.

use crate::syntax::util::P;
use vstd::prelude::*;
use vstd::string::*;

verus! {

#[derive(Debug, PartialEq, Eq)]
pub enum Ty {
    Int,
    Double,
    Bool,
    Addr,
    Func(FuncTy),
    Void,
}

#[derive(Debug, PartialEq, Eq)]
pub struct FuncTy {
    pub params: Vec<P<Ty>>,
    pub ret: P<Ty>,
}

/// A type as a mathematical value.
pub enum TyView {
    Int,
    Double,
    Bool,
    Addr,
    Func { params: Seq<TyView>, ret: Box<TyView> },
    Void,
}

/// The type that a type stands for.
pub open spec fn ty_view(t: Ty) -> TyView
    decreases t, 0nat,
{
    match t {
        Ty::Int => TyView::Int,
        Ty::Double => TyView::Double,
        Ty::Bool => TyView::Bool,
        Ty::Addr => TyView::Addr,
        Ty::Void => TyView::Void,
        Ty::Func(f) => TyView::Func { params: params_view(f, 0), ret: Box::new(ty_view(*f.ret)) },
    }
}

/// The types of the parameters of a function type, from the `k`-th on.
pub open spec fn params_view(f: FuncTy, k: nat) -> Seq<TyView>
    decreases f, f.params@.len() - k,
{
    if k >= f.params@.len() {
        Seq::empty()
    } else {
        seq![ty_view(*f.params@[k as int])] + params_view(f, k + 1)
    }
}

/// The parameters of a function type are listed one for one.
pub proof fn lemma_params_view(f: FuncTy, k: nat)
    requires
        k <= f.params@.len(),
    ensures
        params_view(f, k).len() == f.params@.len() - k,
        forall|i: int|
            0 <= i < f.params@.len() - k ==> #[trigger] params_view(f, k)[i] == ty_view(
                *f.params@[k + i],
            ),
    decreases f.params@.len() - k,
{
    if k < f.params@.len() {
        lemma_params_view(f, k + 1);
    }
}

impl View for Ty {
    type V = TyView;

    open spec fn view(&self) -> TyView {
        ty_view(*self)
    }
}

impl TyView {
    /// The number of stack slots of a value of the type.
    pub open spec fn size_slot(self) -> usize {
        match self {
            TyView::Int | TyView::Double | TyView::Bool | TyView::Addr => 1,
            _ => 0,
        }
    }

    /// The number of bytes of a value of the type.
    pub open spec fn size(self) -> usize {
        match self {
            TyView::Int | TyView::Double | TyView::Addr => 8,
            TyView::Bool => 1,
            _ => 0,
        }
    }

    /// The name of the type, as diagnostics show it.
    pub open spec fn name(self) -> Seq<char> {
        match self {
            TyView::Int => "int"@,
            TyView::Double => "double"@,
            TyView::Bool => "bool"@,
            TyView::Addr => "addr"@,
            TyView::Func { .. } => "function"@,
            TyView::Void => "void"@,
        }
    }
}

impl Ty {
    /// The number of bytes of a value of the type.
    pub open spec fn spec_size(&self) -> usize {
        match self {
            Ty::Int | Ty::Double | Ty::Addr => 8,
            Ty::Bool => 1,
            Ty::Func(_) => 0,
            Ty::Void => 0,
        }
    }

    /// The number of stack slots of a value of the type.
    pub open spec fn spec_size_slot(&self) -> usize {
        match self {
            Ty::Int | Ty::Double | Ty::Bool | Ty::Addr => 1,
            Ty::Func(_) => 0,
            Ty::Void => 0,
        }
    }

    /// The name of a type that is no function type.
    pub open spec fn spec_name(&self) -> Seq<char> {
        match self {
            Ty::Int => "int"@,
            Ty::Double => "double"@,
            Ty::Bool => "bool"@,
            Ty::Addr => "addr"@,
            Ty::Func(_) => "function"@,
            Ty::Void => "void"@,
        }
    }

    /// The number of bytes of a value of the type.
    pub fn size(&self) -> (r: usize)
        ensures
            r == self.spec_size(),
            r == self@.size(),
    {
        match self {
            Ty::Int | Ty::Double | Ty::Addr => 8,
            Ty::Bool => 1,
            Ty::Func(_) => 0,
            Ty::Void => 0,
        }
    }

    /// The number of stack slots of a value of the type.
    pub fn size_slot(&self) -> (r: usize)
        ensures
            r == self.spec_size_slot(),
            r == self@.size_slot(),
    {
        match self {
            Ty::Int | Ty::Double | Ty::Bool | Ty::Addr => 1,
            Ty::Func(_) => 0,
            Ty::Void => 0,
        }
    }

    /// The function type, if the type is one.
    pub fn get_func(&self) -> (r: Option<&FuncTy>)
        ensures
            match r {
                Some(f) => *self == Ty::Func(*f),
                None => !(*self is Func),
            },
    {
        match self {
            Ty::Func(f) => Some(f),
            _ => None,
        }
    }

    /// A copy of a type that is no function type.
    pub fn plain_copy(&self) -> (r: Option<Ty>)
        ensures
            match r {
                Some(t) => t == *self && !(t is Func) && t@ == self@,
                None => *self is Func,
            },
    {
        match self {
            Ty::Int => Some(Ty::Int),
            Ty::Double => Some(Ty::Double),
            Ty::Bool => Some(Ty::Bool),
            Ty::Addr => Some(Ty::Addr),
            Ty::Void => Some(Ty::Void),
            Ty::Func(_) => None,
        }
    }

    /// Whether two types are the same type that is no function type.
    pub fn same_plain(&self, other: &Ty) -> (r: bool)
        ensures
            r == (*self == *other && !(*self is Func)),
            r == (self@ == other@ && !(self@ is Func)),
    {
        match (self, other) {
            (Ty::Int, Ty::Int) => true,
            (Ty::Double, Ty::Double) => true,
            (Ty::Bool, Ty::Bool) => true,
            (Ty::Addr, Ty::Addr) => true,
            (Ty::Void, Ty::Void) => true,
            _ => false,
        }
    }

    /// The name of the type, as diagnostics show it. Every function type is
    /// shown as `function`.
    pub fn to_string(&self) -> (r: String)
        ensures
            r@ == self.spec_name(),
            r@ == self@.name(),
    {
        match self {
            Ty::Int => String::from_str("int"),
            Ty::Double => String::from_str("double"),
            Ty::Bool => String::from_str("bool"),
            Ty::Addr => String::from_str("addr"),
            Ty::Func(_) => String::from_str("function"),
            Ty::Void => String::from_str("void"),
        }
    }
}

} // verus!
