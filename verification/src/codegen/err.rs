//! The ways in which a program can fail to compile.

use crate::syntax::span::Span;
use vstd::prelude::*;

verus! {

/// A failure of the compiler, and the source text that it is about, where
/// that is known.
#[derive(Debug, Clone, PartialEq, Eq)]
pub struct CompileError {
    pub kind: CompileErrorKind,
    pub span: Option<Span>,
}

/// Puts a failure and its source text together.
#[allow(non_snake_case)]
pub fn CompileError(kind: CompileErrorKind, span: Option<Span>) -> (e: CompileError)
    ensures
        e.kind == kind,
        e.span == span,
{
    CompileError { kind, span }
}

#[derive(Debug, Clone, PartialEq, Eq)]
pub enum CompileErrorKind {
    UnknownType(String),
    NoSuchSymbol(String),
    DuplicateSymbol(String),
    VoidTypeVariable,
    TypeMismatch { expected: String, got: Option<String> },
    NotLValue,
    InvalidCalculation(String),
    /// The number of arguments of a call, and the number of parameters of
    /// the function.
    FuncParamSizeMismatch(usize, usize),
    NotAllRoutesReturn,
}

/// What a kind of failure holds.
pub enum CompileErrorKindView {
    UnknownType(Seq<char>),
    NoSuchSymbol(Seq<char>),
    DuplicateSymbol(Seq<char>),
    VoidTypeVariable,
    TypeMismatch { expected: Seq<char>, got: Option<Seq<char>> },
    NotLValue,
    InvalidCalculation(Seq<char>),
    FuncParamSizeMismatch(usize, usize),
    NotAllRoutesReturn,
}

/// What a failure holds.
pub struct CompileErrorView {
    pub kind: CompileErrorKindView,
    pub span: Option<Span>,
}

impl View for CompileErrorKind {
    type V = CompileErrorKindView;

    open spec fn view(&self) -> CompileErrorKindView {
        match self {
            CompileErrorKind::UnknownType(s) => CompileErrorKindView::UnknownType(s@),
            CompileErrorKind::NoSuchSymbol(s) => CompileErrorKindView::NoSuchSymbol(s@),
            CompileErrorKind::DuplicateSymbol(s) => CompileErrorKindView::DuplicateSymbol(s@),
            CompileErrorKind::VoidTypeVariable => CompileErrorKindView::VoidTypeVariable,
            CompileErrorKind::TypeMismatch { expected, got } => CompileErrorKindView::TypeMismatch {
                expected: expected@,
                got: match got {
                    Some(g) => Some(g@),
                    None => None,
                },
            },
            CompileErrorKind::NotLValue => CompileErrorKindView::NotLValue,
            CompileErrorKind::InvalidCalculation(s) => CompileErrorKindView::InvalidCalculation(s@),
            CompileErrorKind::FuncParamSizeMismatch(a, b) => CompileErrorKindView::FuncParamSizeMismatch(
                *a,
                *b,
            ),
            CompileErrorKind::NotAllRoutesReturn => CompileErrorKindView::NotAllRoutesReturn,
        }
    }
}

impl View for CompileError {
    type V = CompileErrorView;

    open spec fn view(&self) -> CompileErrorView {
        CompileErrorView { kind: self.kind@, span: self.span }
    }
}

/// A failure, or a result that may be one, that can be given the source
/// text that it is about.
pub trait WithSpan: Sized {
    fn with_span(self, span: Span) -> Self;
}

impl WithSpan for CompileError {
    fn with_span(self, span: Span) -> (e: CompileError)
        ensures
            e.kind == self.kind,
            e.span == Some(span),
    {
        CompileError { kind: self.kind, span: Some(span) }
    }
}

impl<T> WithSpan for Result<T, CompileError> {
    fn with_span(self, span: Span) -> (r: Result<T, CompileError>)
        ensures
            match self {
                Ok(v) => r == Ok::<T, CompileError>(v),
                Err(e) => r matches Err(e2) && e2.kind == e.kind && e2.span == Some(span),
            },
    {
        match self {
            Ok(v) => Ok(v),
            Err(e) => Err(e.with_span(span)),
        }
    }
}

} // verus!
