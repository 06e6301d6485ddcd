//! The ways in which a token stream can fail to be a program.

use crate::syntax::span::Span;
use crate::syntax::token::Token;
use vstd::prelude::*;

verus! {

#[derive(Debug)]
pub struct ParseError {
    pub kind: ParseErrorKind,
    pub span: Option<Span>,
}

impl ParseError {
    pub fn new_span(kind: ParseErrorKind, span: Span) -> (e: Self)
        ensures
            e.kind == kind,
            e.span == Some(span),
    {
        Self { kind, span: Some(span) }
    }

    pub fn new_none(kind: ParseErrorKind) -> (e: Self)
        ensures
            e.kind == kind,
            e.span is None,
    {
        Self { kind, span: None }
    }

    pub fn new(kind: ParseErrorKind, span: Option<Span>) -> (e: Self)
        ensures
            e.kind == kind,
            e.span == span,
    {
        Self { kind, span }
    }
}

#[derive(Debug)]
pub enum ParseErrorKind {
    ExpectToken(Token),
    ExpectedPattern(String),
    UnexpectedEof,
    Dummy,
}

/// What a kind of failure holds.
pub enum ParseErrorKindView {
    ExpectToken(Token),
    ExpectedPattern(Seq<char>),
    UnexpectedEof,
    Dummy,
}

/// What a failure holds.
pub struct ParseErrorView {
    pub kind: ParseErrorKindView,
    pub span: Option<Span>,
}

impl View for ParseErrorKind {
    type V = ParseErrorKindView;

    open spec fn view(&self) -> ParseErrorKindView {
        match self {
            ParseErrorKind::ExpectToken(t) => ParseErrorKindView::ExpectToken(*t),
            ParseErrorKind::ExpectedPattern(s) => ParseErrorKindView::ExpectedPattern(s@),
            ParseErrorKind::UnexpectedEof => ParseErrorKindView::UnexpectedEof,
            ParseErrorKind::Dummy => ParseErrorKindView::Dummy,
        }
    }
}

impl View for ParseError {
    type V = ParseErrorView;

    open spec fn view(&self) -> ParseErrorView {
        ParseErrorView { kind: self.kind@, span: self.span }
    }
}

} // verus!
