use vstd::prelude::*;

use crate::data::span::Span;
use crate::data::symbol::Symbol;
use crate::data::ty;

verus! {

/// A type error: where it occurs, the chain of template instantiations that
/// led there, and what went wrong.
#[derive(Debug)]
pub struct Error {
    pub span: Span,
    pub provenance: Vec<Span>,
    pub kind: ErrorKind,
}

/// The mathematical value of an [`Error`].
pub struct ErrorModel {
    pub span: Span,
    pub provenance: Seq<Span>,
    pub kind: ErrorKindModel,
}

impl View for Error {
    type V = ErrorModel;

    open spec fn view(&self) -> ErrorModel {
        ErrorModel { span: self.span, provenance: self.provenance@, kind: self.kind@ }
    }
}

/// An error at `span` with no provenance.
pub open spec fn error(span: Span, kind: ErrorKindModel) -> ErrorModel {
    ErrorModel { span, provenance: Seq::empty(), kind }
}

impl Error {
    pub fn new(span: Span, kind: ErrorKind) -> (error: Self)
        ensures
            error.span == span,
            error.provenance@ == Seq::<Span>::empty(),
            error.kind == kind,
    {
        Error { span, provenance: Vec::new(), kind }
    }

    /// The same error, reported through the given chain of instantiations.
    pub fn with_provenance(self, provenance: Vec<Span>) -> (error: Self)
        ensures
            error.span == self.span,
            error.provenance == provenance,
            error.kind == self.kind,
    {
        Error { span: self.span, provenance, kind: self.kind }
    }

    pub fn kind(&self) -> (kind: &ErrorKind)
        ensures
            *kind == self.kind,
    {
        &self.kind
    }
}

#[derive(Debug)]
pub enum ErrorKind {
    NotFound(Symbol),
    UnboundVariable(Symbol),
    UnboundFun(Symbol),
    UnboundClass(Symbol),
    UnboundClassTemplate(Symbol),
    NotVariable(Symbol),
    NotFun(Option<Symbol>),
    NotExp,
    NotProcedure,
    NotClass,
    NotInClass(Option<Symbol>),
    NotInClassModule(Symbol),
    NotInWhile,
    NoSuperclass(Symbol),
    ClassCycle(Symbol),
    ClassIncomplete(Symbol, Span),
    IndexEmpty,
    CallLength,
    InitLength,
    InitProcedure,
    Unreachable,
    MissingReturn,
    ReturnMismatch,
    NameClash(Span),
    SignatureMismatch(Span),
    TemplateArgumentMismatch { span: Span, expected: usize, found: usize },
    Mismatch { expected: ty::Expression, expected_span: Option<Span>, found: ty::Expression },
}

/// The mathematical value of an [`ErrorKind`]: types by their models.
pub enum ErrorKindModel {
    NotFound(Symbol),
    UnboundVariable(Symbol),
    UnboundFun(Symbol),
    UnboundClass(Symbol),
    UnboundClassTemplate(Symbol),
    NotVariable(Symbol),
    NotFun(Option<Symbol>),
    NotExp,
    NotProcedure,
    NotClass,
    NotInClass(Option<Symbol>),
    NotInClassModule(Symbol),
    NotInWhile,
    NoSuperclass(Symbol),
    ClassCycle(Symbol),
    ClassIncomplete(Symbol, Span),
    IndexEmpty,
    CallLength,
    InitLength,
    InitProcedure,
    Unreachable,
    MissingReturn,
    ReturnMismatch,
    NameClash(Span),
    SignatureMismatch(Span),
    TemplateArgumentMismatch { span: Span, expected: usize, found: usize },
    Mismatch { expected: ty::Model, expected_span: Option<Span>, found: ty::Model },
}

impl View for ErrorKind {
    type V = ErrorKindModel;

    open spec fn view(&self) -> ErrorKindModel {
        match *self {
            ErrorKind::NotFound(s) => ErrorKindModel::NotFound(s),
            ErrorKind::UnboundVariable(s) => ErrorKindModel::UnboundVariable(s),
            ErrorKind::UnboundFun(s) => ErrorKindModel::UnboundFun(s),
            ErrorKind::UnboundClass(s) => ErrorKindModel::UnboundClass(s),
            ErrorKind::UnboundClassTemplate(s) => ErrorKindModel::UnboundClassTemplate(s),
            ErrorKind::NotVariable(s) => ErrorKindModel::NotVariable(s),
            ErrorKind::NotFun(s) => ErrorKindModel::NotFun(s),
            ErrorKind::NotExp => ErrorKindModel::NotExp,
            ErrorKind::NotProcedure => ErrorKindModel::NotProcedure,
            ErrorKind::NotClass => ErrorKindModel::NotClass,
            ErrorKind::NotInClass(s) => ErrorKindModel::NotInClass(s),
            ErrorKind::NotInClassModule(s) => ErrorKindModel::NotInClassModule(s),
            ErrorKind::NotInWhile => ErrorKindModel::NotInWhile,
            ErrorKind::NoSuperclass(s) => ErrorKindModel::NoSuperclass(s),
            ErrorKind::ClassCycle(s) => ErrorKindModel::ClassCycle(s),
            ErrorKind::ClassIncomplete(s, span) => ErrorKindModel::ClassIncomplete(s, span),
            ErrorKind::IndexEmpty => ErrorKindModel::IndexEmpty,
            ErrorKind::CallLength => ErrorKindModel::CallLength,
            ErrorKind::InitLength => ErrorKindModel::InitLength,
            ErrorKind::InitProcedure => ErrorKindModel::InitProcedure,
            ErrorKind::Unreachable => ErrorKindModel::Unreachable,
            ErrorKind::MissingReturn => ErrorKindModel::MissingReturn,
            ErrorKind::ReturnMismatch => ErrorKindModel::ReturnMismatch,
            ErrorKind::NameClash(span) => ErrorKindModel::NameClash(span),
            ErrorKind::SignatureMismatch(span) => ErrorKindModel::SignatureMismatch(span),
            ErrorKind::TemplateArgumentMismatch { span, expected, found } => ErrorKindModel::TemplateArgumentMismatch {
                span,
                expected,
                found,
            },
            ErrorKind::Mismatch { expected, expected_span, found } => ErrorKindModel::Mismatch {
                expected: expected@,
                expected_span,
                found: found@,
            },
        }
    }
}

} // verus!
