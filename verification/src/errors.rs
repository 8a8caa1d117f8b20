//! The error taxonomy of the engine.
//!
//! Every failure is detected during parsing or validation, before any code
//! synthesis, and carries the offending token text (or the conflicting tags)
//! so a caller can pin the report to the source.

use vstd::prelude::*;
use crate::tag::Tag;

verus! {

/// A fatal invocation error.
#[derive(Debug, Clone)]
pub enum Error {
    /// A range bound is not parseable base-10 integer text (the text is carried).
    MalformedBound(String),
    /// A list element or literal branch key is not parseable base-10 integer
    /// text (the text is carried).
    MalformedLiteral(String),
    /// A branch key is none of the allowed forms (the key text is carried).
    UnrecognizedKey(String),
    /// The same tag was supplied twice.
    DuplicateArm(Tag),
    /// A forbidden tag co-occurrence (the conflicting pair is carried).
    AmbiguousArmSet(Tag, Tag),
}

/// The mathematical reading of an [`Error`].
pub enum ErrorModel {
    MalformedBound(Seq<char>),
    MalformedLiteral(Seq<char>),
    UnrecognizedKey(Seq<char>),
    DuplicateArm(Tag),
    AmbiguousArmSet(Tag, Tag),
}

impl View for Error {
    type V = ErrorModel;

    open spec fn view(&self) -> ErrorModel {
        match self {
            Error::MalformedBound(t) => ErrorModel::MalformedBound(t@),
            Error::MalformedLiteral(t) => ErrorModel::MalformedLiteral(t@),
            Error::UnrecognizedKey(t) => ErrorModel::UnrecognizedKey(t@),
            Error::DuplicateArm(t) => ErrorModel::DuplicateArm(*t),
            Error::AmbiguousArmSet(a, b) => ErrorModel::AmbiguousArmSet(*a, *b),
        }
    }
}

} // verus!
