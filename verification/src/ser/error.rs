//! What can go wrong while encoding.

use crate::text::{push_str, string_of};
use vstd::prelude::*;

verus! {

/// A failed encode.
#[derive(Clone, Debug, PartialEq, Eq)]
pub enum Error {
    /// A failure described in words only.
    Message(String),
    /// Something other than a record was given at root level.
    ExpectedStruct,
    /// A boolean in an unnamed position: without a name it cannot be
    /// written.
    UnnamedBoolean,
    /// A sequence in an unnamed position.
    UnnamedSeq,
    Char,
    Bytes,
    Unit,
    /// A variant that holds anything.
    ComplexEnum,
    Dict,
}

/// The mathematical model of an [`Error`].
pub ghost enum ErrorView {
    Message(Seq<char>),
    ExpectedStruct,
    UnnamedBoolean,
    UnnamedSeq,
    Char,
    Bytes,
    Unit,
    ComplexEnum,
    Dict,
}

impl View for Error {
    type V = ErrorView;

    open spec fn view(&self) -> ErrorView {
        match self {
            Error::Message(m) => ErrorView::Message(m@),
            Error::ExpectedStruct => ErrorView::ExpectedStruct,
            Error::UnnamedBoolean => ErrorView::UnnamedBoolean,
            Error::UnnamedSeq => ErrorView::UnnamedSeq,
            Error::Char => ErrorView::Char,
            Error::Bytes => ErrorView::Bytes,
            Error::Unit => ErrorView::Unit,
            Error::ComplexEnum => ErrorView::ComplexEnum,
            Error::Dict => ErrorView::Dict,
        }
    }
}

impl ErrorView {
    /// The text that describes the error.
    pub open spec fn message(self) -> Seq<char> {
        match self {
            ErrorView::Message(m) => m,
            ErrorView::ExpectedStruct => "Expected to serialize a struct at root level"@,
            ErrorView::UnnamedBoolean => "Unnamed boolean"@,
            ErrorView::UnnamedSeq => "Unnamed sequence"@,
            ErrorView::Char => "char is unsupported"@,
            ErrorView::Bytes => "byte array is unsupported"@,
            ErrorView::Unit => "unit is unsupported"@,
            ErrorView::ComplexEnum => "enums with non-unit variants are not supported"@,
            ErrorView::Dict => "maps are not supported"@,
        }
    }
}

impl Error {
    /// An error that is described by `msg` only.
    pub fn custom(msg: &str) -> (e: Error)
        ensures
            e@ == ErrorView::Message(msg@),
    {
        Error::Message(msg.to_owned())
    }

    /// The text that describes the error.
    pub fn to_string(&self) -> (s: String)
        ensures
            s@ == self@.message(),
    {
        let mut out: Vec<char> = Vec::new();
        match self {
            Error::Message(m) => push_str(&mut out, m.as_str()),
            Error::ExpectedStruct => push_str(
                &mut out,
                "Expected to serialize a struct at root level",
            ),
            Error::UnnamedBoolean => push_str(&mut out, "Unnamed boolean"),
            Error::UnnamedSeq => push_str(&mut out, "Unnamed sequence"),
            Error::Char => push_str(&mut out, "char is unsupported"),
            Error::Bytes => push_str(&mut out, "byte array is unsupported"),
            Error::Unit => push_str(&mut out, "unit is unsupported"),
            Error::ComplexEnum => push_str(
                &mut out,
                "enums with non-unit variants are not supported",
            ),
            Error::Dict => push_str(&mut out, "maps are not supported"),
        }
        string_of(&out)
    }
}

} // verus!
