//! What can go wrong while decoding.

use crate::text::{push_str, string_of};
use crate::value::{Value, ValueView};
use vstd::prelude::*;

verus! {

/// A failed decode. Every failure ends the decode; none is retried.
#[derive(Clone, Debug, PartialEq, Eq)]
pub enum Error {
    /// A failure described in words only, such as a number out of range.
    Message(String),
    /// Something other than a named expression was requested at root level.
    ExpectedStruct,
    /// The input ended in the middle of a token.
    Eof,
    /// An opening parenthesis was expected; the character found is given.
    ExpectedSExpr(char),
    /// An expression with the first name was expected; the second was found.
    ExpectedSExprIdentifier(String, String),
    /// The closing parenthesis was expected.
    ExpectedEoe,
    /// A name was expected after an opening parenthesis.
    ExpectedIdentifier,
    /// A number was expected.
    ExpectedNumber,
    /// A string was expected.
    ExpectedString,
    /// A plain optional value was requested where a token stands: the
    /// notation cannot tell by itself whether the value is there.
    UnsupportedOptionHere,
    /// A boolean was requested in an unnamed position, which cannot express
    /// its absence.
    UnnamedBoolean,
    /// An expression was found where no shape was declared for it.
    MissingSExprInfo(String),
    /// A variant other than a newtype variant was requested of an expression.
    NonNewtypeEnumVariant,
    /// A variant other than a unit variant was requested of an atom.
    NonUnitEnumVariant,
    /// Input is left after the root expression.
    TrailingTokens,
}

/// The mathematical model of an [`Error`].
pub ghost enum ErrorView {
    Message(Seq<char>),
    ExpectedStruct,
    Eof,
    ExpectedSExpr(char),
    ExpectedSExprIdentifier(Seq<char>, Seq<char>),
    ExpectedEoe,
    ExpectedIdentifier,
    ExpectedNumber,
    ExpectedString,
    UnsupportedOptionHere,
    UnnamedBoolean,
    MissingSExprInfo(Seq<char>),
    NonNewtypeEnumVariant,
    NonUnitEnumVariant,
    TrailingTokens,
}

impl View for Error {
    type V = ErrorView;

    open spec fn view(&self) -> ErrorView {
        match self {
            Error::Message(m) => ErrorView::Message(m@),
            Error::ExpectedStruct => ErrorView::ExpectedStruct,
            Error::Eof => ErrorView::Eof,
            Error::ExpectedSExpr(c) => ErrorView::ExpectedSExpr(*c),
            Error::ExpectedSExprIdentifier(e, f) => ErrorView::ExpectedSExprIdentifier(e@, f@),
            Error::ExpectedEoe => ErrorView::ExpectedEoe,
            Error::ExpectedIdentifier => ErrorView::ExpectedIdentifier,
            Error::ExpectedNumber => ErrorView::ExpectedNumber,
            Error::ExpectedString => ErrorView::ExpectedString,
            Error::UnsupportedOptionHere => ErrorView::UnsupportedOptionHere,
            Error::UnnamedBoolean => ErrorView::UnnamedBoolean,
            Error::MissingSExprInfo(n) => ErrorView::MissingSExprInfo(n@),
            Error::NonNewtypeEnumVariant => ErrorView::NonNewtypeEnumVariant,
            Error::NonUnitEnumVariant => ErrorView::NonUnitEnumVariant,
            Error::TrailingTokens => ErrorView::TrailingTokens,
        }
    }
}

/// A result whose error is seen by its model.
pub open spec fn plain_result<T>(r: Result<T, Error>) -> Result<T, ErrorView> {
    match r {
        Ok(v) => Ok(v),
        Err(e) => Err(e@),
    }
}

/// A result whose text and error are seen by their models.
pub open spec fn text_result(r: Result<String, Error>) -> Result<Seq<char>, ErrorView> {
    match r {
        Ok(v) => Ok(v@),
        Err(e) => Err(e@),
    }
}

/// A result whose value and error are seen by their models.
pub open spec fn value_result(r: Result<Value, Error>) -> Result<ValueView, ErrorView> {
    match r {
        Ok(v) => Ok(v@),
        Err(e) => Err(e@),
    }
}

impl ErrorView {
    /// The text that describes the error.
    pub open spec fn message(self) -> Seq<char> {
        match self {
            ErrorView::Message(m) => m,
            ErrorView::ExpectedStruct => "Expected to deserialize a struct at root level"@,
            ErrorView::Eof => "Unexpected end of input"@,
            ErrorView::ExpectedSExpr(c) => "Expected s-expr, found token '"@.push(c) + "'"@,
            ErrorView::ExpectedSExprIdentifier(e, f) => "Expected s-expr identifier "@ + e
                + ", found "@ + f,
            ErrorView::ExpectedEoe => "Expected end of expression"@,
            ErrorView::ExpectedIdentifier => "Expected identifier"@,
            ErrorView::ExpectedNumber => "Expected number"@,
            ErrorView::ExpectedString => "Expected string"@,
            ErrorView::UnsupportedOptionHere => "Option cannot be deserialized by this data format"@,
            ErrorView::UnnamedBoolean => "Unnamed boolean"@,
            ErrorView::MissingSExprInfo(n) => "Missing s-expr type info for "@ + n,
            ErrorView::NonNewtypeEnumVariant => "Non-newtype enum variants are not supported in tagged format"@,
            ErrorView::NonUnitEnumVariant => "Non-unit enum variants are not supported in untagged format"@,
            ErrorView::TrailingTokens => "Trailing tokens"@,
        }
    }
}

impl Error {
    /// An error that is described by `msg` only.
    pub fn custom(msg: &str) -> (e: Error)
        ensures
            e@ == ErrorView::Message(msg@),
    {
        Error::Message(msg.to_owned())
    }

    /// The text that describes the error.
    pub fn to_string(&self) -> (s: String)
        ensures
            s@ == self@.message(),
    {
        let mut out: Vec<char> = Vec::new();
        match self {
            Error::Message(m) => push_str(&mut out, m.as_str()),
            Error::ExpectedStruct => push_str(
                &mut out,
                "Expected to deserialize a struct at root level",
            ),
            Error::Eof => push_str(&mut out, "Unexpected end of input"),
            Error::ExpectedSExpr(c) => {
                push_str(&mut out, "Expected s-expr, found token '");
                out.push(*c);
                push_str(&mut out, "'");
            },
            Error::ExpectedSExprIdentifier(e, f) => {
                push_str(&mut out, "Expected s-expr identifier ");
                push_str(&mut out, e.as_str());
                push_str(&mut out, ", found ");
                push_str(&mut out, f.as_str());
            },
            Error::ExpectedEoe => push_str(&mut out, "Expected end of expression"),
            Error::ExpectedIdentifier => push_str(&mut out, "Expected identifier"),
            Error::ExpectedNumber => push_str(&mut out, "Expected number"),
            Error::ExpectedString => push_str(&mut out, "Expected string"),
            Error::UnsupportedOptionHere => push_str(
                &mut out,
                "Option cannot be deserialized by this data format",
            ),
            Error::UnnamedBoolean => push_str(&mut out, "Unnamed boolean"),
            Error::MissingSExprInfo(n) => {
                push_str(&mut out, "Missing s-expr type info for ");
                push_str(&mut out, n.as_str());
            },
            Error::NonNewtypeEnumVariant => push_str(
                &mut out,
                "Non-newtype enum variants are not supported in tagged format",
            ),
            Error::NonUnitEnumVariant => push_str(
                &mut out,
                "Non-unit enum variants are not supported in untagged format",
            ),
            Error::TrailingTokens => push_str(&mut out, "Trailing tokens"),
        }
        string_of(&out)
    }
}

} // verus!
