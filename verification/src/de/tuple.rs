//! The state of an expression with unnamed elements that is being decoded.

use crate::de::record::{begin, SExpr};
use crate::de::{skip_whitespace, Deserializer, Error, ErrorView, Scanned};
use vstd::prelude::*;

verus! {

/// An expression with unnamed elements that is being decoded. It cannot
/// hold flags.
#[derive(Clone, Copy, Debug, PartialEq, Eq)]
pub struct SExprTuple {
    /// Whether the closing parenthesis has been read.
    pub end: bool,
}

/// Looks for the end of the expression, unless it has been found: behind
/// whitespace, a closing parenthesis is read.
pub open spec fn tuple_check_eoe(end: bool, s: Seq<char>) -> Scanned<bool> {
    let t = skip_whitespace(s);
    if end {
        Scanned { result: Ok(true), rest: s }
    } else if t.len() == 0 {
        Scanned { result: Err(ErrorView::Eof), rest: t }
    } else if t[0] == ')' {
        Scanned { result: Ok(true), rest: t.skip(1) }
    } else {
        Scanned { result: Ok(false), rest: t }
    }
}

/// Whether an element stands behind whitespace; a closing parenthesis,
/// which stays in the input, says that none does.
pub open spec fn more_elements(s: Seq<char>) -> Scanned<bool> {
    let t = skip_whitespace(s);
    if t.len() == 0 {
        Scanned { result: Err(ErrorView::Eof), rest: t }
    } else {
        Scanned { result: Ok(t[0] != ')'), rest: t }
    }
}

impl SExprTuple {
    /// Reads the start of the expression named `name`.
    pub fn new(de: &mut Deserializer, name: &str) -> (r: Result<SExprTuple, Error>)
        ensures
            final(de)@ == begin(name@, old(de)@).rest,
            match begin(name@, old(de)@).result {
                Ok(_) => r == Ok::<SExprTuple, Error>(SExprTuple { end: false }),
                Err(e) => r is Err && r->Err_0@ == e,
            },
    {
        match SExpr::consume_beginning(de, name) {
            Ok(()) => Ok(SExprTuple { end: false }),
            Err(e) => Err(e),
        }
    }

    /// Looks for the end of the expression.
    pub fn check_eoe(&mut self, de: &mut Deserializer) -> (r: Result<(), Error>)
        ensures
            final(de)@ == tuple_check_eoe(old(self).end, old(de)@).rest,
            match tuple_check_eoe(old(self).end, old(de)@).result {
                Ok(end) => r is Ok && final(self).end == end,
                Err(e) => r is Err && r->Err_0@ == e && final(self).end == old(self).end,
            },
    {
        if self.end {
            return Ok(());
        }
        de.skip_whitespace();
        let c = de.peek_char()?;
        if c == ')' {
            let _ = de.next_char();
            self.end = true;
        }
        Ok(())
    }
}

/// Whether an element stands behind whitespace.
pub fn has_more_elements(de: &mut Deserializer) -> (r: Result<bool, Error>)
    ensures
        final(de)@ == more_elements(old(de)@).rest,
        match more_elements(old(de)@).result {
            Ok(more) => r == Ok::<bool, Error>(more),
            Err(e) => r is Err && r->Err_0@ == e,
        },
{
    de.skip_whitespace();
    let c = de.peek_char()?;
    Ok(c != ')')
}

} // verus!
