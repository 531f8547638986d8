//! A value that is written as a small number or as a text.

use crate::ser::{decimal_text, format_unsigned};
use crate::shape::Shape;
use crate::value::{Value, ValueView};
use vstd::prelude::*;

verus! {

#[derive(Clone, Debug, PartialEq, Eq)]
enum LiteralImp {
    Number(u16),
    Text(String),
}

/// A number that fits 16 bits without sign, or a text: what names a pad
/// of a footprint, for one.
#[derive(Clone, Debug, PartialEq, Eq)]
pub struct Literal(LiteralImp);

/// The mathematical model of a [`Literal`].
pub ghost enum LiteralView {
    Number(u16),
    Text(Seq<char>),
}

impl View for Literal {
    type V = LiteralView;

    closed spec fn view(&self) -> LiteralView {
        match self.0 {
            LiteralImp::Number(n) => LiteralView::Number(n),
            LiteralImp::Text(t) => LiteralView::Text(t@),
        }
    }
}

impl LiteralView {
    /// The value that the literal is encoded as and decoded from.
    pub open spec fn value(self) -> ValueView {
        match self {
            LiteralView::Number(n) => ValueView::UInt(n as u128),
            LiteralView::Text(t) => ValueView::Str(t),
        }
    }

    /// The text that shows the literal.
    pub open spec fn text(self) -> Seq<char> {
        match self {
            LiteralView::Number(n) => decimal_text(n as int),
            LiteralView::Text(t) => t,
        }
    }
}

impl From<u16> for Literal {
    fn from(num: u16) -> (r: Self)
        ensures
            r@ == LiteralView::Number(num),
    {
        Literal(LiteralImp::Number(num))
    }
}

impl vstd::std_specs::convert::FromSpecImpl<u16> for Literal {
    open spec fn obeys_from_spec() -> bool {
        true
    }

    closed spec fn from_spec(num: u16) -> Self {
        Literal(LiteralImp::Number(num))
    }
}

impl From<&str> for Literal {
    fn from(text: &str) -> (r: Self)
        ensures
            r@ == LiteralView::Text(text@),
    {
        Literal(LiteralImp::Text(text.to_owned()))
    }
}

impl vstd::std_specs::convert::FromSpecImpl<&str> for Literal {
    open spec fn obeys_from_spec() -> bool {
        false
    }

    closed spec fn from_spec(text: &str) -> Self {
        choose|l: Literal| l@ == LiteralView::Text(text@)
    }
}

impl From<String> for Literal {
    fn from(text: String) -> (r: Self)
        ensures
            r@ == LiteralView::Text(text@),
    {
        Literal(LiteralImp::Text(text))
    }
}

impl vstd::std_specs::convert::FromSpecImpl<String> for Literal {
    open spec fn obeys_from_spec() -> bool {
        true
    }

    closed spec fn from_spec(text: String) -> Self {
        Literal(LiteralImp::Text(text))
    }
}

impl Literal {
    /// The shape that a literal is decoded as.
    pub fn shape() -> (s: Shape)
        ensures
            s == Shape::Literal,
    {
        Shape::Literal
    }

    /// The text that shows the literal: the number in decimal, or the text.
    pub fn to_string(&self) -> (s: String)
        ensures
            s@ == self@.text(),
    {
        match &self.0 {
            LiteralImp::Number(n) => format_unsigned(*n as u128),
            LiteralImp::Text(t) => t.clone(),
        }
    }

    /// The value that the literal is encoded as.
    pub fn to_value(&self) -> (v: Value)
        ensures
            v@ == self@.value(),
    {
        match &self.0 {
            LiteralImp::Number(n) => Value::UInt(*n as u128),
            LiteralImp::Text(t) => Value::Str(t.clone()),
        }
    }

    /// The literal that a value was decoded as, if it is one.
    pub fn from_value(value: &Value) -> (r: Option<Literal>)
        ensures
            match value@ {
                ValueView::UInt(n) => if n <= 0xffff {
                    r is Some && r->0@ == LiteralView::Number(n as u16)
                } else {
                    r is None
                },
                ValueView::Str(t) => r is Some && r->0@ == LiteralView::Text(t),
                _ => r is None,
            },
    {
        match value {
            Value::UInt(n) => if *n <= 0xffff {
                Some(Literal(LiteralImp::Number(*n as u16)))
            } else {
                None
            },
            Value::Str(t) => Some(Literal(LiteralImp::Text(t.clone()))),
            _ => None,
        }
    }
}

} // verus!
