//! What encoding a value gives: the mathematical statement of the encoder.

use crate::de::number::is_float_text;
use crate::ser::{begin_text, decimal_text, str_text, ErrorView};
use crate::value::{MemberView, ValueView};
use vstd::prelude::*;

verus! {

/// More expressions are open than the machine can count.
pub open spec fn msg_too_deep() -> Seq<char> {
    "nesting too deep"@
}

/// The text of a floating-point number is none.
pub open spec fn msg_float() -> Seq<char> {
    "invalid float literal"@
}

/// An expression: its start, its body and the closing parenthesis.
pub open spec fn expression(
    name: Seq<char>,
    body: Result<Seq<char>, ErrorView>,
    pretty: bool,
    lvl: nat,
) -> Result<Seq<char>, ErrorView> {
    if lvl >= usize::MAX {
        Err(ErrorView::Message(msg_too_deep()))
    } else {
        match body {
            Ok(text) => Ok(begin_text(name, pretty, lvl) + text + seq![')']),
            Err(e) => Err(e),
        }
    }
}

/// `text` and then what follows it, unless that fails.
pub open spec fn followed(text: Seq<char>, rest: Result<Seq<char>, ErrorView>) -> Result<
    Seq<char>,
    ErrorView,
> {
    match rest {
        Ok(more) => Ok(text + more),
        Err(e) => Err(e),
    }
}

/// The text that is written for a value in a field named `name` or, with
/// no `name`, in an unnamed position, with `lvl` expressions open.
///
/// A flag is its field's name if it is set, and nothing if it is not; an
/// optional value is the value itself, or nothing. A sequence is an
/// expression named after its field; in a field without a name its
/// elements stand in the enclosing expression.
pub open spec fn encode_field(value: ValueView, name: Option<Seq<char>>, pretty: bool, lvl: nat) -> Result<
    Seq<char>,
    ErrorView,
>
    decreases value,
{
    match value {
        ValueView::Bool(b) => match name {
            None => Err(ErrorView::UnnamedBoolean),
            Some(n) => Ok(
                if b {
                    str_text(n, true)
                } else {
                    Seq::empty()
                },
            ),
        },
        ValueView::Int(n) => Ok(seq![' '] + decimal_text(n as int)),
        ValueView::UInt(n) => Ok(seq![' '] + decimal_text(n as int)),
        ValueView::Float(t) => if is_float_text(t) {
            Ok(seq![' '] + t)
        } else {
            Err(ErrorView::Message(msg_float()))
        },
        ValueView::Str(t) => Ok(str_text(t, false)),
        ValueView::Char(_) => Err(ErrorView::Char),
        ValueView::Bytes(_) => Err(ErrorView::Bytes),
        ValueView::Unit => Err(ErrorView::Unit),
        ValueView::Absent => Ok(Seq::empty()),
        ValueView::Present(v) => encode_field(*v, name, pretty, lvl),
        ValueView::UnitStruct(n) => expression(n, Ok(Seq::empty()), pretty, lvl),
        ValueView::NewtypeStruct(n, v) => expression(
            n,
            encode_field(*v, None, pretty, lvl + 1),
            pretty,
            lvl,
        ),
        ValueView::TupleStruct(n, items) => expression(
            n,
            encode_items(items, 0, pretty, lvl + 1),
            pretty,
            lvl,
        ),
        ValueView::Struct(n, members) => expression(
            n,
            encode_members(members, 0, pretty, lvl + 1),
            pretty,
            lvl,
        ),
        ValueView::List(items) => sequence(items, name, pretty, lvl),
        ValueView::Tuple(items) => sequence(items, name, pretty, lvl),
        ValueView::Dict(_) => Err(ErrorView::Dict),
        ValueView::UnitVariant(n) => Ok(str_text(n, true)),
        ValueView::NewtypeVariant(_, _) => Err(ErrorView::ComplexEnum),
        ValueView::TupleVariant(_, _) => Err(ErrorView::ComplexEnum),
        ValueView::StructVariant(_, _) => Err(ErrorView::ComplexEnum),
        ValueView::Untagged(_, v) => encode_field(*v, name, pretty, lvl),
    }
}

/// The text of a sequence in a field.
pub open spec fn sequence(items: Seq<ValueView>, name: Option<Seq<char>>, pretty: bool, lvl: nat) -> Result<
    Seq<char>,
    ErrorView,
>
    decreases items, items.len() + 1,
{
    match name {
        None => Err(ErrorView::UnnamedSeq),
        Some(n) => if n.len() == 0 {
            encode_items(items, 0, pretty, lvl)
        } else {
            expression(n, encode_items(items, 0, pretty, lvl + 1), pretty, lvl)
        },
    }
}

/// The texts of the values from the `from`-th on, each in an unnamed
/// position.
pub open spec fn encode_items(items: Seq<ValueView>, from: nat, pretty: bool, lvl: nat) -> Result<
    Seq<char>,
    ErrorView,
>
    decreases items, items.len() - from,
{
    if from >= items.len() {
        Ok(Seq::empty())
    } else {
        match encode_field(items[from as int], None, pretty, lvl) {
            Err(e) => Err(e),
            Ok(text) => followed(text, encode_items(items, from + 1, pretty, lvl)),
        }
    }
}

/// The texts of the members from the `from`-th on, each in the field of
/// its name.
pub open spec fn encode_members(members: Seq<MemberView>, from: nat, pretty: bool, lvl: nat) -> Result<
    Seq<char>,
    ErrorView,
>
    decreases members, members.len() - from,
{
    if from >= members.len() {
        Ok(Seq::empty())
    } else {
        match encode_field(
            members[from as int].value,
            Some(members[from as int].name),
            pretty,
            lvl,
        ) {
            Err(e) => Err(e),
            Ok(text) => followed(text, encode_members(members, from + 1, pretty, lvl)),
        }
    }
}

/// The text that is written for a value at root level: only a record can
/// stand there, or an alternative that is one.
pub open spec fn encode_root(value: ValueView, pretty: bool, lvl: nat) -> Result<
    Seq<char>,
    ErrorView,
>
    decreases value,
{
    match value {
        ValueView::UnitStruct(_) => encode_field(value, None, pretty, lvl),
        ValueView::NewtypeStruct(_, _) => encode_field(value, None, pretty, lvl),
        ValueView::TupleStruct(_, _) => encode_field(value, None, pretty, lvl),
        ValueView::Struct(_, _) => encode_field(value, None, pretty, lvl),
        ValueView::Untagged(_, v) => encode_root(*v, pretty, lvl),
        _ => Err(ErrorView::ExpectedStruct),
    }
}

} // verus!
