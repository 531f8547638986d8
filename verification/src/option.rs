//! Optional values that are found by trying to decode them.

use crate::de::engine::{agrees, decode_field, ident_view, resolve_trial, Failure};
use crate::de::grammar;
use crate::de::Deserializer;
use crate::ser::encoder::wrote;
use crate::ser::grammar::encode_field;
use crate::ser::Serializer;
use crate::shape::Shape;
use crate::value::Value;
use vstd::prelude::*;

verus! {

/// An optional value that the notation has no sign for.
///
/// Whether it is there is found by trying to decode it, see
/// [`deserialize_option`]; it is written as the value itself, or not at
/// all.
pub struct OptionDef;

impl OptionDef {
    /// The shape of an optional value of the shape `inner`.
    pub fn shape(inner: Shape) -> (s: Shape)
        ensures
            s == Shape::Trial(Box::new(inner)),
    {
        Shape::Trial(Box::new(inner))
    }

    /// See [`deserialize_option`].
    pub fn deserialize(de: &mut Deserializer, inner: &Shape, ident: Option<&str>) -> (r: Result<
        Value,
        Failure,
    >)
        ensures
            agrees(
                r,
                final(de)@,
                grammar::trial(grammar::decode_field(*inner, ident_view(ident), old(de)@)),
            ),
    {
        deserialize_option(de, inner, ident)
    }

    /// Writes an optional value in a field named `name`: the value itself
    /// if it is there, and nothing if it is absent.
    pub fn serialize(this: &Value, ser: &mut Serializer, name: Option<&str>) -> (r: Result<
        (),
        crate::ser::Error,
    >)
        ensures
            wrote(
                r,
                old(ser)@,
                final(ser)@,
                encode_field(this@, ident_view(name), old(ser)@.pretty, old(ser)@.lvl),
            ),
    {
        ser.serialize_field(this, name)
    }
}

/// Decodes an optional value of the shape `inner` from the next token, as
/// the value of a field named `ident` or as an unnamed element.
///
/// The value is decoded as if it were there. If that fails before the
/// value has been found, the value is taken to be absent: most likely the
/// next token belongs to something else. A failure after that stands. The
/// input that the failed attempt has consumed stays consumed.
///
/// This may hide what is wrong with the input: if the optional value is the
/// last one of its record, a token that is there but cannot be decoded
/// makes the value absent.
pub fn deserialize_option(de: &mut Deserializer, inner: &Shape, ident: Option<&str>) -> (r: Result<
    Value,
    Failure,
>)
    ensures
        agrees(
            r,
            final(de)@,
            grammar::trial(grammar::decode_field(*inner, ident_view(ident), old(de)@)),
        ),
{
    let ghost s = de@;
    let attempt = decode_field(de, inner, ident);
    assert(agrees(attempt, de@, grammar::decode_field(*inner, ident_view(ident), s)));
    resolve_trial(attempt)
}

} // verus!
