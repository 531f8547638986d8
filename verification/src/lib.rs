//! A codec for the parenthesised record notation of electronics-CAD files.
//!
//! A record is written as an expression, `(name value value)`. The notation
//! is not self-describing: a decoder has to be told which [`Shape`] it
//! should find, and an encoder walks a [`Value`] that carries its names.
//!
//!  - The name of a record matters: a point of two numbers is written
//!    `(point 1 2)`.
//!  - A flag is written as the name of its field if it is set, and not at
//!    all if it is not: `(drill oval 0.635)` against `(drill 0.635)`. Flags
//!    may stand in any order that keeps them before the values behind
//!    them; a flag that is found ahead of its place passes over the fields
//!    before it. Without a name there is no flag: in a record with unnamed
//!    fields a boolean is refused.
//!  - An optional value is written as the value, or not at all. Whether it
//!    is there is found by trying to decode it ([`Shape::Trial`], see
//!    [`deserialize_option`]).
//!  - A sequence is an expression named after its field, `(layers a b)`.
//!    In a field with the empty name, which must be the last one, it is
//!    what is left of the record's own expression.
//!  - One of several records is told apart by the name of its expression
//!    ([`Shape::Untagged`]).
//!  - A floating-point number is held as its text: the library checks its
//!    grammar and leaves its value to the caller.
//!
//! [`de::grammar`] and [`ser::grammar`] state what decoding and encoding
//! give, [`from_str`], [`to_string`] and [`to_string_pretty`] compute it,
//! and [`roundtrip`] proves that decoding gives back what was encoded.

pub mod de;
pub mod literal;
pub mod option;
pub mod private;
pub mod roundtrip;
pub mod ser;
pub mod shape;
pub mod text;
pub mod value;

pub use de::{from_str, Deserializer};
pub use literal::Literal;
pub use option::{deserialize_option, OptionDef};
pub use ser::{to_string, to_string_pretty, Serializer};
pub use shape::{FieldShape, IntKind, NumberKind, Shape, VariantBody, VariantShape};
pub use value::{Member, MemberView, Value, ValueView};
