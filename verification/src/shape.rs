//! What a caller declares of the value it expects.

use vstd::prelude::*;
use vstd::string::*;

verus! {

/// The integer types that a number can be requested as.
#[derive(Clone, Copy, Debug, PartialEq, Eq)]
pub enum IntKind {
    I8,
    I16,
    I32,
    I64,
    I128,
    U8,
    U16,
    U32,
    U64,
    U128,
}

impl IntKind {
    pub open spec fn signed(self) -> bool {
        match self {
            IntKind::I8 | IntKind::I16 | IntKind::I32 | IntKind::I64 | IntKind::I128 => true,
            _ => false,
        }
    }

    /// The smallest number of the type.
    pub open spec fn min(self) -> int {
        match self {
            IntKind::I8 => -0x80,
            IntKind::I16 => -0x8000,
            IntKind::I32 => -0x8000_0000,
            IntKind::I64 => -0x8000_0000_0000_0000,
            IntKind::I128 => -0x8000_0000_0000_0000_0000_0000_0000_0000,
            _ => 0,
        }
    }

    /// The largest number of the type.
    pub open spec fn max(self) -> int {
        match self {
            IntKind::I8 => 0x7f,
            IntKind::I16 => 0x7fff,
            IntKind::I32 => 0x7fff_ffff,
            IntKind::I64 => 0x7fff_ffff_ffff_ffff,
            IntKind::I128 => 0x7fff_ffff_ffff_ffff_ffff_ffff_ffff_ffff,
            IntKind::U8 => 0xff,
            IntKind::U16 => 0xffff,
            IntKind::U32 => 0xffff_ffff,
            IntKind::U64 => 0xffff_ffff_ffff_ffff,
            IntKind::U128 => 0xffff_ffff_ffff_ffff_ffff_ffff_ffff_ffff,
        }
    }

    pub fn is_signed(self) -> (b: bool)
        ensures
            b == self.signed(),
    {
        match self {
            IntKind::I8 | IntKind::I16 | IntKind::I32 | IntKind::I64 | IntKind::I128 => true,
            _ => false,
        }
    }

    /// The largest absolute value that a number of the type with the given
    /// sign can have.
    pub fn limit(self, negative: bool) -> (m: u128)
        ensures
            m == if negative {
                -self.min()
            } else {
                self.max()
            },
    {
        match self {
            IntKind::I8 => if negative { 0x80 } else { 0x7f },
            IntKind::I16 => if negative { 0x8000 } else { 0x7fff },
            IntKind::I32 => if negative { 0x8000_0000 } else { 0x7fff_ffff },
            IntKind::I64 => if negative { 0x8000_0000_0000_0000 } else { 0x7fff_ffff_ffff_ffff },
            IntKind::I128 => if negative {
                0x8000_0000_0000_0000_0000_0000_0000_0000
            } else {
                0x7fff_ffff_ffff_ffff_ffff_ffff_ffff_ffff
            },
            IntKind::U8 => if negative { 0 } else { 0xff },
            IntKind::U16 => if negative { 0 } else { 0xffff },
            IntKind::U32 => if negative { 0 } else { 0xffff_ffff },
            IntKind::U64 => if negative { 0 } else { 0xffff_ffff_ffff_ffff },
            IntKind::U128 => if negative { 0 } else { 0xffff_ffff_ffff_ffff_ffff_ffff_ffff_ffff },
        }
    }
}

/// The kinds of number that the notation holds.
#[derive(Clone, Copy, Debug, PartialEq, Eq)]
pub enum NumberKind {
    Int(IntKind),
    /// A floating-point number of any width.
    Float,
}

/// A field of a record: its name and the shape of its value.
///
/// A field with the empty name stands for what is left of the record's
/// expression; it is a sequence, and the last field.
#[derive(Debug, PartialEq, Eq)]
pub struct FieldShape {
    pub name: String,
    pub shape: Shape,
}

/// What a variant of an enumeration holds.
#[derive(Debug, PartialEq, Eq)]
pub enum VariantBody {
    /// Nothing: the variant is written as a bare atom.
    Unit,
    /// One value, an expression whose name is the variant's name.
    Newtype(Box<Shape>),
    /// Several fields; the notation cannot hold such a variant.
    Fields,
}

/// A variant of an enumeration.
#[derive(Debug, PartialEq, Eq)]
pub struct VariantShape {
    pub name: String,
    pub body: VariantBody,
}

/// The shape that a decode is asked to find.
#[derive(Debug, PartialEq, Eq)]
pub enum Shape {
    /// A flag: true where its field's name stands in the record.
    Bool,
    Int(IntKind),
    /// A floating-point number.
    Float,
    Str,
    /// The empty tuple; in a named field it is written `(name)`.
    Unit,
    /// An optional value that relies on the notation to say whether it is
    /// there. It is absent where the record has ended and cannot be decoded
    /// from a token.
    Optional(Box<Shape>),
    /// An optional value that is found by trying to decode it.
    Trial(Box<Shape>),
    UnitStruct(String),
    NewtypeStruct(String, Box<Shape>),
    TupleStruct(String, Vec<Shape>),
    Struct(String, Vec<FieldShape>),
    /// A sequence of any length.
    List(Box<Shape>),
    /// A sequence of fixed length.
    Tuple(Vec<Shape>),
    Enum(Vec<VariantShape>),
    /// One of several records, told apart by the name of the expression.
    Untagged(Vec<Shape>),
    /// Whatever the next token is.
    Any,
    /// A number that fits 16 bits without sign, or else a text.
    Literal,
}

/// The rule on the fields of a record: only the last field may have the
/// empty name, and it is a sequence.
pub open spec fn fields_in_order(fields: Seq<FieldShape>) -> bool {
    forall|i: int|
        0 <= i < fields.len() && (#[trigger] fields[i]).name@.len() == 0 ==> i + 1 == fields.len()
            && fields[i].shape is List
}

impl Shape {
    /// Whether the shape, and every shape in it, keeps the rule on the
    /// fields of a record.
    pub open spec fn well_formed(self) -> bool
        decreases self, 0nat,
    {
        match self {
            Shape::Optional(inner) => inner.well_formed(),
            Shape::Trial(inner) => inner.well_formed(),
            Shape::NewtypeStruct(_, inner) => inner.well_formed(),
            Shape::List(inner) => inner.well_formed(),
            Shape::TupleStruct(_, shapes) => all_well_formed(shapes@),
            Shape::Tuple(shapes) => all_well_formed(shapes@),
            Shape::Untagged(shapes) => all_well_formed(shapes@),
            Shape::Struct(_, fields) => fields_in_order(fields@) && forall|i: int|
                0 <= i < fields@.len() ==> (#[trigger] fields@[i]).shape.well_formed(),
            Shape::Enum(variants) => forall|i: int|
                0 <= i < variants@.len() ==> match (#[trigger] variants@[i]).body {
                    VariantBody::Newtype(inner) => inner.well_formed(),
                    _ => true,
                },
            _ => true,
        }
    }

    /// Whether the shape, and every shape in it, keeps the rule on the
    /// fields of a record.
    #[verifier::loop_isolation(false)]
    pub fn is_well_formed(&self) -> (b: bool)
        ensures
            b == self.well_formed(),
        decreases self, 0nat,
    {
        match self {
            Shape::Optional(inner) => inner.is_well_formed(),
            Shape::Trial(inner) => inner.is_well_formed(),
            Shape::NewtypeStruct(_, inner) => inner.is_well_formed(),
            Shape::List(inner) => inner.is_well_formed(),
            Shape::TupleStruct(_, shapes) => are_well_formed(shapes),
            Shape::Tuple(shapes) => are_well_formed(shapes),
            Shape::Untagged(shapes) => are_well_formed(shapes),
            Shape::Struct(_, fields) => {
                let mut i: usize = 0;
                while i < fields.len()
                    invariant
                        i <= fields.len(),
                        forall|k: int|
                            0 <= k < i ==> (#[trigger] fields@[k]).shape.well_formed() && (
                            fields@[k].name@.len() == 0 ==> k + 1 == fields@.len()
                                && fields@[k].shape is List),
                    decreases fields.len() - i,
                {
                    let field = &fields[i];
                    if field.name.as_str().unicode_len() == 0 {
                        let last = match &field.shape {
                            Shape::List(_) => i + 1 == fields.len(),
                            _ => false,
                        };
                        if !last {
                            assert(!fields_in_order(fields@)) by {
                                assert(fields@[i as int].name@.len() == 0);
                            }
                            return false;
                        }
                    }
                    if !field.shape.is_well_formed() {
                        assert(!fields@[i as int].shape.well_formed());
                        return false;
                    }
                    i = i + 1;
                }
                true
            },
            Shape::Enum(variants) => {
                let mut i: usize = 0;
                while i < variants.len()
                    invariant
                        i <= variants.len(),
                        forall|k: int|
                            0 <= k < i ==> match (#[trigger] variants@[k]).body {
                                VariantBody::Newtype(inner) => inner.well_formed(),
                                _ => true,
                            },
                    decreases variants.len() - i,
                {
                    let good = match &variants[i].body {
                        VariantBody::Newtype(inner) => inner.is_well_formed(),
                        _ => true,
                    };
                    if !good {
                        assert(variants@[i as int].body is Newtype);
                        return false;
                    }
                    i = i + 1;
                }
                true
            },
            _ => true,
        }
    }
}

/// Whether each of the shapes is well-formed.
pub open spec fn all_well_formed(shapes: Seq<Shape>) -> bool
    decreases shapes, 1nat,
{
    forall|i: int| 0 <= i < shapes.len() ==> (#[trigger] shapes[i]).well_formed()
}

/// Whether each of the shapes is well-formed.
pub fn are_well_formed(shapes: &Vec<Shape>) -> (b: bool)
    ensures
        b == all_well_formed(shapes@),
    decreases shapes, 1nat,
{
    let mut i: usize = 0;
    while i < shapes.len()
        invariant
            i <= shapes.len(),
            forall|k: int| 0 <= k < i ==> (#[trigger] shapes@[k]).well_formed(),
        decreases shapes.len() - i,
    {
        if !shapes[i].is_well_formed() {
            return false;
        }
        i = i + 1;
    }
    true
}

} // verus!
