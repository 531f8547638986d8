//! The values that are encoded and decoded.

use vstd::prelude::*;

verus! {

/// A named member of a record.
#[derive(Debug, PartialEq, Eq)]
pub struct Member {
    pub name: String,
    pub value: Value,
}

/// A value of the caller's data model.
///
/// Records, tuples and variants carry their names, so that a value can be
/// encoded without a shape beside it.
#[derive(Debug, PartialEq, Eq)]
pub enum Value {
    Bool(bool),
    /// A number of a signed integer type.
    Int(i128),
    /// A number of an unsigned integer type.
    UInt(u128),
    /// A floating-point number, held as its text.
    Float(String),
    Str(String),
    Char(char),
    Bytes(Vec<u8>),
    Unit,
    /// An optional value that is not there.
    Absent,
    /// An optional value that is there.
    Present(Box<Value>),
    /// A record without fields: `(name)`.
    UnitStruct(String),
    /// A record with one unnamed field: `(name value)`.
    NewtypeStruct(String, Box<Value>),
    /// A record with unnamed fields: `(name value value)`.
    TupleStruct(String, Vec<Value>),
    /// A record with named fields.
    Struct(String, Vec<Member>),
    /// A sequence of any length.
    List(Vec<Value>),
    /// A sequence of fixed length.
    Tuple(Vec<Value>),
    /// A map from names to values.
    Dict(Vec<Member>),
    /// A variant without content, named by a bare atom.
    UnitVariant(String),
    /// A variant with one value as its content.
    NewtypeVariant(String, Box<Value>),
    /// A variant with unnamed fields.
    TupleVariant(String, Vec<Value>),
    /// A variant with named fields.
    StructVariant(String, Vec<Member>),
    /// One of several alternatives that are told apart by the name of their
    /// expression; the number is the alternative's place among them.
    Untagged(usize, Box<Value>),
}

/// The mathematical model of a [`Member`].
pub ghost struct MemberView {
    pub name: Seq<char>,
    pub value: ValueView,
}

/// The mathematical model of a [`Value`].
pub ghost enum ValueView {
    Bool(bool),
    Int(i128),
    UInt(u128),
    Float(Seq<char>),
    Str(Seq<char>),
    Char(char),
    Bytes(Seq<u8>),
    Unit,
    Absent,
    Present(Box<ValueView>),
    UnitStruct(Seq<char>),
    NewtypeStruct(Seq<char>, Box<ValueView>),
    TupleStruct(Seq<char>, Seq<ValueView>),
    Struct(Seq<char>, Seq<MemberView>),
    List(Seq<ValueView>),
    Tuple(Seq<ValueView>),
    Dict(Seq<MemberView>),
    UnitVariant(Seq<char>),
    NewtypeVariant(Seq<char>, Box<ValueView>),
    TupleVariant(Seq<char>, Seq<ValueView>),
    StructVariant(Seq<char>, Seq<MemberView>),
    Untagged(nat, Box<ValueView>),
}

/// The models of the values of a sequence.
pub open spec fn values_view(v: Seq<Value>) -> Seq<ValueView> {
    Seq::new(v.len(), |i: int| v[i]@)
}

/// The models of the members of a sequence.
pub open spec fn members_view(v: Seq<Member>) -> Seq<MemberView> {
    Seq::new(v.len(), |i: int| v[i]@)
}

impl Value {
    /// The model of the value, by recursion over it.
    pub open spec fn model(&self) -> ValueView
        decreases self,
    {
        match self {
            Value::Bool(b) => ValueView::Bool(*b),
            Value::Int(n) => ValueView::Int(*n),
            Value::UInt(n) => ValueView::UInt(*n),
            Value::Float(t) => ValueView::Float(t@),
            Value::Str(t) => ValueView::Str(t@),
            Value::Char(c) => ValueView::Char(*c),
            Value::Bytes(b) => ValueView::Bytes(b@),
            Value::Unit => ValueView::Unit,
            Value::Absent => ValueView::Absent,
            Value::Present(v) => ValueView::Present(Box::new(v.model())),
            Value::UnitStruct(n) => ValueView::UnitStruct(n@),
            Value::NewtypeStruct(n, v) => ValueView::NewtypeStruct(n@, Box::new(v.model())),
            Value::TupleStruct(n, v) => ValueView::TupleStruct(
                n@,
                Seq::new(
                    v@.len(),
                    |i: int|
                        if 0 <= i < v@.len() {
                            v@[i].model()
                        } else {
                            ValueView::Unit
                        },
                ),
            ),
            Value::Struct(n, m) => ValueView::Struct(
                n@,
                Seq::new(
                    m@.len(),
                    |i: int|
                        if 0 <= i < m@.len() {
                            MemberView { name: m@[i].name@, value: m@[i].value.model() }
                        } else {
                            MemberView { name: Seq::empty(), value: ValueView::Unit }
                        },
                ),
            ),
            Value::List(v) => ValueView::List(
                Seq::new(
                    v@.len(),
                    |i: int|
                        if 0 <= i < v@.len() {
                            v@[i].model()
                        } else {
                            ValueView::Unit
                        },
                ),
            ),
            Value::Tuple(v) => ValueView::Tuple(
                Seq::new(
                    v@.len(),
                    |i: int|
                        if 0 <= i < v@.len() {
                            v@[i].model()
                        } else {
                            ValueView::Unit
                        },
                ),
            ),
            Value::Dict(m) => ValueView::Dict(
                Seq::new(
                    m@.len(),
                    |i: int|
                        if 0 <= i < m@.len() {
                            MemberView { name: m@[i].name@, value: m@[i].value.model() }
                        } else {
                            MemberView { name: Seq::empty(), value: ValueView::Unit }
                        },
                ),
            ),
            Value::UnitVariant(n) => ValueView::UnitVariant(n@),
            Value::NewtypeVariant(n, v) => ValueView::NewtypeVariant(n@, Box::new(v.model())),
            Value::TupleVariant(n, v) => ValueView::TupleVariant(
                n@,
                Seq::new(
                    v@.len(),
                    |i: int|
                        if 0 <= i < v@.len() {
                            v@[i].model()
                        } else {
                            ValueView::Unit
                        },
                ),
            ),
            Value::StructVariant(n, m) => ValueView::StructVariant(
                n@,
                Seq::new(
                    m@.len(),
                    |i: int|
                        if 0 <= i < m@.len() {
                            MemberView { name: m@[i].name@, value: m@[i].value.model() }
                        } else {
                            MemberView { name: Seq::empty(), value: ValueView::Unit }
                        },
                ),
            ),
            Value::Untagged(k, v) => ValueView::Untagged(*k as nat, Box::new(v.model())),
        }
    }

    /// The model of a value with values in it is made of their models.
    pub proof fn lemma_view(&self)
        ensures
            self matches Value::Present(v) ==> self@ == ValueView::Present(Box::new(v@)),
            self matches Value::NewtypeStruct(n, v) ==> self@ == ValueView::NewtypeStruct(
                n@,
                Box::new(v@),
            ),
            self matches Value::NewtypeVariant(n, v) ==> self@ == ValueView::NewtypeVariant(
                n@,
                Box::new(v@),
            ),
            self matches Value::Untagged(k, v) ==> self@ == ValueView::Untagged(
                *k as nat,
                Box::new(v@),
            ),
            self matches Value::TupleStruct(n, v) ==> self@ == ValueView::TupleStruct(
                n@,
                values_view(v@),
            ),
            self matches Value::TupleVariant(n, v) ==> self@ == ValueView::TupleVariant(
                n@,
                values_view(v@),
            ),
            self matches Value::List(v) ==> self@ == ValueView::List(values_view(v@)),
            self matches Value::Tuple(v) ==> self@ == ValueView::Tuple(values_view(v@)),
            self matches Value::Struct(n, m) ==> self@ == ValueView::Struct(n@, members_view(m@)),
            self matches Value::StructVariant(n, m) ==> self@ == ValueView::StructVariant(
                n@,
                members_view(m@),
            ),
            self matches Value::Dict(m) ==> self@ == ValueView::Dict(members_view(m@)),
    {
        match self {
            Value::TupleStruct(n, v) => {
                assert(self@->TupleStruct_1 =~= values_view(v@));
            },
            Value::TupleVariant(n, v) => {
                assert(self@->TupleVariant_1 =~= values_view(v@));
            },
            Value::List(v) => {
                assert(self@->List_0 =~= values_view(v@));
            },
            Value::Tuple(v) => {
                assert(self@->Tuple_0 =~= values_view(v@));
            },
            Value::Struct(n, m) => {
                assert(self@->Struct_1 =~= members_view(m@));
            },
            Value::StructVariant(n, m) => {
                assert(self@->StructVariant_1 =~= members_view(m@));
            },
            Value::Dict(m) => {
                assert(self@->Dict_0 =~= members_view(m@));
            },
            _ => {},
        }
    }
}

impl View for Value {
    type V = ValueView;

    open spec fn view(&self) -> ValueView {
        self.model()
    }
}

impl View for Member {
    type V = MemberView;

    open spec fn view(&self) -> MemberView {
        MemberView { name: self.name@, value: self.value@ }
    }
}

} // verus!
