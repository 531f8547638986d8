//! The decoder: it walks a shape and the input together.

use crate::de::grammar;
use crate::de::grammar::{Decoded, DecodedItems};
use crate::de::names::{find_in, names_of, unexpected_name, unknown_variant};
use crate::de::record::{SExpr, SkipTo, Source};
use crate::de::tuple::{has_more_elements, SExprTuple};
use crate::de::{Deserializer, Error, ErrorView, Token};
use crate::private::{lemma_head_names, names_view, NameExtractor};
use crate::shape::{FieldShape, IntKind, NumberKind, Shape, VariantBody, VariantShape};
use crate::value::{members_view, values_view, Member, MemberView, Value, ValueView};
use vstd::prelude::*;
use vstd::string::*;

verus! {

/// A failed decode, and whether the value had been found before it failed.
#[derive(Debug, PartialEq, Eq)]
pub struct Failure {
    pub error: Error,
    pub touched: bool,
}

/// The decoder's result and the input that it left are what the grammar
/// says.
pub open spec fn agrees(r: Result<Value, Failure>, rest: Seq<char>, d: Decoded) -> bool {
    rest == d.rest && match r {
        Ok(v) => d.result == Ok::<ValueView, ErrorView>(v@),
        Err(f) => d.result == Err::<ValueView, ErrorView>(f.error@) && f.touched == d.touched,
    }
}

/// The same of several values.
pub open spec fn items_agree(r: Result<Vec<Value>, Error>, rest: Seq<char>, d: DecodedItems) -> bool {
    rest == d.rest && match r {
        Ok(v) => d.result == Ok::<Seq<ValueView>, ErrorView>(values_view(v@)),
        Err(e) => d.result == Err::<Seq<ValueView>, ErrorView>(e@),
    }
}

/// The text of an optional name.
pub open spec fn ident_view(ident: Option<&str>) -> Option<Seq<char>> {
    match ident {
        Some(name) => Some(name@),
        None => None,
    }
}

/// A failure before the value was found.
pub fn early(error: Error) -> (f: Failure)
    ensures
        f.error == error,
        !f.touched,
{
    Failure { error, touched: false }
}

/// A failure after the value was found.
pub fn late(error: Error) -> (f: Failure)
    ensures
        f.error == error,
        f.touched,
{
    Failure { error, touched: true }
}

/// Makes an optional value of the outcome of trying to decode it: it is
/// there if it was decoded, absent if the decode failed before it found
/// the value, and a failure after that stands.
pub fn resolve_trial(r: Result<Value, Failure>) -> (o: Result<Value, Failure>)
    ensures
        forall|rest: Seq<char>, d: Decoded| #[trigger]
            agrees(r, rest, d) ==> agrees(o, rest, grammar::trial(d)),
{
    match r {
        Ok(v) => {
            let o = Value::Present(Box::new(v));
            proof {
                o.lemma_view();
            }
            Ok(o)
        },
        Err(f) => if f.touched {
            Err(f)
        } else {
            Ok(Value::Absent)
        },
    }
}

/// What a field is decoded to that has no token of its own: a flag that is
/// set (`flag`), or a field that is passed over.
pub fn decode_synthetic(de: &Deserializer, shape: &Shape, flag: bool, wrapped: bool) -> (r: Result<
    Value,
    Failure,
>)
    ensures
        agrees(r, de@, grammar::decode_synthetic(*shape, flag, wrapped, de@)),
    decreases shape,
{
    match shape {
        Shape::Bool => Ok(Value::Bool(flag)),
        Shape::Trial(inner) => resolve_trial(decode_synthetic(de, inner, flag, true)),
        Shape::Untagged(candidates) => match NameExtractor::extract_all(candidates, 0) {
            Err(m) => Err(early(Error::Message(m))),
            Ok(_) => if flag {
                Err(late(Error::custom("invalid type: boolean `true`")))
            } else {
                Err(Failure { error: Error::custom("invalid type: Option value"), touched: !wrapped })
            },
        },
        Shape::Any => if flag {
            Ok(Value::Bool(true))
        } else if wrapped {
            Err(early(Error::custom("invalid type: Option value")))
        } else {
            Ok(Value::Absent)
        },
        Shape::Optional(_) => if flag {
            Err(late(Error::custom("invalid type: boolean `true`")))
        } else if wrapped {
            Err(early(Error::custom("invalid type: Option value")))
        } else {
            Ok(Value::Absent)
        },
        Shape::Literal => if !flag && wrapped {
            Err(early(Error::custom("invalid type: Option value")))
        } else {
            Err(late(Error::custom("data did not match any variant of untagged enum Literal")))
        },
        _ => if flag {
            Err(late(Error::custom("invalid type: boolean `true`")))
        } else {
            Err(Failure { error: Error::custom("invalid type: Option value"), touched: !wrapped })
        },
    }
}

/// Fails with `TrailingTokens` if a value was decoded and anything but
/// whitespace is left.
pub fn check_trailing(de: &mut Deserializer, r: Result<Value, Failure>, touched: bool) -> (o:
    Result<Value, Failure>)
    ensures
        forall|d: Decoded| #[trigger]
            agrees(r, old(de)@, d) ==> agrees(o, final(de)@, grammar::trailing(d, touched)),
{
    match r {
        Ok(v) => match de.check_no_trailing_tokens() {
            Ok(()) => Ok(v),
            Err(e) => Err(Failure { error: e, touched }),
        },
        Err(f) => Err(f),
    }
}

/// Reads an expression without fields: `(name)`.
pub fn unit_struct(de: &mut Deserializer, name: &str) -> (r: Result<(), Error>)
    ensures
        final(de)@ == grammar::unit_struct(name@, old(de)@).rest,
        crate::de::plain_result(r) == grammar::unit_struct(name@, old(de)@).result,
{
    SExpr::consume_beginning(de, name)?;
    let c = de.next_char()?;
    if c != ')' {
        return Err(Error::ExpectedEoe);
    }
    Ok(())
}

/// The failure that an expression stands where no shape says what it is.
pub fn missing_info(de: &Deserializer) -> (f: Failure)
    ensures
        agrees(Err(f), de@, grammar::missing_info(de@)),
{
    match de.peek_sexpr_identifier() {
        Err(e) => early(e),
        Ok(head) => early(Error::MissingSExprInfo(head)),
    }
}

/// Reads a number as the value of a field.
pub fn scalar(de: &mut Deserializer, kind: NumberKind) -> (r: Result<Value, Failure>)
    ensures
        agrees(r, final(de)@, grammar::scalar(crate::de::parse_number(old(de)@, kind))),
{
    match de.parse_number(kind) {
        Ok(v) => Ok(v),
        Err(e) => Err(early(e)),
    }
}

/// Reads a string as the value of a field.
pub fn text(de: &mut Deserializer) -> (r: Result<Value, Failure>)
    ensures
        agrees(r, final(de)@, grammar::text(crate::de::parse_string(old(de)@))),
{
    match de.parse_string() {
        Ok(t) => Ok(Value::Str(t)),
        Err(e) => Err(early(e)),
    }
}

/// Keeps a number that fits 16 bits without sign, and a text; fails on
/// any other value.
pub fn literal(r: Result<Value, Failure>) -> (o: Result<Value, Failure>)
    ensures
        forall|rest: Seq<char>, d: Decoded| #[trigger]
            agrees(r, rest, d) ==> agrees(o, rest, grammar::literal(d)),
{
    match r {
        Ok(Value::UInt(n)) => if n <= 0xffff {
            Ok(Value::UInt(n))
        } else {
            Err(late(Error::custom("data did not match any variant of untagged enum Literal")))
        },
        Ok(Value::Int(n)) => if 0 <= n && n <= 0xffff {
            Ok(Value::UInt(n as u128))
        } else {
            Err(late(Error::custom("data did not match any variant of untagged enum Literal")))
        },
        Ok(Value::Str(t)) => Ok(Value::Str(t)),
        Ok(_) => Err(late(Error::custom("data did not match any variant of untagged enum Literal"))),
        Err(f) => Err(f),
    }
}

/// Appends the members that stand for the fields from `from` up to `to`,
/// all of which are passed over, and says whether each has a default.
fn push_defaults(members: &mut Vec<Member>, fields: &Vec<FieldShape>, from: usize, to: usize) -> (all:
    bool)
    requires
        from <= to <= fields.len(),
    ensures
        members_view(final(members)@) == members_view(old(members)@) + grammar::default_members(
            fields@,
            from as nat,
            to as nat,
        ),
        all == grammar::all_default(fields@, from as nat, to as nat),
{
    let ghost before = members_view(members@);
    let mut all = true;
    let mut i: usize = from;
    proof {
        assert(before + grammar::default_members(fields@, from as nat, from as nat) =~= before);
    }
    while i < to
        invariant
            from <= i <= to <= fields.len(),
            members_view(members@) == before + grammar::default_members(
                fields@,
                from as nat,
                i as nat,
            ),
            all == grammar::all_default(fields@, from as nat, i as nat),
        decreases to - i,
    {
        let ghost current = members_view(members@);
        let value = match &fields[i].shape {
            Shape::List(_) => {
                let v = Value::List(Vec::new());
                proof {
                    v.lemma_view();
                    assert(values_view(Seq::<Value>::empty()) =~= Seq::<ValueView>::empty());
                }
                v
            },
            Shape::Optional(_) => Value::Absent,
            _ => {
                all = false;
                Value::Unit
            },
        };
        let member = Member { name: fields[i].name.clone(), value };
        members.push(member);
        proof {
            grammar::lemma_default_members(fields@, from as nat, i as nat);
            assert(members_view(members@) =~= current.push(member@));
        }
        i = i + 1;
    }
    all
}

/// Decodes `shape` as the root of the input.
pub fn decode_root(de: &mut Deserializer, shape: &Shape) -> (r: Result<Value, Failure>)
    ensures
        agrees(r, final(de)@, grammar::decode_root(*shape, old(de)@)),
    decreases shape, old(de)@.len(), 1nat,
{
    match shape {
        Shape::UnitStruct(name) => {
            match unit_struct(de, name.as_str()) {
                Err(e) => Err(early(e)),
                Ok(()) => {
                    let r = Ok(Value::UnitStruct(name.clone()));
                    assert(agrees(r, de@, grammar::done(ValueView::UnitStruct(name@), de@)));
                    check_trailing(de, r, false)
                },
            }
        },
        Shape::NewtypeStruct(name, inner) => {
            match SExprTuple::new(de, name.as_str()) {
                Err(e) => Err(early(e)),
                Ok(_) => {
                    let ghost s = de@;
                    let single = decode_single(de, inner);
                    assert(agrees(single, de@, grammar::decode_single(**inner, s)));
                    let r = newtype_struct(name, single);
                    assert(agrees(
                        r,
                        de@,
                        grammar::newtype_struct(name@, grammar::decode_single(**inner, s)),
                    ));
                    check_trailing(de, r, true)
                },
            }
        },
        Shape::TupleStruct(name, shapes) => {
            match SExprTuple::new(de, name.as_str()) {
                Err(e) => Err(early(e)),
                Ok(_) => {
                    let ghost s = de@;
                    let r = match decode_items(de, shapes) {
                        Ok(items) => {
                            let v = Value::TupleStruct(name.clone(), items);
                            proof {
                                v.lemma_view();
                            }
                            Ok(v)
                        },
                        Err(e) => Err(late(e)),
                    };
                    assert(agrees(
                        r,
                        de@,
                        grammar::tuple_struct(
                            name@,
                            grammar::decode_items(shapes@, 0, false, s, Seq::empty()),
                        ),
                    ));
                    check_trailing(de, r, true)
                },
            }
        },
        Shape::Struct(name, fields) => {
            match SExpr::new(de, name.as_str()) {
                Err(e) => Err(early(e)),
                Ok(_) => {
                    let ghost s = de@;
                    let r = decode_members(de, fields, name);
                    assert(agrees(
                        r,
                        de@,
                        grammar::decode_members(
                            fields@,
                            0,
                            SkipTo::Unset,
                            s,
                            name@,
                            Seq::empty(),
                            true,
                        ),
                    ));
                    check_trailing(de, r, true)
                },
            }
        },
        Shape::Enum(variants) => {
            let ghost s = de@;
            let r = root_enum(de, variants);
            assert(agrees(r, de@, grammar::root_enum(variants@, s)));
            check_trailing(de, r, true)
        },
        Shape::Untagged(candidates) => match NameExtractor::extract_all(candidates, 0) {
            Err(m) => Err(early(Error::Message(m))),
            Ok(names) => {
                let ghost s = de@;
                proof {
                    lemma_head_names(candidates@, 0);
                }
                let r = root_untagged(de, candidates, &names);
                assert(agrees(r, de@, grammar::root_untagged(candidates@, names_view(names@), s)));
                check_trailing(de, r, true)
            },
        },
        Shape::Trial(inner) => {
            let ghost s = de@;
            let r = decode_root(de, inner);
            assert(agrees(r, de@, grammar::decode_root(**inner, s)));
            resolve_trial(r)
        },
        _ => Err(early(Error::ExpectedStruct)),
    }
}

/// Makes a record with one unnamed field of its field.
pub fn newtype_struct(name: &String, r: Result<Value, Failure>) -> (o: Result<Value, Failure>)
    ensures
        forall|rest: Seq<char>, d: Decoded| #[trigger]
            agrees(r, rest, d) ==> agrees(o, rest, grammar::newtype_struct(name@, d)),
{
    match r {
        Ok(v) => {
            let o = Value::NewtypeStruct(name.clone(), Box::new(v));
            proof {
                o.lemma_view();
            }
            Ok(o)
        },
        Err(f) => Err(late(f.error)),
    }
}

/// Makes a variant of the value that it holds.
pub fn newtype_variant(name: &String, r: Result<Value, Failure>) -> (o: Result<Value, Failure>)
    ensures
        forall|rest: Seq<char>, d: Decoded| #[trigger]
            agrees(r, rest, d) ==> agrees(o, rest, grammar::newtype_variant(name@, d)),
{
    match r {
        Ok(v) => {
            let o = Value::NewtypeVariant(name.clone(), Box::new(v));
            proof {
                o.lemma_view();
            }
            Ok(o)
        },
        Err(f) => Err(late(f.error)),
    }
}

/// Marks a value as the alternative of the given index.
pub fn untagged(index: usize, r: Result<Value, Failure>) -> (o: Result<Value, Failure>)
    ensures
        forall|rest: Seq<char>, d: Decoded| #[trigger]
            agrees(r, rest, d) ==> agrees(o, rest, grammar::untagged(index as nat, d)),
{
    match r {
        Ok(v) => {
            let o = Value::Untagged(index, Box::new(v));
            proof {
                o.lemma_view();
            }
            Ok(o)
        },
        Err(f) => Err(late(f.error)),
    }
}

/// An enumeration at the root.
pub fn root_enum(de: &mut Deserializer, variants: &Vec<VariantShape>) -> (r: Result<Value, Failure>)
    ensures
        agrees(r, final(de)@, grammar::root_enum(variants@, old(de)@)),
    decreases variants, old(de)@.len(), 0nat,
{
    let head = match de.peek_sexpr_identifier() {
        Err(e) => {
            return Err(late(e));
        },
        Ok(head) => head,
    };
    let names = names_of(variants);
    match find_in(&names, &head, 0) {
        None => Err(late(unknown_variant(head.as_str(), &names))),
        Some(i) => {
            assert(names_view(names@).len() == variants@.len());
            match &variants[i].body {
                VariantBody::Newtype(inner) => newtype_variant(
                    &variants[i].name,
                    decode_root(de, inner),
                ),
                _ => Err(late(Error::NonNewtypeEnumVariant)),
            }
        },
    }
}

/// Alternatives at the root; `names` holds their names.
fn root_untagged(de: &mut Deserializer, candidates: &Vec<Shape>, names: &Vec<String>) -> (r:
    Result<Value, Failure>)
    requires
        names.len() == candidates.len(),
    ensures
        agrees(r, final(de)@, grammar::root_untagged(candidates@, names_view(names@), old(de)@)),
    decreases candidates, old(de)@.len(), 0nat,
{
    let head = match de.peek_sexpr_identifier() {
        Err(e) => {
            return Err(late(e));
        },
        Ok(head) => head,
    };
    match find_in(names, &head, 0) {
        Some(i) => untagged(i, decode_root(de, &candidates[i])),
        None => Err(late(unexpected_name(head.as_str(), names))),
    }
}

/// The one element of an expression.
pub fn decode_single(de: &mut Deserializer, shape: &Shape) -> (r: Result<Value, Failure>)
    ensures
        agrees(r, final(de)@, grammar::decode_single(*shape, old(de)@)),
    decreases shape, old(de)@.len(), 2nat,
{
    let mut state = SExprTuple { end: false };
    proof {
        grammar::lemma_check_eoe(SkipTo::Unset, false, de@);
    }
    match state.check_eoe(de) {
        Err(e) => {
            return Err(late(e));
        },
        Ok(()) => {},
    }
    if state.end {
        return Err(late(Error::custom("invalid length")));
    }
    let v = match decode_field(de, shape, None) {
        Err(f) => {
            return Err(late(f.error));
        },
        Ok(v) => v,
    };
    match state.check_eoe(de) {
        Err(e) => Err(late(e)),
        Ok(()) => Ok(v),
    }
}

/// The elements of an expression that has as many as `shapes`.
pub fn decode_items(de: &mut Deserializer, shapes: &Vec<Shape>) -> (r: Result<Vec<Value>, Error>)
    ensures
        items_agree(
            r,
            final(de)@,
            grammar::decode_items(shapes@, 0, false, old(de)@, Seq::empty()),
        ),
    decreases shapes, shapes.len(), 0nat,
{
    let mut state = SExprTuple { end: false };
    let mut items: Vec<Value> = Vec::new();
    let mut i: usize = 0;
    proof {
        assert(values_view(items@) =~= Seq::<ValueView>::empty());
    }
    while i < shapes.len()
        invariant
            i <= shapes.len(),
            grammar::decode_items(shapes@, 0, false, old(de)@, Seq::empty())
                == grammar::decode_items(shapes@, i as nat, state.end, de@, values_view(items@)),
        decreases shapes.len() - i,
    {
        match state.check_eoe(de) {
            Err(e) => {
                return Err(e);
            },
            Ok(()) => {},
        }
        if state.end {
            return Err(Error::custom("invalid length"));
        }
        let v = match decode_field(de, &shapes[i], None) {
            Err(f) => {
                return Err(f.error);
            },
            Ok(v) => v,
        };
        match state.check_eoe(de) {
            Err(e) => {
                return Err(e);
            },
            Ok(()) => {},
        }
        proof {
            assert(values_view(items@.push(v)) =~= values_view(items@).push(v@));
        }
        items.push(v);
        i = i + 1;
    }
    Ok(items)
}

/// The elements of an expression that has any number of them, up to its
/// closing parenthesis.
pub fn decode_elements(de: &mut Deserializer, shape: &Shape) -> (r: Result<Vec<Value>, Error>)
    ensures
        items_agree(
            r,
            final(de)@,
            grammar::decode_elements(*shape, false, old(de)@, Seq::empty()),
        ),
    decreases shape, old(de)@.len(), 2nat,
{
    let mut state = SExprTuple { end: false };
    let mut items: Vec<Value> = Vec::new();
    proof {
        assert(values_view(items@) =~= Seq::<ValueView>::empty());
    }
    loop
        invariant
            de@.len() <= old(de)@.len(),
            grammar::decode_elements(*shape, false, old(de)@, Seq::empty())
                == grammar::decode_elements(*shape, state.end, de@, values_view(items@)),
        decreases de@.len(),
    {
        let before = de.remaining_len();
        proof {
            grammar::lemma_check_eoe(SkipTo::Unset, state.end, de@);
        }
        match state.check_eoe(de) {
            Err(e) => {
                return Err(e);
            },
            Ok(()) => {},
        }
        if state.end {
            return Ok(items);
        }
        let v = match decode_field(de, shape, None) {
            Err(f) => {
                return Err(f.error);
            },
            Ok(v) => v,
        };
        match state.check_eoe(de) {
            Err(e) => {
                return Err(e);
            },
            Ok(()) => {},
        }
        if de.remaining_len() >= before {
            return Err(Error::custom("sequence element consumed no input"));
        }
        proof {
            assert(values_view(items@.push(v)) =~= values_view(items@).push(v@));
        }
        items.push(v);
    }
}

/// The elements that are left of the enclosing expression, up to its
/// closing parenthesis, which stays in the input.
pub fn decode_rest_elements(de: &mut Deserializer, shape: &Shape) -> (r: Result<Vec<Value>, Error>)
    ensures
        items_agree(
            r,
            final(de)@,
            grammar::decode_rest_elements(*shape, old(de)@, Seq::empty()),
        ),
    decreases shape, old(de)@.len(), 2nat,
{
    let mut items: Vec<Value> = Vec::new();
    proof {
        assert(values_view(items@) =~= Seq::<ValueView>::empty());
    }
    loop
        invariant
            de@.len() <= old(de)@.len(),
            grammar::decode_rest_elements(*shape, old(de)@, Seq::empty())
                == grammar::decode_rest_elements(*shape, de@, values_view(items@)),
        decreases de@.len(),
    {
        let before = de.remaining_len();
        proof {
            grammar::lemma_check_eoe(SkipTo::Unset, false, de@);
        }
        match has_more_elements(de) {
            Err(e) => {
                return Err(e);
            },
            Ok(more) => {
                if !more {
                    return Ok(items);
                }
            },
        }
        let v = match decode_field(de, shape, None) {
            Err(f) => {
                return Err(f.error);
            },
            Ok(v) => v,
        };
        if de.remaining_len() >= before {
            return Err(Error::custom("sequence element consumed no input"));
        }
        proof {
            assert(values_view(items@.push(v)) =~= values_view(items@).push(v@));
        }
        items.push(v);
    }
}

/// As many elements as `shapes` of those that are left of the enclosing
/// expression.
pub fn decode_rest_items(de: &mut Deserializer, shapes: &Vec<Shape>) -> (r: Result<Vec<Value>, Error>)
    ensures
        items_agree(r, final(de)@, grammar::decode_rest_items(shapes@, 0, old(de)@, Seq::empty())),
    decreases shapes, shapes.len(), 0nat,
{
    let mut items: Vec<Value> = Vec::new();
    let mut i: usize = 0;
    proof {
        assert(values_view(items@) =~= Seq::<ValueView>::empty());
    }
    while i < shapes.len()
        invariant
            i <= shapes.len(),
            grammar::decode_rest_items(shapes@, 0, old(de)@, Seq::empty())
                == grammar::decode_rest_items(shapes@, i as nat, de@, values_view(items@)),
        decreases shapes.len() - i,
    {
        match has_more_elements(de) {
            Err(e) => {
                return Err(e);
            },
            Ok(more) => {
                if !more {
                    return Err(Error::custom("invalid length"));
                }
            },
        }
        let v = match decode_field(de, &shapes[i], None) {
            Err(f) => {
                return Err(f.error);
            },
            Ok(v) => v,
        };
        proof {
            assert(values_view(items@.push(v)) =~= values_view(items@).push(v@));
        }
        items.push(v);
        i = i + 1;
    }
    Ok(items)
}

/// What a field is decoded to, given where its value comes from.
pub fn decode_from(de: &mut Deserializer, source: Source, field: &FieldShape) -> (r: Result<
    Value,
    Failure,
>)
    ensures
        agrees(r, final(de)@, grammar::decode_from(source, *field, old(de)@)),
    decreases field, old(de)@.len(), 2nat,
{
    match source {
        Source::Flag => decode_synthetic(de, &field.shape, true, false),
        Source::Missing => decode_synthetic(de, &field.shape, false, false),
        Source::Field => decode_field(de, &field.shape, Some(field.name.as_str())),
    }
}

/// The fields of a record, up to its closing parenthesis.
pub fn decode_members(de: &mut Deserializer, fields: &Vec<FieldShape>, name: &String) -> (r:
    Result<Value, Failure>)
    ensures
        agrees(
            r,
            final(de)@,
            grammar::decode_members(
                fields@,
                0,
                SkipTo::Unset,
                old(de)@,
                name@,
                Seq::empty(),
                true,
            ),
        ),
    decreases fields, fields.len(), 0nat,
{
    let mut state = SExpr { index: 0, skip_to: SkipTo::Unset };
    let mut members: Vec<Member> = Vec::new();
    let mut complete = true;
    proof {
        assert(members_view(members@) =~= Seq::<MemberView>::empty());
    }
    loop
        invariant
            state.index <= fields.len(),
            grammar::decode_members(
                fields@,
                0,
                SkipTo::Unset,
                old(de)@,
                name@,
                Seq::empty(),
                true,
            ) == grammar::decode_members(
                fields@,
                state.index as nat,
                state.skip_to,
                de@,
                name@,
                members_view(members@),
                complete,
            ),
        decreases fields.len() - state.index,
    {
        let from = state.index;
        proof {
            grammar::lemma_next_key(
                fields@,
                crate::de::record::RecordState {
                    index: from as nat,
                    skip_to: crate::de::record::check_eoe(state.skip_to, de@).result->Ok_0,
                },
            );
        }
        let key = match state.next_key_seed(de, fields) {
            Err(e) => {
                return Err(late(e));
            },
            Ok(key) => key,
        };
        let all = push_defaults(&mut members, fields, from, state.index);
        complete = complete && all;
        let i = match key {
            None => {
                if complete {
                    let v = Value::Struct(name.clone(), members);
                    proof {
                        v.lemma_view();
                    }
                    return Ok(v);
                } else {
                    return Err(late(Error::custom("missing field ``")));
                }
            },
            Some(i) => i,
        };
        let source = state.next_value_seed_impl(de, fields);
        let v = match decode_from(de, source, &fields[i]) {
            Err(f) => {
                return Err(late(f.error));
            },
            Ok(v) => v,
        };
        state.index = state.index + 1;
        match state.check_eoe(de) {
            Err(e) => {
                return Err(late(e));
            },
            Ok(()) => {},
        }
        let member = Member { name: fields[i].name.clone(), value: v };
        proof {
            assert(members_view(members@.push(member)) =~= members_view(members@).push(member@));
        }
        members.push(member);
    }
}

/// Decodes `shape` from the next token, as the value of a field named
/// `ident` or, with no `ident`, as an unnamed element.
pub fn decode_field(de: &mut Deserializer, shape: &Shape, ident: Option<&str>) -> (r: Result<
    Value,
    Failure,
>)
    ensures
        agrees(r, final(de)@, grammar::decode_field(*shape, ident_view(ident), old(de)@)),
    decreases shape, old(de)@.len(), 1nat,
{
    match shape {
        Shape::Bool => match ident {
            None => Err(late(Error::UnnamedBoolean)),
            Some(_) => Ok(Value::Bool(false)),
        },
        Shape::Int(kind) => scalar(de, NumberKind::Int(*kind)),
        Shape::Float => scalar(de, NumberKind::Float),
        Shape::Str => text(de),
        Shape::Unit => match ident {
            None => Err(missing_info(de)),
            Some(name) => match unit_struct(de, name) {
                Err(e) => Err(early(e)),
                Ok(()) => Ok(Value::Unit),
            },
        },
        Shape::Optional(_) => Err(early(Error::UnsupportedOptionHere)),
        Shape::Trial(inner) => resolve_trial(decode_field(de, inner, ident)),
        Shape::UnitStruct(name) => match unit_struct(de, name.as_str()) {
            Err(e) => Err(early(e)),
            Ok(()) => Ok(Value::UnitStruct(name.clone())),
        },
        Shape::NewtypeStruct(name, inner) => match SExprTuple::new(de, name.as_str()) {
            Err(e) => Err(early(e)),
            Ok(_) => newtype_struct(name, decode_single(de, inner)),
        },
        Shape::TupleStruct(name, shapes) => match SExprTuple::new(de, name.as_str()) {
            Err(e) => Err(early(e)),
            Ok(_) => match decode_items(de, shapes) {
                Ok(items) => {
                    let v = Value::TupleStruct(name.clone(), items);
                    proof {
                        v.lemma_view();
                    }
                    Ok(v)
                },
                Err(e) => Err(late(e)),
            },
        },
        Shape::Struct(name, fields) => match SExpr::new(de, name.as_str()) {
            Err(e) => Err(early(e)),
            Ok(_) => decode_members(de, fields, name),
        },
        Shape::List(inner) => match ident {
            None => Err(missing_info(de)),
            Some(name) => {
                let items = if name.unicode_len() == 0 {
                    decode_rest_elements(de, inner)
                } else {
                    match SExprTuple::new(de, name) {
                        Err(e) => {
                            return Err(early(e));
                        },
                        Ok(_) => decode_elements(de, inner),
                    }
                };
                match items {
                    Ok(items) => {
                        let v = Value::List(items);
                        proof {
                            v.lemma_view();
                        }
                        Ok(v)
                    },
                    Err(e) => Err(late(e)),
                }
            },
        },
        Shape::Tuple(shapes) => match ident {
            None => Err(missing_info(de)),
            Some(name) => {
                let items = if name.unicode_len() == 0 {
                    decode_rest_items(de, shapes)
                } else {
                    match SExprTuple::new(de, name) {
                        Err(e) => {
                            return Err(early(e));
                        },
                        Ok(_) => decode_items(de, shapes),
                    }
                };
                match items {
                    Ok(items) => {
                        let v = Value::Tuple(items);
                        proof {
                            v.lemma_view();
                        }
                        Ok(v)
                    },
                    Err(e) => Err(late(e)),
                }
            },
        },
        Shape::Enum(variants) => field_enum(de, variants),
        Shape::Untagged(candidates) => match NameExtractor::extract_all(candidates, 0) {
            Err(m) => Err(early(Error::Message(m))),
            Ok(names) => {
                proof {
                    lemma_head_names(candidates@, 0);
                }
                field_untagged(de, candidates, &names)
            },
        },
        Shape::Any => decode_any(de, ident),
        Shape::Literal => literal(decode_any(de, ident)),
    }
}

/// The variant that an atom names.
fn variant_key(de: &mut Deserializer, variants: &Vec<VariantShape>, token: Token) -> (r:
    Result<usize, Error>)
    requires
        old(de)@.len() > 0,
    ensures
        final(de)@ == grammar::variant_key(variants@, token, old(de)@).rest,
        match grammar::variant_key(variants@, token, old(de)@).result {
            Ok(i) => r == Ok::<usize, Error>(i as usize) && i < variants.len(),
            Err(e) => r is Err && r->Err_0@ == e,
        },
{
    match token {
        Token::Int => {
            let first = de.peek_char();
            if let Ok('-') = first {
                match de.parse_number(NumberKind::Int(IntKind::I64)) {
                    Err(e) => Err(e),
                    Ok(_) => Err(Error::custom("invalid type: expected variant identifier")),
                }
            } else {
                match de.parse_number(NumberKind::Int(IntKind::U64)) {
                    Err(e) => Err(e),
                    Ok(Value::UInt(v)) => if v < variants.len() as u128 {
                        Ok(v as usize)
                    } else {
                        Err(Error::custom("invalid value: variant index out of range"))
                    },
                    Ok(_) => Err(Error::custom("invalid type: expected variant identifier")),
                }
            }
        },
        Token::Float => match de.parse_number(NumberKind::Float) {
            Err(e) => Err(e),
            Ok(_) => Err(Error::custom("invalid type: expected variant identifier")),
        },
        _ => match de.parse_string() {
            Err(e) => Err(e),
            Ok(name) => {
                let names = names_of(variants);
                match find_in(&names, &name, 0) {
                    Some(i) => {
                        assert(names_view(names@).len() == variants@.len());
                        Ok(i)
                    },
                    None => Err(unknown_variant(name.as_str(), &names)),
                }
            },
        },
    }
}

/// An enumeration in a field.
pub fn field_enum(de: &mut Deserializer, variants: &Vec<VariantShape>) -> (r: Result<Value, Failure>)
    ensures
        agrees(r, final(de)@, grammar::field_enum(variants@, old(de)@)),
    decreases variants, old(de)@.len(), 0nat,
{
    let token = match de.peek_token() {
        Err(e) => {
            return Err(late(e));
        },
        Ok(token) => token,
    };
    if let Token::SExpr = token {
        let head = match de.peek_sexpr_identifier() {
            Err(e) => {
                return Err(late(e));
            },
            Ok(head) => head,
        };
        let names = names_of(variants);
        match find_in(&names, &head, 0) {
            None => Err(late(unknown_variant(head.as_str(), &names))),
            Some(i) => {
                assert(names_view(names@).len() == variants@.len());
                match &variants[i].body {
                    VariantBody::Newtype(inner) => newtype_variant(
                        &variants[i].name,
                        decode_field(de, inner, None),
                    ),
                    _ => Err(late(Error::NonNewtypeEnumVariant)),
                }
            },
        }
    } else {
        match variant_key(de, variants, token) {
            Err(e) => Err(late(e)),
            Ok(i) => match &variants[i].body {
                VariantBody::Unit => Ok(Value::UnitVariant(variants[i].name.clone())),
                _ => Err(late(Error::NonUnitEnumVariant)),
            },
        }
    }
}

/// Alternatives in a field; `names` holds their names.
fn field_untagged(de: &mut Deserializer, candidates: &Vec<Shape>, names: &Vec<String>) -> (r:
    Result<Value, Failure>)
    requires
        names.len() == candidates.len(),
    ensures
        agrees(r, final(de)@, grammar::field_untagged(candidates@, names_view(names@), old(de)@)),
    decreases candidates, old(de)@.len(), 0nat,
{
    let token = match de.peek_token() {
        Err(e) => {
            return Err(late(e));
        },
        Ok(token) => token,
    };
    if let Token::SExpr = token {
        let head = match de.peek_sexpr_identifier() {
            Err(e) => {
                return Err(late(e));
            },
            Ok(head) => head,
        };
        match find_in(names, &head, 0) {
            Some(i) => untagged(i, decode_field(de, &candidates[i], None)),
            None => Err(late(unexpected_name(head.as_str(), names))),
        }
    } else {
        match de.parse_string() {
            Err(e) => Err(late(e)),
            Ok(name) => match find_in(names, &name, 0) {
                Some(_) => Err(late(Error::NonUnitEnumVariant)),
                None => Err(late(unexpected_name(name.as_str(), names))),
            },
        }
    }
}

/// Whatever the next token is.
pub fn decode_any(de: &mut Deserializer, ident: Option<&str>) -> (r: Result<Value, Failure>)
    ensures
        agrees(r, final(de)@, grammar::decode_any(ident_view(ident), old(de)@)),
    decreases old(de)@.len(), 0nat,
{
    let token = match de.peek_token() {
        Err(e) => {
            return Err(early(e));
        },
        Ok(token) => token,
    };
    match token {
        Token::Int => {
            let first = de.peek_char();
            if let Ok('-') = first {
                scalar(de, NumberKind::Int(IntKind::I64))
            } else {
                scalar(de, NumberKind::Int(IntKind::U64))
            }
        },
        Token::Float => scalar(de, NumberKind::Float),
        Token::Str => text(de),
        Token::SExpr => {
            let head = match de.peek_sexpr_identifier() {
                Err(e) => {
                    return Err(early(e));
                },
                Ok(head) => head,
            };
            let named = match ident {
                Some(name) => crate::de::record::str_eq(name, head.as_str()),
                None => false,
            };
            if !named {
                return Err(early(Error::MissingSExprInfo(head)));
            }
            proof {
                grammar::lemma_begin(head@, de@);
            }
            match SExprTuple::new(de, head.as_str()) {
                Err(e) => Err(early(e)),
                Ok(_) => match any_elements(de) {
                    Ok(items) => {
                        let v = Value::List(items);
                        proof {
                            v.lemma_view();
                        }
                        Ok(v)
                    },
                    Err(e) => Err(late(e)),
                },
            }
        },
    }
}

/// The elements of an expression of whatever its tokens are, up to its
/// closing parenthesis.
pub fn any_elements(de: &mut Deserializer) -> (r: Result<Vec<Value>, Error>)
    ensures
        items_agree(r, final(de)@, grammar::any_elements(false, old(de)@, Seq::empty())),
    decreases old(de)@.len(), 1nat,
{
    let mut state = SExprTuple { end: false };
    let mut items: Vec<Value> = Vec::new();
    proof {
        assert(values_view(items@) =~= Seq::<ValueView>::empty());
    }
    loop
        invariant
            de@.len() <= old(de)@.len(),
            grammar::any_elements(false, old(de)@, Seq::empty()) == grammar::any_elements(
                state.end,
                de@,
                values_view(items@),
            ),
        decreases de@.len(),
    {
        let before = de.remaining_len();
        proof {
            grammar::lemma_check_eoe(SkipTo::Unset, state.end, de@);
        }
        match state.check_eoe(de) {
            Err(e) => {
                return Err(e);
            },
            Ok(()) => {},
        }
        if state.end {
            return Ok(items);
        }
        let v = match decode_any(de, None) {
            Err(f) => {
                return Err(f.error);
            },
            Ok(v) => v,
        };
        match state.check_eoe(de) {
            Err(e) => {
                return Err(e);
            },
            Ok(()) => {},
        }
        if de.remaining_len() >= before {
            return Err(Error::custom("sequence element consumed no input"));
        }
        proof {
            assert(values_view(items@.push(v)) =~= values_view(items@).push(v@));
        }
        items.push(v);
    }
}

} // verus!
