//! What decoding a shape from an input gives: the mathematical statement of
//! the decoder.

use crate::de::record::{
    begin, check_eoe, choose_source, find_name, next_key, RecordState, SkipTo, Source,
};
use crate::de::tuple::{more_elements, tuple_check_eoe};
use crate::de::{
    lemma_peek_sexpr_identifier, lemma_skip_whitespace, parse_number, parse_string,
    peek_sexpr_identifier, peek_token, skip_whitespace, ErrorView, Scanned, Token,
};
use crate::private::head_names;
use crate::shape::{FieldShape, IntKind, NumberKind, Shape, VariantBody, VariantShape};
use crate::value::{MemberView, ValueView};
use vstd::prelude::*;

verus! {

/// What a decode makes of an input.
pub ghost struct Decoded {
    pub result: Result<ValueView, ErrorView>,
    /// Of a failure: whether the value had been found before the decode
    /// failed. A failure before that may mean that an optional value is
    /// not there.
    pub touched: bool,
    /// The input that is left.
    pub rest: Seq<char>,
}

/// Several values that were decoded one after the other.
pub ghost struct DecodedItems {
    pub result: Result<Seq<ValueView>, ErrorView>,
    pub rest: Seq<char>,
}

pub open spec fn done(value: ValueView, rest: Seq<char>) -> Decoded {
    Decoded { result: Ok(value), touched: true, rest }
}

pub open spec fn failed(error: ErrorView, touched: bool, rest: Seq<char>) -> Decoded {
    Decoded { result: Err(error), touched, rest }
}

/// A flag was found where the shape is no flag.
pub open spec fn msg_flag() -> Seq<char> {
    "invalid type: boolean `true`"@
}

/// Nothing was found where the shape must have a value.
pub open spec fn msg_missing() -> Seq<char> {
    "invalid type: Option value"@
}

/// An expression has fewer elements than its shape.
pub open spec fn msg_length() -> Seq<char> {
    "invalid length"@
}

/// An element of a sequence was decoded from nothing.
pub open spec fn msg_empty_element() -> Seq<char> {
    "sequence element consumed no input"@
}

/// A field without a name was passed over and has no default.
pub open spec fn msg_missing_field() -> Seq<char> {
    "missing field ``"@
}

/// A token is neither a small number nor a text.
pub open spec fn msg_no_literal() -> Seq<char> {
    "data did not match any variant of untagged enum Literal"@
}

/// A number names no variant.
pub open spec fn msg_variant_index() -> Seq<char> {
    "invalid value: variant index out of range"@
}

/// A token cannot name a variant.
pub open spec fn msg_variant_type() -> Seq<char> {
    "invalid type: expected variant identifier"@
}

/// The names from the `from`-th on, each in quotes, with commas between.
pub open spec fn quoted_names(names: Seq<Seq<char>>, from: nat) -> Seq<char>
    decreases names.len() - from,
{
    if from >= names.len() {
        Seq::empty()
    } else if from + 1 == names.len() {
        "\""@ + names[from as int] + "\""@
    } else {
        "\""@ + names[from as int] + "\", "@ + quoted_names(names, from + 1)
    }
}

/// No variant has the name that was found; the names that there are follow.
pub open spec fn msg_unknown_variant(found: Seq<char>, names: Seq<Seq<char>>) -> Seq<char> {
    "unknown variant `"@ + found + "`, expected one of ["@ + quoted_names(names, 0) + "]"@
}

/// No alternative has the name that was found; the names that there are
/// follow.
pub open spec fn msg_unexpected_name(found: Seq<char>, names: Seq<Seq<char>>) -> Seq<char> {
    "invalid value: "@ + found + ", expected any s-expr with a name in ["@ + quoted_names(
        names,
        0,
    ) + "]"@
}

/// The names of the variants.
pub open spec fn variant_names(variants: Seq<VariantShape>) -> Seq<Seq<char>> {
    Seq::new(variants.len(), |i: int| variants[i].name@)
}

/// An optional value that is found by trying: it is there if it can be
/// decoded, and absent if the decode fails before it has found the value.
/// A failure after that stands.
pub open spec fn trial(d: Decoded) -> Decoded {
    match d.result {
        Ok(v) => done(ValueView::Present(Box::new(v)), d.rest),
        Err(e) => if d.touched {
            d
        } else {
            done(ValueView::Absent, d.rest)
        },
    }
}

/// Nothing but whitespace may follow the root expression.
pub open spec fn trailing(d: Decoded, touched: bool) -> Decoded {
    match d.result {
        Ok(v) => if skip_whitespace(d.rest).len() == 0 {
            done(v, skip_whitespace(d.rest))
        } else {
            failed(ErrorView::TrailingTokens, touched, skip_whitespace(d.rest))
        },
        Err(e) => d,
    }
}

/// A scalar is found once it has been read.
pub open spec fn scalar(sc: Scanned<ValueView>) -> Decoded {
    match sc.result {
        Ok(v) => done(v, sc.rest),
        Err(e) => failed(e, false, sc.rest),
    }
}

pub open spec fn text(sc: Scanned<Seq<char>>) -> Decoded {
    match sc.result {
        Ok(t) => done(ValueView::Str(t), sc.rest),
        Err(e) => failed(e, false, sc.rest),
    }
}

/// An expression without fields: `(name)`, with nothing between the name
/// and the closing parenthesis.
pub open spec fn unit_struct(name: Seq<char>, s: Seq<char>) -> Scanned<()> {
    let b = begin(name, s);
    match b.result {
        Err(e) => b,
        Ok(_) => if b.rest.len() == 0 {
            Scanned { result: Err(ErrorView::Eof), rest: b.rest }
        } else if b.rest[0] != ')' {
            Scanned { result: Err(ErrorView::ExpectedEoe), rest: b.rest.skip(1) }
        } else {
            Scanned { result: Ok(()), rest: b.rest.skip(1) }
        },
    }
}

/// An expression stands where no shape says what it is.
pub open spec fn missing_info(s: Seq<char>) -> Decoded {
    match peek_sexpr_identifier(s) {
        Err(e) => failed(e, false, s),
        Ok(head) => failed(ErrorView::MissingSExprInfo(head), false, s),
    }
}

/// What a field is decoded to that has no token of its own: a flag that is
/// set (`flag`), or a field that is passed over.
///
/// A flag is true or false. Whatever the next token is, it is true or
/// absent. A plain optional value is absent where it is passed over. Every
/// other shape fails; under a trial, passing over fails before the value
/// is found.
pub open spec fn decode_synthetic(shape: Shape, flag: bool, wrapped: bool, s: Seq<char>) -> Decoded
    decreases shape,
{
    match shape {
        Shape::Bool => done(ValueView::Bool(flag), s),
        Shape::Trial(inner) => trial(decode_synthetic(*inner, flag, true, s)),
        Shape::Untagged(candidates) => match head_names(candidates@, 0) {
            Err(m) => failed(ErrorView::Message(m), false, s),
            Ok(_) => if flag {
                failed(ErrorView::Message(msg_flag()), true, s)
            } else {
                failed(ErrorView::Message(msg_missing()), !wrapped, s)
            },
        },
        Shape::Any => if flag {
            done(ValueView::Bool(true), s)
        } else if wrapped {
            failed(ErrorView::Message(msg_missing()), false, s)
        } else {
            done(ValueView::Absent, s)
        },
        Shape::Optional(_) => if flag {
            failed(ErrorView::Message(msg_flag()), true, s)
        } else if wrapped {
            failed(ErrorView::Message(msg_missing()), false, s)
        } else {
            done(ValueView::Absent, s)
        },
        Shape::Literal => if !flag && wrapped {
            failed(ErrorView::Message(msg_missing()), false, s)
        } else {
            failed(ErrorView::Message(msg_no_literal()), true, s)
        },
        _ => if flag {
            failed(ErrorView::Message(msg_flag()), true, s)
        } else {
            failed(ErrorView::Message(msg_missing()), !wrapped, s)
        },
    }
}

/// Whether a field without a name that is passed over has a value all the
/// same.
pub open spec fn has_default(shape: Shape) -> bool {
    shape is List || shape is Optional
}

/// The value of a field without a name that is passed over: a sequence is
/// empty, and an optional value is absent.
pub open spec fn default_value(shape: Shape) -> ValueView {
    match shape {
        Shape::List(_) => ValueView::List(Seq::empty()),
        Shape::Optional(_) => ValueView::Absent,
        _ => ValueView::Unit,
    }
}

/// The members that stand for the fields from `from` up to `to`, all of
/// which are passed over.
pub open spec fn default_members(fields: Seq<FieldShape>, from: nat, to: nat) -> Seq<MemberView>
    decreases to - from,
{
    if from >= to {
        Seq::empty()
    } else {
        seq![
            MemberView { name: fields[from as int].name@, value: default_value(fields[from as int].shape) },
        ] + default_members(fields, from + 1, to)
    }
}

/// Whether all fields from `from` up to `to` have a default.
pub open spec fn all_default(fields: Seq<FieldShape>, from: nat, to: nat) -> bool {
    forall|i: int| from <= i < to ==> has_default(#[trigger] fields[i].shape)
}

/// The key is given for a field at or behind the next one.
pub proof fn lemma_next_key(fields: Seq<FieldShape>, state: RecordState)
    ensures
        state.index <= next_key(fields, state).index,
        state.index <= fields.len() ==> next_key(fields, state).index <= fields.len(),
    decreases fields.len() - state.index,
{
    if state.index < fields.len() && fields[state.index as int].name@.len() == 0 && state.skip_to
        != SkipTo::Unset {
        lemma_next_key(
            fields,
            RecordState {
                index: state.index + 1,
                skip_to: if state.skip_to == SkipTo::Field(state.index as usize) {
                    SkipTo::Unset
                } else {
                    state.skip_to
                },
            },
        );
    }
}

/// The start of an expression takes at least two characters.
pub proof fn lemma_begin(name: Seq<char>, s: Seq<char>)
    ensures
        begin(name, s).rest.len() <= s.len(),
        begin(name, s).result is Ok ==> begin(name, s).rest.len() + 2 <= s.len(),
{
    lemma_skip_whitespace(s);
    lemma_peek_sexpr_identifier(skip_whitespace(s));
}

/// Looking for the end of an expression takes nothing back.
pub proof fn lemma_check_eoe(skip_to: SkipTo, end: bool, s: Seq<char>)
    ensures
        check_eoe(skip_to, s).rest.len() <= s.len(),
        tuple_check_eoe(end, s).rest.len() <= s.len(),
        more_elements(s).rest.len() <= s.len(),
{
    lemma_skip_whitespace(s);
}

/// The members of fields that are passed over, one field more.
pub proof fn lemma_default_members(fields: Seq<FieldShape>, from: nat, to: nat)
    requires
        from <= to,
    ensures
        default_members(fields, from, to + 1) == default_members(fields, from, to).push(
            MemberView { name: fields[to as int].name@, value: default_value(fields[to as int].shape) },
        ),
    decreases to - from,
{
    if from < to {
        lemma_default_members(fields, from + 1, to);
        assert(default_members(fields, from, to + 1) =~= default_members(fields, from, to).push(
            MemberView { name: fields[to as int].name@, value: default_value(fields[to as int].shape) },
        ));
    } else {
        assert(default_members(fields, from + 1, to + 1) =~= Seq::<MemberView>::empty());
        assert(default_members(fields, from, to + 1) =~= default_members(fields, from, to).push(
            MemberView { name: fields[to as int].name@, value: default_value(fields[to as int].shape) },
        ));
    }
}

/// The value of a record with the given members, unless a field was passed
/// over that has no default.
pub open spec fn finish_record(
    name: Seq<char>,
    members: Seq<MemberView>,
    complete: bool,
    rest: Seq<char>,
) -> Decoded {
    if complete {
        done(ValueView::Struct(name, members), rest)
    } else {
        failed(ErrorView::Message(msg_missing_field()), true, rest)
    }
}

/// Decodes `shape` as the root of the input.
///
/// Only expressions can stand there: records, and enumerations and
/// alternatives of records. Nothing but whitespace may follow.
pub open spec fn decode_root(shape: Shape, s: Seq<char>) -> Decoded
    decreases shape, s.len(), 1nat,
{
    match shape {
        Shape::UnitStruct(name) => {
            let u = unit_struct(name@, s);
            match u.result {
                Err(e) => failed(e, false, u.rest),
                Ok(_) => trailing(done(ValueView::UnitStruct(name@), u.rest), false),
            }
        },
        Shape::NewtypeStruct(name, inner) => {
            let b = begin(name@, s);
            match b.result {
                Err(e) => failed(e, false, b.rest),
                Ok(_) => trailing(newtype_struct(name@, decode_single(*inner, b.rest)), true),
            }
        },
        Shape::TupleStruct(name, shapes) => {
            let b = begin(name@, s);
            match b.result {
                Err(e) => failed(e, false, b.rest),
                Ok(_) => trailing(
                    tuple_struct(name@, decode_items(shapes@, 0, false, b.rest, Seq::empty())),
                    true,
                ),
            }
        },
        Shape::Struct(name, fields) => {
            let b = begin(name@, s);
            match b.result {
                Err(e) => failed(e, false, b.rest),
                Ok(_) => trailing(
                    decode_members(
                        fields@,
                        0,
                        SkipTo::Unset,
                        b.rest,
                        name@,
                        Seq::empty(),
                        true,
                    ),
                    true,
                ),
            }
        },
        Shape::Enum(variants) => trailing(root_enum(variants@, s), true),
        Shape::Untagged(candidates) => match head_names(candidates@, 0) {
            Err(m) => failed(ErrorView::Message(m), false, s),
            Ok(names) => trailing(root_untagged(candidates@, names, s), true),
        },
        Shape::Trial(inner) => trial(decode_root(*inner, s)),
        _ => failed(ErrorView::ExpectedStruct, false, s),
    }
}

/// An enumeration at the root: the expression's name is a variant's name,
/// and the variant holds the expression.
pub open spec fn root_enum(variants: Seq<VariantShape>, s: Seq<char>) -> Decoded
    decreases variants, s.len(), 0nat,
{
    match peek_sexpr_identifier(s) {
        Err(e) => failed(e, true, s),
        Ok(head) => match find_name(variant_names(variants), head, 0) {
            None => failed(
                ErrorView::Message(msg_unknown_variant(head, variant_names(variants))),
                true,
                s,
            ),
            Some(i) => if i < variants.len() {
                match variants[i as int].body {
                    VariantBody::Newtype(inner) => newtype_variant(
                        variants[i as int].name@,
                        decode_root(*inner, s),
                    ),
                    _ => failed(ErrorView::NonNewtypeEnumVariant, true, s),
                }
            } else {
                failed(ErrorView::NonNewtypeEnumVariant, true, s)
            },
        },
    }
}

/// Alternatives at the root: the expression's name is the name of the
/// first alternative that has it.
pub open spec fn root_untagged(candidates: Seq<Shape>, names: Seq<Seq<char>>, s: Seq<char>) -> Decoded
    decreases candidates, s.len(), 0nat,
{
    match peek_sexpr_identifier(s) {
        Err(e) => failed(e, true, s),
        Ok(head) => match find_name(names, head, 0) {
            Some(i) => if i < candidates.len() {
                untagged(i, decode_root(candidates[i as int], s))
            } else {
                failed(ErrorView::Message(msg_unexpected_name(head, names)), true, s)
            },
            None => failed(ErrorView::Message(msg_unexpected_name(head, names)), true, s),
        },
    }
}

pub open spec fn newtype_variant(name: Seq<char>, d: Decoded) -> Decoded {
    match d.result {
        Ok(v) => done(ValueView::NewtypeVariant(name, Box::new(v)), d.rest),
        Err(e) => failed(e, true, d.rest),
    }
}

pub open spec fn untagged(index: nat, d: Decoded) -> Decoded {
    match d.result {
        Ok(v) => done(ValueView::Untagged(index, Box::new(v)), d.rest),
        Err(e) => failed(e, true, d.rest),
    }
}

pub open spec fn newtype_struct(name: Seq<char>, d: Decoded) -> Decoded {
    match d.result {
        Ok(v) => done(ValueView::NewtypeStruct(name, Box::new(v)), d.rest),
        Err(e) => failed(e, true, d.rest),
    }
}

pub open spec fn tuple_struct(name: Seq<char>, d: DecodedItems) -> Decoded {
    match d.result {
        Ok(items) => done(ValueView::TupleStruct(name, items), d.rest),
        Err(e) => failed(e, true, d.rest),
    }
}

pub open spec fn tuple(d: DecodedItems) -> Decoded {
    match d.result {
        Ok(items) => done(ValueView::Tuple(items), d.rest),
        Err(e) => failed(e, true, d.rest),
    }
}

pub open spec fn list(d: DecodedItems) -> Decoded {
    match d.result {
        Ok(items) => done(ValueView::List(items), d.rest),
        Err(e) => failed(e, true, d.rest),
    }
}

/// A number that fits 16 bits without sign, or a text; nothing else.
pub open spec fn literal(d: Decoded) -> Decoded {
    match d.result {
        Ok(ValueView::UInt(n)) => if n <= 0xffff {
            d
        } else {
            failed(ErrorView::Message(msg_no_literal()), true, d.rest)
        },
        Ok(ValueView::Int(n)) => if 0 <= n <= 0xffff {
            done(ValueView::UInt(n as u128), d.rest)
        } else {
            failed(ErrorView::Message(msg_no_literal()), true, d.rest)
        },
        Ok(ValueView::Str(_)) => d,
        Ok(_) => failed(ErrorView::Message(msg_no_literal()), true, d.rest),
        Err(_) => d,
    }
}

/// Decodes `shape` from the next token, as the value of a field named
/// `ident` or, with no `ident`, as an unnamed element.
pub open spec fn decode_field(shape: Shape, ident: Option<Seq<char>>, s: Seq<char>) -> Decoded
    decreases shape, s.len(), 1nat,
{
    match shape {
        Shape::Bool => match ident {
            None => failed(ErrorView::UnnamedBoolean, true, s),
            Some(_) => done(ValueView::Bool(false), s),
        },
        Shape::Int(kind) => scalar(parse_number(s, NumberKind::Int(kind))),
        Shape::Float => scalar(parse_number(s, NumberKind::Float)),
        Shape::Str => text(parse_string(s)),
        Shape::Unit => match ident {
            None => missing_info(s),
            Some(name) => {
                let u = unit_struct(name, s);
                match u.result {
                    Err(e) => failed(e, false, u.rest),
                    Ok(_) => done(ValueView::Unit, u.rest),
                }
            },
        },
        Shape::Optional(_) => failed(ErrorView::UnsupportedOptionHere, false, s),
        Shape::Trial(inner) => trial(decode_field(*inner, ident, s)),
        Shape::UnitStruct(name) => {
            let u = unit_struct(name@, s);
            match u.result {
                Err(e) => failed(e, false, u.rest),
                Ok(_) => done(ValueView::UnitStruct(name@), u.rest),
            }
        },
        Shape::NewtypeStruct(name, inner) => {
            let b = begin(name@, s);
            match b.result {
                Err(e) => failed(e, false, b.rest),
                Ok(_) => newtype_struct(name@, decode_single(*inner, b.rest)),
            }
        },
        Shape::TupleStruct(name, shapes) => {
            let b = begin(name@, s);
            match b.result {
                Err(e) => failed(e, false, b.rest),
                Ok(_) => tuple_struct(
                    name@,
                    decode_items(shapes@, 0, false, b.rest, Seq::empty()),
                ),
            }
        },
        Shape::Struct(name, fields) => {
            let b = begin(name@, s);
            match b.result {
                Err(e) => failed(e, false, b.rest),
                Ok(_) => decode_members(
                    fields@,
                    0,
                    SkipTo::Unset,
                    b.rest,
                    name@,
                    Seq::empty(),
                    true,
                ),
            }
        },
        Shape::List(inner) => match ident {
            None => missing_info(s),
            Some(name) => if name.len() == 0 {
                list(decode_rest_elements(*inner, s, Seq::empty()))
            } else {
                let b = begin(name, s);
                match b.result {
                    Err(e) => failed(e, false, b.rest),
                    Ok(_) => list(decode_elements(*inner, false, b.rest, Seq::empty())),
                }
            },
        },
        Shape::Tuple(shapes) => match ident {
            None => missing_info(s),
            Some(name) => if name.len() == 0 {
                tuple(decode_rest_items(shapes@, 0, s, Seq::empty()))
            } else {
                let b = begin(name, s);
                match b.result {
                    Err(e) => failed(e, false, b.rest),
                    Ok(_) => tuple(decode_items(shapes@, 0, false, b.rest, Seq::empty())),
                }
            },
        },
        Shape::Enum(variants) => field_enum(variants@, s),
        Shape::Untagged(candidates) => match head_names(candidates@, 0) {
            Err(m) => failed(ErrorView::Message(m), false, s),
            Ok(names) => field_untagged(candidates@, names, s),
        },
        Shape::Any => decode_any(ident, s),
        Shape::Literal => literal(decode_any(ident, s)),
    }
}

/// Whatever the next token is: a number, a text, or the expression that
/// the field is named after, as a sequence of whatever its tokens are.
pub open spec fn decode_any(ident: Option<Seq<char>>, s: Seq<char>) -> Decoded
    decreases s.len(), 0nat,
{
    match peek_token(s) {
        Err(e) => failed(e, false, s),
        Ok(Token::Int) => if s[0] == '-' {
            scalar(parse_number(s, NumberKind::Int(IntKind::I64)))
        } else {
            scalar(parse_number(s, NumberKind::Int(IntKind::U64)))
        },
        Ok(Token::Float) => scalar(parse_number(s, NumberKind::Float)),
        Ok(Token::Str) => text(parse_string(s)),
        Ok(Token::SExpr) => match peek_sexpr_identifier(s) {
            Err(e) => failed(e, false, s),
            Ok(head) => if ident == Some(head) {
                let b = begin(head, s);
                match b.result {
                    Err(e) => failed(e, false, b.rest),
                    Ok(_) => {
                        proof {
                            lemma_begin(head, s);
                        }
                        list(any_elements(false, b.rest, Seq::empty()))
                    },
                }
            } else {
                failed(ErrorView::MissingSExprInfo(head), false, s)
            },
        },
    }
}

/// The elements of an expression of whatever its tokens are, up to its
/// closing parenthesis, which is read; `acc` holds those before.
pub open spec fn any_elements(end: bool, s: Seq<char>, acc: Seq<ValueView>) -> DecodedItems
    decreases s.len(), 1nat,
{
    let first = tuple_check_eoe(end, s);
    match first.result {
        Err(e) => DecodedItems { result: Err(e), rest: first.rest },
        Ok(ended) => if ended {
            DecodedItems { result: Ok(acc), rest: first.rest }
        } else {
            proof {
                lemma_skip_whitespace(s);
            }
            let d = decode_any(None, first.rest);
            match d.result {
                Err(e) => DecodedItems { result: Err(e), rest: d.rest },
                Ok(v) => {
                    let last = tuple_check_eoe(false, d.rest);
                    match last.result {
                        Err(e) => DecodedItems { result: Err(e), rest: last.rest },
                        Ok(ended) => if last.rest.len() < s.len() {
                            any_elements(ended, last.rest, acc.push(v))
                        } else {
                            DecodedItems {
                                result: Err(ErrorView::Message(msg_empty_element())),
                                rest: last.rest,
                            }
                        },
                    }
                },
            }
        },
    }
}

/// The one element of an expression.
pub open spec fn decode_single(shape: Shape, s: Seq<char>) -> Decoded
    decreases shape, s.len(), 2nat,
{
    let first = tuple_check_eoe(false, s);
    match first.result {
        Err(e) => failed(e, true, first.rest),
        Ok(end) => if end {
            failed(ErrorView::Message(msg_length()), true, first.rest)
        } else {
            proof {
                lemma_skip_whitespace(s);
            }
            let d = decode_field(shape, None, first.rest);
            match d.result {
                Err(e) => failed(e, true, d.rest),
                Ok(v) => {
                    let last = tuple_check_eoe(false, d.rest);
                    match last.result {
                        Err(e) => failed(e, true, last.rest),
                        Ok(_) => done(v, last.rest),
                    }
                },
            }
        },
    }
}

/// The elements of an expression that has as many as `shapes`, from the
/// `i`-th on; `acc` holds those before.
pub open spec fn decode_items(
    shapes: Seq<Shape>,
    i: nat,
    end: bool,
    s: Seq<char>,
    acc: Seq<ValueView>,
) -> DecodedItems
    decreases shapes, shapes.len() - i, 0nat,
{
    if i >= shapes.len() {
        DecodedItems { result: Ok(acc), rest: s }
    } else {
        let first = tuple_check_eoe(end, s);
        match first.result {
            Err(e) => DecodedItems { result: Err(e), rest: first.rest },
            Ok(ended) => if ended {
                DecodedItems { result: Err(ErrorView::Message(msg_length())), rest: first.rest }
            } else {
                let d = decode_field(shapes[i as int], None, first.rest);
                match d.result {
                    Err(e) => DecodedItems { result: Err(e), rest: d.rest },
                    Ok(v) => {
                        let last = tuple_check_eoe(false, d.rest);
                        match last.result {
                            Err(e) => DecodedItems { result: Err(e), rest: last.rest },
                            Ok(ended) => decode_items(shapes, i + 1, ended, last.rest, acc.push(v)),
                        }
                    },
                }
            },
        }
    }
}

/// The elements of an expression that has any number of them, up to its
/// closing parenthesis, which is read; `acc` holds those before. An
/// element that is decoded from nothing ends the decode.
pub open spec fn decode_elements(shape: Shape, end: bool, s: Seq<char>, acc: Seq<ValueView>) -> DecodedItems
    decreases shape, s.len(), 2nat,
{
    let first = tuple_check_eoe(end, s);
    match first.result {
        Err(e) => DecodedItems { result: Err(e), rest: first.rest },
        Ok(ended) => if ended {
            DecodedItems { result: Ok(acc), rest: first.rest }
        } else {
            proof {
                lemma_skip_whitespace(s);
            }
            let d = decode_field(shape, None, first.rest);
            match d.result {
                Err(e) => DecodedItems { result: Err(e), rest: d.rest },
                Ok(v) => {
                    let last = tuple_check_eoe(false, d.rest);
                    match last.result {
                        Err(e) => DecodedItems { result: Err(e), rest: last.rest },
                        Ok(ended) => if last.rest.len() < s.len() {
                            decode_elements(shape, ended, last.rest, acc.push(v))
                        } else {
                            DecodedItems {
                                result: Err(ErrorView::Message(msg_empty_element())),
                                rest: last.rest,
                            }
                        },
                    }
                },
            }
        },
    }
}

/// The elements that are left of the enclosing expression, up to its
/// closing parenthesis, which stays in the input; `acc` holds those
/// before. An element that is decoded from nothing ends the decode.
pub open spec fn decode_rest_elements(shape: Shape, s: Seq<char>, acc: Seq<ValueView>) -> DecodedItems
    decreases shape, s.len(), 2nat,
{
    let more = more_elements(s);
    match more.result {
        Err(e) => DecodedItems { result: Err(e), rest: more.rest },
        Ok(some) => if !some {
            DecodedItems { result: Ok(acc), rest: more.rest }
        } else {
            proof {
                lemma_skip_whitespace(s);
            }
            let d = decode_field(shape, None, more.rest);
            match d.result {
                Err(e) => DecodedItems { result: Err(e), rest: d.rest },
                Ok(v) => if d.rest.len() < s.len() {
                    decode_rest_elements(shape, d.rest, acc.push(v))
                } else {
                    DecodedItems {
                        result: Err(ErrorView::Message(msg_empty_element())),
                        rest: d.rest,
                    }
                },
            }
        },
    }
}

/// As many elements as `shapes` of those that are left of the enclosing
/// expression, from the `i`-th on; `acc` holds those before.
pub open spec fn decode_rest_items(shapes: Seq<Shape>, i: nat, s: Seq<char>, acc: Seq<ValueView>) -> DecodedItems
    decreases shapes, shapes.len() - i, 0nat,
{
    if i >= shapes.len() {
        DecodedItems { result: Ok(acc), rest: s }
    } else {
        let more = more_elements(s);
        match more.result {
            Err(e) => DecodedItems { result: Err(e), rest: more.rest },
            Ok(some) => if !some {
                DecodedItems { result: Err(ErrorView::Message(msg_length())), rest: more.rest }
            } else {
                let d = decode_field(shapes[i as int], None, more.rest);
                match d.result {
                    Err(e) => DecodedItems { result: Err(e), rest: d.rest },
                    Ok(v) => decode_rest_items(shapes, i + 1, d.rest, acc.push(v)),
                }
            },
        }
    }
}

/// What a field is decoded to, given where its value comes from.
pub open spec fn decode_from(source: Source, field: FieldShape, s: Seq<char>) -> Decoded
    decreases field, s.len(), 2nat,
{
    match source {
        Source::Flag => decode_synthetic(field.shape, true, false, s),
        Source::Missing => decode_synthetic(field.shape, false, false, s),
        Source::Field => decode_field(field.shape, Some(field.name@), s),
    }
}

/// The fields of a record from the `index`-th on; `members` holds those
/// before, and `complete` says that none of them lacks a value.
///
/// Before and after each field the end of the record is looked for. Fields
/// without a name that are passed over get their default.
pub open spec fn decode_members(
    fields: Seq<FieldShape>,
    index: nat,
    skip_to: SkipTo,
    s: Seq<char>,
    name: Seq<char>,
    members: Seq<MemberView>,
    complete: bool,
) -> Decoded
    decreases fields, fields.len() - index, 0nat,
{
    let first = check_eoe(skip_to, s);
    match first.result {
        Err(e) => failed(e, true, first.rest),
        Ok(skip) => {
            let key = next_key(fields, RecordState { index, skip_to: skip });
            let members = members + default_members(fields, index, key.index);
            let complete = complete && all_default(fields, index, key.index);
            if key.index >= fields.len() || key.index < index {
                finish_record(name, members, complete, first.rest)
            } else {
                let chosen = choose_source(fields, key.index, key.skip_to, first.rest);
                let d = decode_from(chosen.source, fields[key.index as int], chosen.rest);
                match d.result {
                    Err(e) => failed(e, true, d.rest),
                    Ok(v) => {
                        let last = check_eoe(chosen.skip_to, d.rest);
                        match last.result {
                            Err(e) => failed(e, true, last.rest),
                            Ok(skip) => decode_members(
                                fields,
                                key.index + 1,
                                skip,
                                last.rest,
                                name,
                                members.push(
                                    MemberView { name: fields[key.index as int].name@, value: v },
                                ),
                                complete,
                            ),
                        }
                    },
                }
            }
        },
    }
}

/// The variant that an atom names: a text names the variant of that name,
/// and a number without sign the variant of that index.
pub open spec fn variant_key(variants: Seq<VariantShape>, token: Token, s: Seq<char>) -> Scanned<nat> {
    match token {
        Token::Int => if s[0] == '-' {
            let n = parse_number(s, NumberKind::Int(IntKind::I64));
            match n.result {
                Err(e) => Scanned { result: Err(e), rest: n.rest },
                Ok(_) => Scanned { result: Err(ErrorView::Message(msg_variant_type())), rest: n.rest },
            }
        } else {
            let n = parse_number(s, NumberKind::Int(IntKind::U64));
            match n.result {
                Err(e) => Scanned { result: Err(e), rest: n.rest },
                Ok(ValueView::UInt(v)) => if v < variants.len() {
                    Scanned { result: Ok(v as nat), rest: n.rest }
                } else {
                    Scanned {
                        result: Err(ErrorView::Message(msg_variant_index())),
                        rest: n.rest,
                    }
                },
                Ok(_) => Scanned { result: Err(ErrorView::Message(msg_variant_type())), rest: n.rest },
            }
        },
        Token::Float => {
            let n = parse_number(s, NumberKind::Float);
            match n.result {
                Err(e) => Scanned { result: Err(e), rest: n.rest },
                Ok(_) => Scanned { result: Err(ErrorView::Message(msg_variant_type())), rest: n.rest },
            }
        },
        _ => {
            let t = parse_string(s);
            match t.result {
                Err(e) => Scanned { result: Err(e), rest: t.rest },
                Ok(name) => match find_name(variant_names(variants), name, 0) {
                    Some(i) => Scanned { result: Ok(i), rest: t.rest },
                    None => Scanned {
                        result: Err(
                            ErrorView::Message(msg_unknown_variant(name, variant_names(variants))),
                        ),
                        rest: t.rest,
                    },
                },
            }
        },
    }
}

/// An enumeration in a field: an expression is a variant that holds it,
/// and is named like it; an atom names a variant that holds nothing.
pub open spec fn field_enum(variants: Seq<VariantShape>, s: Seq<char>) -> Decoded
    decreases variants, s.len(), 0nat,
{
    match peek_token(s) {
        Err(e) => failed(e, true, s),
        Ok(Token::SExpr) => match peek_sexpr_identifier(s) {
            Err(e) => failed(e, true, s),
            Ok(head) => match find_name(variant_names(variants), head, 0) {
                None => failed(
                    ErrorView::Message(msg_unknown_variant(head, variant_names(variants))),
                    true,
                    s,
                ),
                Some(i) => if i < variants.len() {
                    match variants[i as int].body {
                        VariantBody::Newtype(inner) => newtype_variant(
                            variants[i as int].name@,
                            decode_field(*inner, None, s),
                        ),
                        _ => failed(ErrorView::NonNewtypeEnumVariant, true, s),
                    }
                } else {
                    failed(ErrorView::NonNewtypeEnumVariant, true, s)
                },
            },
        },
        Ok(token) => {
            let key = variant_key(variants, token, s);
            match key.result {
                Err(e) => failed(e, true, key.rest),
                Ok(i) => match variants[i as int].body {
                    VariantBody::Unit => done(
                        ValueView::UnitVariant(variants[i as int].name@),
                        key.rest,
                    ),
                    _ => failed(ErrorView::NonUnitEnumVariant, true, key.rest),
                },
            }
        },
    }
}

/// Alternatives in a field: an expression is the first alternative that
/// has its name. An atom is none of them, whatever it names.
pub open spec fn field_untagged(candidates: Seq<Shape>, names: Seq<Seq<char>>, s: Seq<char>) -> Decoded
    decreases candidates, s.len(), 0nat,
{
    match peek_token(s) {
        Err(e) => failed(e, true, s),
        Ok(Token::SExpr) => match peek_sexpr_identifier(s) {
            Err(e) => failed(e, true, s),
            Ok(head) => match find_name(names, head, 0) {
                Some(i) => if i < candidates.len() {
                    untagged(i, decode_field(candidates[i as int], None, s))
                } else {
                    failed(ErrorView::Message(msg_unexpected_name(head, names)), true, s)
                },
                None => failed(ErrorView::Message(msg_unexpected_name(head, names)), true, s),
            },
        },
        Ok(_) => {
            let key = parse_string(s);
            match key.result {
                Err(e) => failed(e, true, key.rest),
                Ok(name) => match find_name(names, name, 0) {
                    Some(_) => failed(ErrorView::NonUnitEnumVariant, true, key.rest),
                    None => failed(
                        ErrorView::Message(msg_unexpected_name(name, names)),
                        true,
                        key.rest,
                    ),
                },
            }
        },
    }
}

/// Nothing is left behind a root that was decoded: what follows the root
/// expression, but for whitespace, fails the decode with `TrailingTokens`.
/// Only an optional root that is absent leaves the input as it is.
pub proof fn lemma_root_leaves_nothing(shape: Shape, s: Seq<char>)
    requires
        !(shape is Trial),
    ensures
        decode_root(shape, s).result is Ok ==> decode_root(shape, s).rest.len() == 0,
{
}

/// Among alternatives, an expression whose name is none of theirs is
/// refused, at the root and in a field, with a message that gives the name
/// that was found and the names that there are.
pub proof fn lemma_unknown_name(candidates: Seq<Shape>, s: Seq<char>)
    requires
        head_names(candidates, 0) is Ok,
        peek_sexpr_identifier(s) is Ok,
        find_name(head_names(candidates, 0)->Ok_0, peek_sexpr_identifier(s)->Ok_0, 0) is None,
    ensures
        root_untagged(candidates, head_names(candidates, 0)->Ok_0, s).result == Err::<
            ValueView,
            ErrorView,
        >(
            ErrorView::Message(
                msg_unexpected_name(
                    peek_sexpr_identifier(s)->Ok_0,
                    head_names(candidates, 0)->Ok_0,
                ),
            ),
        ),
        peek_token(s) == Ok::<Token, ErrorView>(Token::SExpr) ==> field_untagged(
            candidates,
            head_names(candidates, 0)->Ok_0,
            s,
        ).result == Err::<ValueView, ErrorView>(
            ErrorView::Message(
                msg_unexpected_name(
                    peek_sexpr_identifier(s)->Ok_0,
                    head_names(candidates, 0)->Ok_0,
                ),
            ),
        ),
{
}

/// Among alternatives, an expression is decoded as the first alternative
/// that has its name, and as no other.
pub proof fn lemma_dispatch(candidates: Seq<Shape>, s: Seq<char>, k: nat)
    requires
        head_names(candidates, 0) is Ok,
        peek_sexpr_identifier(s) is Ok,
        find_name(head_names(candidates, 0)->Ok_0, peek_sexpr_identifier(s)->Ok_0, 0) == Some(k),
    ensures
        k < candidates.len(),
        crate::private::head_name(candidates[k as int]) == Ok::<Seq<char>, Seq<char>>(
            peek_sexpr_identifier(s)->Ok_0,
        ),
        root_untagged(candidates, head_names(candidates, 0)->Ok_0, s) == untagged(
            k,
            decode_root(candidates[k as int], s),
        ),
{
    let names = head_names(candidates, 0)->Ok_0;
    crate::private::lemma_head_names(candidates, 0);
    crate::de::record::lemma_find_name(names, peek_sexpr_identifier(s)->Ok_0, 0);
    assert(candidates[0 + k as int] == candidates[k as int]);
}

} // verus!
