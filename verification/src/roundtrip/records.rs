//! Records that are decoded to what was encoded.

use crate::de::grammar::{
    decode_elements, decode_field, decode_items, decode_members, decode_rest_elements,
    decode_root, decode_single, default_members, done, unit_struct, Decoded, DecodedItems,
};
use crate::de::number::is_float_text;
use crate::de::record::{
    begin, check_eoe, choose_source, field_names, find_name, next_key, RecordState, SkipTo, Source,
};
use crate::de::tuple::{more_elements, tuple_check_eoe};
use crate::de::{
    lemma_skip_whitespace, parse_string, peek_identifier,
    peek_sexpr_identifier, skip_whitespace, ErrorView, Scanned,
};
use crate::roundtrip::{
    all_in, ends_token, lemma_float_round_trip, lemma_integer_round_trip, lemma_run_of_token,
    lemma_skip_separator, lemma_string_round_trip,
};
use crate::ser::grammar::{encode_field, encode_items, encode_members, encode_root};
use crate::ser::{begin_text, decimal_text, indentation, str_text};
use crate::shape::{FieldShape, Shape};
use crate::text::{
    in_class, is_ascii_whitespace, is_identifier_char, lemma_run_len_bounds, lemma_run_len_is,
    run_len, CharClass,
};
use crate::value::{MemberView, ValueView};
use vstd::prelude::*;

verus! {

/// Whether `n` can name an expression: letters and underscores, at least
/// one.
pub open spec fn is_name(n: Seq<char>) -> bool {
    n.len() > 0 && all_in(n, CharClass::Identifier)
}

/// Whether a token would be taken for the name of a field from the
/// `from`-th on, and so for a flag.
pub open spec fn captured(token: Seq<char>, fields: Seq<FieldShape>, from: nat) -> bool {
    peek_identifier(token) is Some && find_name(
        field_names(fields),
        peek_identifier(token)->0,
        from,
    ) is Some
}

/// Whether a value of the shape is written as a token that may begin with
/// letters: a text, a floating-point number, or the tag of a variant.
pub open spec fn has_token(s: Shape) -> bool {
    s is Str || s is Float || s is Enum
}

/// Whether a value of the shape is written as one token.
pub open spec fn is_atom(s: Shape) -> bool {
    s is Int || has_token(s)
}

/// The token that a text, a floating-point number or the tag of a variant
/// is written as.
pub open spec fn token_of(v: ValueView) -> Seq<char> {
    match v {
        ValueView::Str(t) => str_text(t, false).skip(1),
        ValueView::Float(t) => t,
        ValueView::UnitVariant(n) => str_text(n, true).skip(1),
        _ => Seq::empty(),
    }
}

/// The name of the expression that a value is written as, if it is
/// written as one.
pub open spec fn value_head(v: ValueView) -> Option<Seq<char>>
    decreases v,
{
    match v {
        ValueView::UnitStruct(n) => Some(n),
        ValueView::NewtypeStruct(n, _) => Some(n),
        ValueView::TupleStruct(n, _) => Some(n),
        ValueView::Struct(n, _) => Some(n),
        ValueView::Present(b) => value_head(*b),
        ValueView::Untagged(_, b) => value_head(*b),
        _ => None,
    }
}

/// The values of which the round trip is stated, by their shape: numbers
/// within the range of their type, floating-point numbers, texts,
/// variants without content, and records of these whose names are names;
/// also a record that is the first of several alternatives with its name. A record with unnamed fields
/// has at least one. The fields of a record with named fields have
/// different names; besides plain values they hold flags, literals,
/// optional values and sequences, see [`plain_member`], [`absent_ok`] and
/// [`literal_ok`].
pub open spec fn plain(v: ValueView, s: Shape) -> bool
    decreases v, 0nat,
{
    match s {
        Shape::Int(k) => if k.signed() {
            v is Int && k.min() <= v->Int_0 <= k.max()
        } else {
            v is UInt && v->UInt_0 <= k.max()
        },
        Shape::Float => v is Float && is_float_text(v->Float_0),
        Shape::Str => v is Str,
        Shape::Enum(variants) => v is UnitVariant && find_name(
            crate::de::grammar::variant_names(variants@),
            v->UnitVariant_0,
            0,
        ) is Some && variants@[find_name(
            crate::de::grammar::variant_names(variants@),
            v->UnitVariant_0,
            0,
        )->0 as int].body is Unit,
        Shape::Untagged(candidates) => v is Untagged && v->Untagged_0 < candidates@.len()
            && is_record(candidates@[v->Untagged_0 as int]) && crate::private::head_names(
            candidates@,
            0,
        ) is Ok && find_name(
            crate::private::head_names(candidates@, 0)->Ok_0,
            record_name(candidates@[v->Untagged_0 as int]),
            0,
        ) == Some(v->Untagged_0) && plain(*v->Untagged_1, candidates@[v->Untagged_0 as int]),
        Shape::UnitStruct(n) => is_name(n@) && v == ValueView::UnitStruct(n@),
        Shape::NewtypeStruct(n, inner) => is_name(n@) && v is NewtypeStruct && v->NewtypeStruct_0
            == n@ && plain(*v->NewtypeStruct_1, *inner),
        Shape::TupleStruct(n, shapes) => is_name(n@) && v is TupleStruct && v->TupleStruct_0 == n@
            && shapes@.len() > 0 && plain_items(v->TupleStruct_1, shapes@),
        Shape::Struct(n, fields) => is_name(n@) && v is Struct && v->Struct_0 == n@
            && v->Struct_1.len() == fields@.len() && distinct_names(fields@) && (forall|i: int|
            0 <= i < v->Struct_1.len() ==> plain_member(#[trigger] v->Struct_1[i], fields@, i as nat))
            && (forall|i: int|
            0 <= i < v->Struct_1.len() ==> #[trigger] absent_ok(v->Struct_1, fields@, i as nat))
            && forall|i: int|
            0 <= i < v->Struct_1.len() ==> #[trigger] literal_ok(v->Struct_1, fields@, i as nat),
        _ => false,
    }
}

/// Values that are plain each by the shape of its place.
pub open spec fn plain_items(items: Seq<ValueView>, shapes: Seq<Shape>) -> bool
    decreases items, 1nat,
{
    items.len() == shapes.len() && forall|i: int|
        0 <= i < items.len() ==> plain(#[trigger] items[i], shapes[i])
}

/// Values that are all plain by one shape.
pub open spec fn plain_elements(items: Seq<ValueView>, shape: Shape) -> bool
    decreases items, 1nat,
{
    forall|i: int| 0 <= i < items.len() ==> plain(#[trigger] items[i], shape)
}

/// Whether a member is written as nothing at all: a sequence without
/// elements in a field without a name.
pub open spec fn is_blank(m: MemberView) -> bool {
    m.name.len() == 0 && m.value is List && m.value->List_0.len() == 0
}

/// Whether nothing is written for a member: a flag that is not set, an
/// optional value that is absent, or a blank sequence.
pub open spec fn is_silent(m: MemberView) -> bool {
    m.value == ValueView::Bool(false) || m.value is Absent || is_blank(m)
}

/// Whether a member is a flag that is set.
pub open spec fn is_flag(m: MemberView) -> bool {
    m.value == ValueView::Bool(true)
}

/// The token that what is written for a member begins with, where that is
/// a text or a floating-point number.
pub open spec fn member_token(m: MemberView) -> Seq<char> {
    match m.value {
        ValueView::Present(b) => token_of(*b),
        ValueView::List(items) => if m.name.len() == 0 && items.len() > 0 {
            token_of(items[0])
        } else {
            Seq::empty()
        },
        v => token_of(v),
    }
}

/// The name of the expression that what is written for a member begins
/// with, if it begins with one.
pub open spec fn member_head(m: MemberView) -> Option<Seq<char>> {
    match m.value {
        ValueView::List(items) => if m.name.len() > 0 {
            Some(m.name)
        } else if items.len() > 0 {
            value_head(items[0])
        } else {
            None
        },
        ValueView::Tuple(_) => Some(m.name),
        v => value_head(v),
    }
}

/// Whether a shape is a number, a text, a tag, or a record or one of
/// several records.
pub open spec fn is_solid(s: Shape) -> bool {
    is_atom(s) || is_record(s) || s is Untagged
}

/// The name of a record's expression.
pub open spec fn record_name(s: Shape) -> Seq<char> {
    match s {
        Shape::UnitStruct(n) => n@,
        Shape::NewtypeStruct(n, _) => n@,
        Shape::TupleStruct(n, _) => n@,
        Shape::Struct(n, _) => n@,
        _ => Seq::empty(),
    }
}

/// No two fields have the same name.
pub open spec fn distinct_names(fields: Seq<FieldShape>) -> bool {
    forall|a: int, b: int|
        0 <= a < b < fields.len() ==> (#[trigger] fields[a]).name@ != (#[trigger] fields[b]).name@
}

/// Nothing is written for the members from the `i`-th on.
pub open spec fn all_silent(members: Seq<MemberView>, i: nat) -> bool {
    forall|k: int| i <= k < members.len() ==> is_silent(#[trigger] members[k])
}

/// Where the `i`-th member is an optional value that is absent, the
/// decoder finds it absent: nothing is written behind it in its record;
/// or it is a record, and nothing behind it begins with an expression of
/// that record's name.
pub open spec fn absent_ok(members: Seq<MemberView>, fields: Seq<FieldShape>, i: nat) -> bool {
    members[i as int].value is Absent ==> all_silent(members, i + 1) || (fields[i as int].shape is Trial
        && is_record(*fields[i as int].shape->Trial_0) && forall|k: int|
        i < k < members.len() ==> member_head(#[trigger] members[k]) != Some(
            record_name(*fields[i as int].shape->Trial_0),
        ))
}

/// Whether a value is a literal: a number that fits 16 bits without sign,
/// or a text.
pub open spec fn is_literal(v: ValueView) -> bool {
    (v is UInt && v->UInt_0 <= 0xffff) || v is Str
}

/// Whether a text holds anything but digits, `.` and `-`.
pub open spec fn has_other_than_numeric(t: Seq<char>) -> bool {
    exists|i: int| 0 <= i < t.len() && !in_class(CharClass::Numeric, #[trigger] t[i])
}

/// Whether a literal is read back as what it is before `next`: a number
/// before whitespace; a text that is written with digits, `.` and `-`
/// only, and without quotes, before a closing parenthesis.
pub open spec fn literal_fits(v: ValueView, next: Seq<char>) -> bool {
    next.len() > 0 && match v {
        ValueView::UInt(_) => is_ascii_whitespace(next[0]),
        ValueView::Str(t) => crate::ser::needs_quotes(t, false) || has_other_than_numeric(t)
            || next[0] == ')',
        _ => true,
    }
}

/// Where the `i`-th member is a literal, it is read back as what it is: a
/// number has something written behind it in its record; a text that is
/// written with digits, `.` and `-` only, and without quotes, has nothing.
pub open spec fn literal_ok(members: Seq<MemberView>, fields: Seq<FieldShape>, i: nat) -> bool {
    fields[i as int].shape is Literal ==> match members[i as int].value {
        ValueView::UInt(_) => !all_silent(members, i + 1),
        ValueView::Str(t) => crate::ser::needs_quotes(t, false) || has_other_than_numeric(t)
            || all_silent(members, i + 1),
        _ => true,
    }
}

/// A member that is plain by the field of its place: it has the field's
/// name, and what is written for it does not begin with what would be
/// taken for the name of a field of its record.
///
/// A flag has a name. A literal is a small number or a text. An optional
/// value is one of a number, a text or a record, in a field with a name;
/// it is absent, or it is there and plain.
/// A sequence holds plain values, and is named by a name or, as the last
/// field, by none; one of fixed length has a name and at least one value.
/// Any other value is plain by the field's shape.
pub open spec fn plain_member(m: MemberView, fields: Seq<FieldShape>, i: nat) -> bool
    decreases m, 2nat,
{
    i < fields.len() && m.name == fields[i as int].name@ && !captured(member_token(m), fields, 0)
        && match fields[i as int].shape {
        Shape::List(inner) => m.value is List && plain_elements(m.value->List_0, *inner) && if m.name.len()
            == 0 {
            i + 1 == fields.len()
        } else {
            is_name(m.name)
        },
        Shape::Tuple(shapes) => m.value is Tuple && is_name(m.name) && shapes@.len() > 0
            && plain_items(m.value->Tuple_0, shapes@),
        Shape::Bool => m.value is Bool && is_name(m.name),
        Shape::Literal => is_literal(m.value),
        Shape::Trial(inner) => m.name.len() > 0 && is_solid(*inner) && (m.value is Absent || (
        m.value is Present && plain(*m.value->Present_0, *inner))),
        shape => plain(m.value, shape),
    }
}

/// The value was decoded, and what is left is `tail`, but for whitespace
/// that it began with.
pub open spec fn decodes_to(d: Decoded, v: ValueView, tail: Seq<char>) -> bool {
    d.result == Ok::<ValueView, ErrorView>(v) && skip_whitespace(d.rest) == skip_whitespace(tail)
        && d.rest.len() <= tail.len()
}

/// Indentation is whitespace.
pub proof fn lemma_indentation(lvl: nat)
    ensures
        all_in(indentation(lvl), CharClass::Whitespace),
        indentation(lvl).len() == 2 * lvl,
    decreases lvl,
{
    if lvl > 0 {
        lemma_indentation((lvl - 1) as nat);
        let inner = indentation((lvl - 1) as nat);
        assert forall|i: int| 0 <= i < indentation(lvl).len() implies in_class(
            CharClass::Whitespace,
            #[trigger] indentation(lvl)[i],
        ) by {
            if i < inner.len() {
                assert(indentation(lvl)[i] == inner[i]);
            }
        }
    }
}

/// What skipping whitespace leaves of a started expression is the
/// parenthesis, the name and what follows; and that is read as the start
/// of the expression.
pub proof fn lemma_begin_text(name: Seq<char>, pretty: bool, lvl: nat, rest: Seq<char>)
    requires
        is_name(name),
        rest.len() > 0,
        !is_identifier_char(rest[0]),
    ensures
        skip_whitespace(begin_text(name, pretty, lvl) + rest) == seq!['('] + name + rest,
        begin(name, seq!['('] + name + rest) == (Scanned { result: Ok(()), rest }),
        peek_sexpr_identifier(seq!['('] + name + rest) == Ok::<Seq<char>, ErrorView>(name),
        lvl > 0 ==> is_ascii_whitespace(begin_text(name, pretty, lvl)[0]),
        begin_text(name, pretty, lvl).len() > 0,
{
    let lead: Seq<char> = if lvl == 0 {
        Seq::empty()
    } else if pretty {
        seq!['\n'] + indentation(lvl)
    } else {
        seq![' ']
    };
    lemma_indentation(lvl);
    assert(all_in(lead, CharClass::Whitespace)) by {
        assert forall|i: int| 0 <= i < lead.len() implies in_class(
            CharClass::Whitespace,
            #[trigger] lead[i],
        ) by {
            if lvl > 0 && pretty && i > 0 {
                assert(lead[i] == indentation(lvl)[i - 1]);
            }
        }
    }
    let body = seq!['('] + name + rest;
    assert(begin_text(name, pretty, lvl) + rest =~= lead + body);
    assert(body[0] == '(');
    lemma_skip_separator(lead, body);
    lemma_skip_separator(Seq::empty(), body);
    assert(Seq::<char>::empty() + body =~= body);
    assert(body.skip(1) =~= name + rest);
    lemma_run_of_token(name, rest, CharClass::Identifier);
    assert(peek_identifier(name + rest) == Some(name));
    assert(peek_sexpr_identifier(body) == Ok::<Seq<char>, ErrorView>(name));
    assert(body.skip(1 + name.len() as int) =~= rest);
    if lvl > 0 {
        assert(begin_text(name, pretty, lvl)[0] == lead[0]);
    }
}

/// Something that begins with a closing parenthesis has no whitespace to
/// skip.
pub proof fn lemma_closing(tail: Seq<char>)
    ensures
        skip_whitespace(seq![')'] + tail) == seq![')'] + tail,
        ends_token(seq![')'] + tail),
{
    lemma_skip_separator(Seq::empty(), seq![')'] + tail);
    assert(Seq::<char>::empty() + (seq![')'] + tail) =~= seq![')'] + tail);
}

/// What is written for a plain value inside an expression is not empty and
/// begins with whitespace.
pub proof fn lemma_starts(v: ValueView, s: Shape, name: Option<Seq<char>>, pretty: bool, lvl: nat)
    requires
        plain(v, s),
        encode_field(v, name, pretty, lvl) is Ok,
        lvl > 0,
    ensures
        encode_field(v, name, pretty, lvl)->Ok_0.len() > 0,
        is_ascii_whitespace(encode_field(v, name, pretty, lvl)->Ok_0[0]),
    decreases v,
{
    let text = encode_field(v, name, pretty, lvl)->Ok_0;
    match s {
        Shape::Int(k) => {},
        Shape::Float => {},
        Shape::Str => {},
        Shape::UnitStruct(n) => {
            lemma_begin_text(n@, pretty, lvl, seq![')']);
            assert(text[0] == begin_text(n@, pretty, lvl)[0]);
        },
        Shape::NewtypeStruct(n, _) => {
            lemma_begin_text(n@, pretty, lvl, seq![')']);
            assert(text[0] == begin_text(n@, pretty, lvl)[0]);
        },
        Shape::TupleStruct(n, _) => {
            lemma_begin_text(n@, pretty, lvl, seq![')']);
            assert(text[0] == begin_text(n@, pretty, lvl)[0]);
        },
        Shape::Struct(n, _) => {
            lemma_begin_text(n@, pretty, lvl, seq![')']);
            assert(text[0] == begin_text(n@, pretty, lvl)[0]);
        },
        Shape::Untagged(candidates) => {
            lemma_starts(*v->Untagged_1, candidates@[v->Untagged_0 as int], name, pretty, lvl);
        },
        _ => {},
    }
}

/// The text of a value, before `tail`, begins behind whitespace with the
/// value's token, and is decoded to the value; `tail` is left, but for
/// whitespace that it begins with.
pub open spec fn round_trips(
    v: ValueView,
    s: Shape,
    ident: Option<Seq<char>>,
    text: Seq<char>,
    tail: Seq<char>,
) -> bool {
    let input = skip_whitespace(text + tail);
    &&& input.len() > tail.len()
    &&& !is_ascii_whitespace(input[0])
    &&& input[0] != ')'
    &&& has_token(s) ==> input == token_of(v) + tail
    &&& !has_token(s) ==> !is_identifier_char(input[0])
    &&& peek_sexpr_identifier(input) is Ok ==> value_head(v) == Some(
        peek_sexpr_identifier(input)->Ok_0,
    )
    &&& decodes_to(decode_field(s, ident, input), v, tail)
}

/// A number or a text that was written, before what ends a token, is
/// decoded to itself.
pub proof fn lemma_scalar(
    v: ValueView,
    s: Shape,
    ident: Option<Seq<char>>,
    name: Option<Seq<char>>,
    pretty: bool,
    lvl: nat,
    tail: Seq<char>,
)
    requires
        plain(v, s),
        is_atom(s),
        ends_token(tail),
    ensures
        encode_field(v, name, pretty, lvl) is Ok,
        round_trips(v, s, ident, encode_field(v, name, pretty, lvl)->Ok_0, tail),
{
    let text = encode_field(v, name, pretty, lvl)->Ok_0;
    let input = skip_whitespace(text + tail);
    assert(all_in(seq![' '], CharClass::Whitespace));
    match s {
        Shape::Int(k) => {
            let n: int = if k.signed() {
                v->Int_0 as int
            } else {
                v->UInt_0 as int
            };
            lemma_integer_round_trip(n, k, tail);
            let token = decimal_text(n);
            assert(in_class(CharClass::Numeric, token[0]));
            assert(text + tail =~= seq![' '] + (token + tail));
            assert((token + tail)[0] == token[0]);
            lemma_skip_separator(seq![' '], token + tail);
        },
        Shape::Float => {
            let token = v->Float_0;
            lemma_float_round_trip(token, tail);
            assert(in_class(CharClass::Atom, token[0]));
            assert(text + tail =~= seq![' '] + (token + tail));
            assert((token + tail)[0] == token[0]);
            lemma_skip_separator(seq![' '], token + tail);
        },
        Shape::Str => {
            let t = v->Str_0;
            lemma_string_round_trip(t, false, tail);
            let token = str_text(t, false).skip(1);
            assert(text =~= seq![' '] + token);
            assert(text + tail =~= seq![' '] + (token + tail));
            assert((token + tail)[0] == token[0]);
            assert(token[0] == str_text(t, false)[1]);
            lemma_skip_separator(seq![' '], token + tail);
        },
        Shape::Enum(variants) => {
            let t = v->UnitVariant_0;
            lemma_string_round_trip(t, true, tail);
            let token = str_text(t, true).skip(1);
            assert(text =~= seq![' '] + token);
            assert(text + tail =~= seq![' '] + (token + tail));
            assert((token + tail)[0] == token[0]);
            assert(token[0] == str_text(t, true)[1]);
            lemma_skip_separator(seq![' '], token + tail);
            lemma_tag(t, tail);
            let names = crate::de::grammar::variant_names(variants@);
            crate::de::record::lemma_find_name(names, t, 0);
            let k = find_name(names, t, 0)->0;
            assert(names[k as int] == variants@[k as int].name@);
            assert(input == token + tail);
            assert(parse_string(input) == (Scanned::<Seq<char>> { result: Ok(t), rest: tail }));
            let key = crate::de::grammar::variant_key(variants@, crate::de::Token::Str, input);
            assert(key == (Scanned::<nat> { result: Ok(k), rest: tail }));
            assert(crate::de::grammar::field_enum(variants@, input) == done(v, tail));
            assert(decode_field(s, ident, input) == crate::de::grammar::field_enum(
                variants@,
                input,
            ));
        },
        _ => {},
    }
}

/// The tag of a variant that was written is a string token.
pub proof fn lemma_tag(t: Seq<char>, tail: Seq<char>)
    requires
        crate::ser::needs_quotes(t, true) || ends_token(tail),
    ensures
        crate::de::peek_token(str_text(t, true).skip(1) + tail) == Ok::<
            crate::de::Token,
            ErrorView,
        >(crate::de::Token::Str),
{
    let token = str_text(t, true).skip(1);
    let input = token + tail;
    lemma_string_round_trip(t, true, tail);
    assert(input[0] == token[0]);
    assert(token[0] == str_text(t, true)[1]);
    if crate::ser::needs_quotes(t, true) {
        assert(token[0] == '"');
    } else {
        assert(token =~= t);
        assert(!crate::ser::forces_quotes(t[0], true));
    }
    lemma_run_len_is(input, CharClass::Numeric, 0);
}

/// What skipping whitespace leaves of an expression that was written is
/// the parenthesis, the name, what stands inside, and the closing
/// parenthesis; its start is read as such.
pub proof fn lemma_expression(
    n: Seq<char>,
    pretty: bool,
    lvl: nat,
    inside: Seq<char>,
    tail: Seq<char>,
)
    requires
        is_name(n),
        ends_token(inside + (seq![')'] + tail)),
    ensures
        ({
            let text = begin_text(n, pretty, lvl) + inside + seq![')'];
            let input = skip_whitespace(text + tail);
            &&& input.len() > tail.len()
            &&& input[0] == '('
            &&& peek_sexpr_identifier(input) == Ok::<Seq<char>, ErrorView>(n)
            &&& begin(n, input) == (Scanned::<()> {
                result: Ok(()),
                rest: inside + (seq![')'] + tail),
            })
        }),
{
    let rest = inside + (seq![')'] + tail);
    let text = begin_text(n, pretty, lvl) + inside + seq![')'];
    lemma_begin_text(n, pretty, lvl, rest);
    assert(text + tail =~= begin_text(n, pretty, lvl) + rest);
    let body = seq!['('] + n + rest;
    assert(body[0] == '(');
}

/// The one value inside an expression is found there and decoded, and the
/// closing parenthesis is read.
pub proof fn lemma_single(
    v: ValueView,
    shape: Shape,
    pretty: bool,
    lvl: nat,
    tail: Seq<char>,
)
    requires
        plain(v, shape),
        lvl > 0,
        encode_field(v, None, pretty, lvl) is Ok,
    ensures
        decode_single(shape, encode_field(v, None, pretty, lvl)->Ok_0 + (seq![')'] + tail)) == done(
            v,
            tail,
        ),
    decreases v, 2nat,
{
    let closing = seq![')'] + tail;
    lemma_closing(tail);
    let s = encode_field(v, None, pretty, lvl)->Ok_0 + closing;
    lemma_element(v, shape, pretty, lvl, closing, s);
    let d = decode_field(shape, None, skip_whitespace(s));
    lemma_closed(tail, d.rest);
}

/// A plain value that was written, before what ends a token, is decoded
/// to the value, and what follows is left.
///
/// An expression may stand before anything. What skipping whitespace
/// leaves of the text begins with the value's token.
pub proof fn lemma_value(
    v: ValueView,
    s: Shape,
    ident: Option<Seq<char>>,
    name: Option<Seq<char>>,
    pretty: bool,
    lvl: nat,
    tail: Seq<char>,
)
    requires
        plain(v, s),
        encode_field(v, name, pretty, lvl) is Ok,
        ends_token(tail) || !is_atom(s),
    ensures
        round_trips(v, s, ident, encode_field(v, name, pretty, lvl)->Ok_0, tail),
    decreases v, 0nat,
{
    let text = encode_field(v, name, pretty, lvl)->Ok_0;
    let input = skip_whitespace(text + tail);
    let closing = seq![')'] + tail;
    lemma_closing(tail);
    lemma_skip_whitespace(tail);
    match s {
        Shape::Int(k) => {
            lemma_scalar(v, s, ident, name, pretty, lvl, tail);
        },
        Shape::Float => {
            lemma_scalar(v, s, ident, name, pretty, lvl, tail);
        },
        Shape::Str => {
            lemma_scalar(v, s, ident, name, pretty, lvl, tail);
        },
        Shape::Enum(_) => {
            lemma_scalar(v, s, ident, name, pretty, lvl, tail);
        },
        Shape::UnitStruct(n) => {
            assert(Seq::<char>::empty() + closing =~= closing);
            lemma_expression(n@, pretty, lvl, Seq::empty(), tail);
            assert(text =~= begin_text(n@, pretty, lvl) + Seq::<char>::empty() + seq![')']);
            assert(closing.skip(1) =~= tail);
            assert(unit_struct(n@, input) == (Scanned::<()> { result: Ok(()), rest: tail }));
        },
        Shape::NewtypeStruct(n, inner) => {
            let b = *v->NewtypeStruct_1;
            let inside = encode_field(b, None, pretty, lvl + 1)->Ok_0;
            lemma_starts(b, *inner, None, pretty, lvl + 1);
            assert((inside + closing)[0] == inside[0]);
            lemma_expression(n@, pretty, lvl, inside, tail);
            assert(text == begin_text(n@, pretty, lvl) + inside + seq![')']);
            lemma_single(b, *inner, pretty, lvl + 1, tail);
        },
        Shape::TupleStruct(n, shapes) => {
            let items = v->TupleStruct_1;
            assert(plain_items(items, shapes@));
            assert(items.len() == shapes@.len());
            let inside = encode_items(items, 0, pretty, lvl + 1)->Ok_0;
            lemma_items_start(items, shapes@, 0, pretty, lvl + 1, tail);
            lemma_expression(n@, pretty, lvl, inside, tail);
            assert(text == begin_text(n@, pretty, lvl) + inside + seq![')']);
            lemma_items(items, shapes@, 0, pretty, lvl + 1, tail, inside + closing, Seq::empty());
            assert(Seq::<ValueView>::empty() + items.skip(0) =~= items);
        },
        Shape::Struct(n, fields) => {
            let members = v->Struct_1;
            let inside = encode_members(members, 0, pretty, lvl + 1)->Ok_0;
            assert(fields@.len() == fields.len());
            assert(plain_from(members, fields@, 0));
            lemma_members_start(members, fields@, 0, pretty, lvl + 1, tail);
            lemma_expression(n@, pretty, lvl, inside, tail);
            assert(text == begin_text(n@, pretty, lvl) + inside + seq![')']);
            lemma_members(
                members,
                fields@,
                0,
                pretty,
                lvl + 1,
                tail,
                inside + closing,
                n@,
                Seq::empty(),
            );
            assert(Seq::<MemberView>::empty() + members.skip(0) =~= members);
        },
        Shape::Untagged(candidates) => {
            let k = v->Untagged_0;
            let b = *v->Untagged_1;
            let chosen = candidates@[k as int];
            lemma_value(b, chosen, None, name, pretty, lvl, tail);
            lemma_head(b, chosen);
            let names = crate::private::head_names(candidates@, 0)->Ok_0;
            lemma_run_len_is(input, CharClass::Numeric, 0);
            assert(crate::de::peek_token(input) == Ok::<crate::de::Token, ErrorView>(
                crate::de::Token::SExpr,
            ));
            assert(crate::de::grammar::field_untagged(candidates@, names, input)
                == crate::de::grammar::untagged(k, decode_field(chosen, None, input)));
            assert(v == ValueView::Untagged(k, Box::new(b)));
        },
        _ => {},
    }
}

/// A plain record is written as the expression of its shape's name.
pub proof fn lemma_head(v: ValueView, s: Shape)
    requires
        plain(v, s),
        is_record(s),
    ensures
        value_head(v) == Some(record_name(s)),
{
}

/// The members from the `i`-th on are plain, in a record whose fields
/// have different names.
pub open spec fn plain_from(members: Seq<MemberView>, fields: Seq<FieldShape>, i: nat) -> bool {
    &&& members.len() == fields.len()
    &&& fields.len() <= usize::MAX
    &&& distinct_names(fields)
    &&& forall|k: int|
        i <= k < members.len() ==> plain_member(#[trigger] members[k], fields, k as nat)
    &&& forall|k: int| i <= k < members.len() ==> #[trigger] absent_ok(members, fields, k as nat)
    &&& forall|k: int| i <= k < members.len() ==> #[trigger] literal_ok(members, fields, k as nat)
}

/// The shape of each place of a sequence.
pub open spec fn repeated(shape: Shape, n: nat) -> Seq<Shape> {
    Seq::new(n, |i: int| shape)
}

/// What is written for values is what is written for the first and for
/// those behind it.
pub proof fn lemma_items_unfold(items: Seq<ValueView>, i: nat, pretty: bool, lvl: nat)
    requires
        i < items.len(),
        encode_items(items, i, pretty, lvl) is Ok,
    ensures
        encode_field(items[i as int], None, pretty, lvl) is Ok,
        encode_items(items, i + 1, pretty, lvl) is Ok,
        encode_items(items, i, pretty, lvl)->Ok_0 == encode_field(
            items[i as int],
            None,
            pretty,
            lvl,
        )->Ok_0 + encode_items(items, i + 1, pretty, lvl)->Ok_0,
{
}

/// What is written for members is what is written for the first and for
/// those behind it.
pub proof fn lemma_members_unfold(members: Seq<MemberView>, i: nat, pretty: bool, lvl: nat)
    requires
        i < members.len(),
        encode_members(members, i, pretty, lvl) is Ok,
    ensures
        encode_field(members[i as int].value, Some(members[i as int].name), pretty, lvl) is Ok,
        encode_members(members, i + 1, pretty, lvl) is Ok,
        encode_members(members, i, pretty, lvl)->Ok_0 == encode_field(
            members[i as int].value,
            Some(members[i as int].name),
            pretty,
            lvl,
        )->Ok_0 + encode_members(members, i + 1, pretty, lvl)->Ok_0,
{
}

/// What is written for plain values, and the closing parenthesis behind
/// it, begins with whitespace or with the parenthesis.
pub proof fn lemma_items_start(
    items: Seq<ValueView>,
    shapes: Seq<Shape>,
    i: nat,
    pretty: bool,
    lvl: nat,
    tail: Seq<char>,
)
    requires
        plain_items(items, shapes),
        i <= items.len(),
        lvl > 0,
        encode_items(items, i, pretty, lvl) is Ok,
    ensures
        ends_token(encode_items(items, i, pretty, lvl)->Ok_0 + (seq![')'] + tail)),
        i == items.len() ==> encode_items(items, i, pretty, lvl)->Ok_0 + (seq![')'] + tail)
            == seq![')'] + tail,
{
    let all = encode_items(items, i, pretty, lvl)->Ok_0;
    let closing = seq![')'] + tail;
    if i >= items.len() {
        assert(all + closing =~= closing);
    } else {
        lemma_items_unfold(items, i, pretty, lvl);
        lemma_starts(items[i as int], shapes[i as int], None, pretty, lvl);
        let text = encode_field(items[i as int], None, pretty, lvl)->Ok_0;
        assert((all + closing)[0] == text[0]);
    }
}

/// A plain value with no name that was written inside an expression is
/// found there, and decoded to the value.
pub proof fn lemma_element(
    v: ValueView,
    shape: Shape,
    pretty: bool,
    lvl: nat,
    next: Seq<char>,
    s: Seq<char>,
)
    requires
        plain(v, shape),
        lvl > 0,
        encode_field(v, None, pretty, lvl) is Ok,
        ends_token(next),
        skip_whitespace(s) == skip_whitespace(encode_field(v, None, pretty, lvl)->Ok_0 + next),
    ensures
        ({
            let input = skip_whitespace(s);
            &&& tuple_check_eoe(false, s) == (Scanned::<bool> { result: Ok(false), rest: input })
            &&& more_elements(s) == (Scanned::<bool> { result: Ok(true), rest: input })
            &&& decodes_to(decode_field(shape, None, input), v, next)
            &&& next.len() < input.len() <= s.len()
        }),
    decreases v, 1nat,
{
    lemma_value(v, shape, None, None, pretty, lvl, next);
    lemma_skip_whitespace(s);
}

/// Behind the last value of an expression, its closing parenthesis is
/// found and read.
pub proof fn lemma_closed(tail: Seq<char>, r: Seq<char>)
    requires
        skip_whitespace(r) == skip_whitespace(seq![')'] + tail),
    ensures
        tuple_check_eoe(false, r) == (Scanned::<bool> { result: Ok(true), rest: tail }),
        check_eoe(SkipTo::Unset, r) == (Scanned::<SkipTo> { result: Ok(SkipTo::End), rest: tail }),
        more_elements(r) == (Scanned::<bool> { result: Ok(false), rest: seq![')'] + tail }),
{
    lemma_closing(tail);
    assert((seq![')'] + tail).skip(1) =~= tail);
}

/// Decoding the values from one on is decoding that one, looking for the
/// end of the expression, and decoding those behind it.
pub proof fn lemma_item_step(
    shapes: Seq<Shape>,
    i: nat,
    s: Seq<char>,
    acc: Seq<ValueView>,
    v: ValueView,
)
    requires
        i < shapes.len(),
        tuple_check_eoe(false, s) == (Scanned::<bool> {
            result: Ok(false),
            rest: skip_whitespace(s),
        }),
        decode_field(shapes[i as int], None, skip_whitespace(s)).result == Ok::<
            ValueView,
            ErrorView,
        >(v),
    ensures
        ({
            let d = decode_field(shapes[i as int], None, skip_whitespace(s));
            let last = tuple_check_eoe(false, d.rest);
            last.result is Ok ==> decode_items(shapes, i, false, s, acc) == decode_items(
                shapes,
                i + 1,
                last.result->Ok_0,
                last.rest,
                acc.push(v),
            )
        }),
{
}

/// Plain values with no name that were written one after the other inside
/// an expression are decoded, one for each shape, to the values; the
/// closing parenthesis is read.
pub proof fn lemma_items(
    items: Seq<ValueView>,
    shapes: Seq<Shape>,
    i: nat,
    pretty: bool,
    lvl: nat,
    tail: Seq<char>,
    s: Seq<char>,
    acc: Seq<ValueView>,
)
    requires
        plain_items(items, shapes),
        i < items.len(),
        lvl > 0,
        encode_items(items, i, pretty, lvl) is Ok,
        skip_whitespace(s) == skip_whitespace(
            encode_items(items, i, pretty, lvl)->Ok_0 + (seq![')'] + tail),
        ),
    ensures
        decode_items(shapes, i, false, s, acc) == (DecodedItems {
            result: Ok(acc + items.skip(i as int)),
            rest: tail,
        }),
    decreases items, items.len() - i,
{
    let closing = seq![')'] + tail;
    lemma_items_unfold(items, i, pretty, lvl);
    let text = encode_field(items[i as int], None, pretty, lvl)->Ok_0;
    let next = encode_items(items, i + 1, pretty, lvl)->Ok_0 + closing;
    assert(encode_items(items, i, pretty, lvl)->Ok_0 + closing =~= text + next);
    lemma_items_start(items, shapes, i + 1, pretty, lvl, tail);
    lemma_element(items[i as int], shapes[i as int], pretty, lvl, next, s);
    let d = decode_field(shapes[i as int], None, skip_whitespace(s));
    let grown = acc.push(items[i as int]);
    assert(grown + items.skip(i as int + 1) =~= acc + items.skip(i as int));
    lemma_item_step(shapes, i, s, acc, items[i as int]);
    if i + 1 < items.len() {
        lemma_items_unfold(items, i + 1, pretty, lvl);
        let later = encode_items(items, i + 2, pretty, lvl)->Ok_0 + closing;
        let following = encode_field(items[i as int + 1], None, pretty, lvl)->Ok_0;
        assert(next =~= following + later);
        lemma_items_start(items, shapes, i + 2, pretty, lvl, tail);
        lemma_element(items[i as int + 1], shapes[i as int + 1], pretty, lvl, later, d.rest);
        lemma_skip_whitespace(d.rest);
        lemma_items(items, shapes, i + 1, pretty, lvl, tail, skip_whitespace(d.rest), grown);
    } else {
        lemma_closed(tail, d.rest);
        assert(items.skip(i as int + 1) =~= Seq::<ValueView>::empty());
        assert(grown + Seq::<ValueView>::empty() =~= grown);
    }
}

/// Values that are plain by one shape are plain each by that shape.
pub proof fn lemma_repeated(items: Seq<ValueView>, shape: Shape)
    requires
        plain_elements(items, shape),
    ensures
        plain_items(items, repeated(shape, items.len())),
{
    assert forall|i: int| 0 <= i < items.len() implies plain(
        #[trigger] items[i],
        repeated(shape, items.len())[i],
    ) by {}
}

/// Plain values with no name that were written one after the other inside
/// an expression are decoded, all by one shape, to the values; the closing
/// parenthesis is read.
pub proof fn lemma_elements(
    items: Seq<ValueView>,
    shape: Shape,
    i: nat,
    pretty: bool,
    lvl: nat,
    tail: Seq<char>,
    s: Seq<char>,
    acc: Seq<ValueView>,
)
    requires
        plain_elements(items, shape),
        i <= items.len(),
        lvl > 0,
        encode_items(items, i, pretty, lvl) is Ok,
        skip_whitespace(s) == skip_whitespace(
            encode_items(items, i, pretty, lvl)->Ok_0 + (seq![')'] + tail),
        ),
    ensures
        decode_elements(shape, false, s, acc) == (DecodedItems {
            result: Ok(acc + items.skip(i as int)),
            rest: tail,
        }),
    decreases items, items.len() - i,
{
    let closing = seq![')'] + tail;
    lemma_repeated(items, shape);
    let shapes = repeated(shape, items.len());
    lemma_items_start(items, shapes, i, pretty, lvl, tail);
    if i >= items.len() {
        lemma_closed(tail, s);
        assert(acc + items.skip(i as int) =~= acc);
    } else {
        lemma_items_unfold(items, i, pretty, lvl);
        let text = encode_field(items[i as int], None, pretty, lvl)->Ok_0;
        let next = encode_items(items, i + 1, pretty, lvl)->Ok_0 + closing;
        assert(encode_items(items, i, pretty, lvl)->Ok_0 + closing =~= text + next);
        lemma_items_start(items, shapes, i + 1, pretty, lvl, tail);
        lemma_element(items[i as int], shape, pretty, lvl, next, s);
        let d = decode_field(shape, None, skip_whitespace(s));
        let grown = acc.push(items[i as int]);
        assert(grown + items.skip(i as int + 1) =~= acc + items.skip(i as int));
        lemma_skip_whitespace(d.rest);
        if i + 1 < items.len() {
            lemma_items_unfold(items, i + 1, pretty, lvl);
            let later = encode_items(items, i + 2, pretty, lvl)->Ok_0 + closing;
            let following = encode_field(items[i as int + 1], None, pretty, lvl)->Ok_0;
            assert(next =~= following + later);
            lemma_items_start(items, shapes, i + 2, pretty, lvl, tail);
            lemma_element(items[i as int + 1], shape, pretty, lvl, later, d.rest);
            lemma_elements(items, shape, i + 1, pretty, lvl, tail, skip_whitespace(d.rest), grown);
        } else {
            lemma_closed(tail, d.rest);
            assert(items.skip(i as int + 1) =~= Seq::<ValueView>::empty());
            assert(grown + Seq::<ValueView>::empty() =~= grown);
            assert(decode_elements(shape, true, tail, grown) == (DecodedItems {
                result: Ok(grown),
                rest: tail,
            }));
        }
    }
}

/// Plain values with no name that were written one after the other at the
/// end of an expression are decoded, all by one shape, to the values; the
/// closing parenthesis is left.
pub proof fn lemma_rest_elements(
    items: Seq<ValueView>,
    shape: Shape,
    i: nat,
    pretty: bool,
    lvl: nat,
    tail: Seq<char>,
    s: Seq<char>,
    acc: Seq<ValueView>,
)
    requires
        plain_elements(items, shape),
        i <= items.len(),
        lvl > 0,
        encode_items(items, i, pretty, lvl) is Ok,
        skip_whitespace(s) == skip_whitespace(
            encode_items(items, i, pretty, lvl)->Ok_0 + (seq![')'] + tail),
        ),
    ensures
        decode_rest_elements(shape, s, acc) == (DecodedItems {
            result: Ok(acc + items.skip(i as int)),
            rest: seq![')'] + tail,
        }),
    decreases items, items.len() - i,
{
    let closing = seq![')'] + tail;
    lemma_repeated(items, shape);
    let shapes = repeated(shape, items.len());
    lemma_items_start(items, shapes, i, pretty, lvl, tail);
    if i >= items.len() {
        lemma_closed(tail, s);
        assert(acc + items.skip(i as int) =~= acc);
    } else {
        lemma_items_unfold(items, i, pretty, lvl);
        let text = encode_field(items[i as int], None, pretty, lvl)->Ok_0;
        let next = encode_items(items, i + 1, pretty, lvl)->Ok_0 + closing;
        assert(encode_items(items, i, pretty, lvl)->Ok_0 + closing =~= text + next);
        lemma_items_start(items, shapes, i + 1, pretty, lvl, tail);
        lemma_element(items[i as int], shape, pretty, lvl, next, s);
        let d = decode_field(shape, None, skip_whitespace(s));
        let grown = acc.push(items[i as int]);
        assert(grown + items.skip(i as int + 1) =~= acc + items.skip(i as int));
        lemma_rest_elements(items, shape, i + 1, pretty, lvl, tail, d.rest, grown);
    }
}

/// A name at the head of a token is the same whatever follows the token,
/// if that is no letter or underscore.
pub proof fn lemma_identifier_prefix(token: Seq<char>, next: Seq<char>)
    requires
        next.len() == 0 || !is_identifier_char(next[0]),
    ensures
        peek_identifier(token + next) == peek_identifier(token),
{
    let n = run_len(token, CharClass::Identifier);
    lemma_run_len_bounds(token, CharClass::Identifier);
    let all = token + next;
    assert forall|i: int| 0 <= i < n implies in_class(CharClass::Identifier, #[trigger] all[i]) by {
        assert(all[i] == token[i]);
    }
    if n < all.len() {
        if n < token.len() {
            assert(all[n as int] == token[n as int]);
        } else {
            assert(all[n as int] == next[0]);
        }
    }
    lemma_run_len_is(all, CharClass::Identifier, n);
    assert(all.take(n as int) =~= token.take(n as int));
}

/// What is written for a sequence of fixed length in a named field.
pub proof fn lemma_tuple_text(items: Seq<ValueView>, name: Seq<char>, pretty: bool, lvl: nat)
    requires
        name.len() > 0,
    ensures
        encode_field(ValueView::Tuple(items), Some(name), pretty, lvl)
            == crate::ser::grammar::expression(
            name,
            encode_items(items, 0, pretty, lvl + 1),
            pretty,
            lvl,
        ),
{
    assert(encode_field(ValueView::Tuple(items), Some(name), pretty, lvl)
        == crate::ser::grammar::sequence(items, Some(name), pretty, lvl));
}

/// What is written for a sequence in a named field.
pub proof fn lemma_list_text(items: Seq<ValueView>, name: Seq<char>, pretty: bool, lvl: nat)
    ensures
        encode_field(ValueView::List(items), Some(name), pretty, lvl) == if name.len() == 0 {
            encode_items(items, 0, pretty, lvl)
        } else {
            crate::ser::grammar::expression(
                name,
                encode_items(items, 0, pretty, lvl + 1),
                pretty,
                lvl,
            )
        },
{
    assert(encode_field(ValueView::List(items), Some(name), pretty, lvl)
        == crate::ser::grammar::sequence(items, Some(name), pretty, lvl));
}

/// A flag that is set is written as its name.
pub proof fn lemma_flag_text(name: Seq<char>)
    requires
        is_name(name),
    ensures
        str_text(name, true) == seq![' '] + name,
{
    assert(!crate::ser::needs_quotes(name, true)) by {
        assert forall|i: int| 0 <= i < name.len() implies !crate::ser::forces_quotes(
            #[trigger] name[i],
            true,
        ) by {
            assert(in_class(CharClass::Identifier, name[i]));
        }
    }
}

/// A silent member that is not blank is a flag that is not set, or an
/// optional value that is absent; its field has a name.
pub proof fn lemma_silent(m: MemberView, fields: Seq<FieldShape>, i: nat)
    requires
        plain_member(m, fields, i),
        is_silent(m),
        !is_blank(m),
    ensures
        m.name.len() > 0,
        fields[i as int].shape is Bool || fields[i as int].shape is Trial,
        fields[i as int].shape is Bool ==> m.value == ValueView::Bool(false),
        fields[i as int].shape is Trial ==> m.value is Absent && is_solid(
            *fields[i as int].shape->Trial_0,
        ),
{
}

/// What is written for a plain member is not empty and begins with
/// whitespace, unless the member is silent.
pub proof fn lemma_member_starts(m: MemberView, fields: Seq<FieldShape>, i: nat, pretty: bool, lvl: nat)
    requires
        plain_member(m, fields, i),
        encode_field(m.value, Some(m.name), pretty, lvl) is Ok,
        lvl > 0,
    ensures
        is_silent(m) ==> encode_field(m.value, Some(m.name), pretty, lvl)->Ok_0.len() == 0,
        !is_silent(m) ==> encode_field(m.value, Some(m.name), pretty, lvl)->Ok_0.len() > 0
            && is_ascii_whitespace(encode_field(m.value, Some(m.name), pretty, lvl)->Ok_0[0]),
{
    let text = encode_field(m.value, Some(m.name), pretty, lvl)->Ok_0;
    match fields[i as int].shape {
        Shape::List(inner) => {
            let items = m.value->List_0;
            assert(m.value == ValueView::List(items));
            lemma_list_text(items, m.name, pretty, lvl);
            if m.name.len() == 0 {
                if items.len() > 0 {
                    lemma_items_unfold(items, 0, pretty, lvl);
                    lemma_starts(items[0], *inner, None, pretty, lvl);
                    let head = encode_field(items[0], None, pretty, lvl)->Ok_0;
                    assert(text[0] == head[0]);
                }
            } else {
                lemma_begin_text(m.name, pretty, lvl, seq![')']);
                assert(text[0] == begin_text(m.name, pretty, lvl)[0]);
            }
        },
        Shape::Tuple(_) => {
            let items = m.value->Tuple_0;
            assert(m.value == ValueView::Tuple(items));
            lemma_tuple_text(items, m.name, pretty, lvl);
            lemma_begin_text(m.name, pretty, lvl, seq![')']);
            assert(text[0] == begin_text(m.name, pretty, lvl)[0]);
        },
        Shape::Bool => {
            lemma_flag_text(m.name);
        },
        Shape::Literal => {},
        Shape::Trial(inner) => {
            if m.value is Present {
                let b = *m.value->Present_0;
                lemma_starts(b, *inner, Some(m.name), pretty, lvl);
            }
        },
        shape => {
            lemma_starts(m.value, shape, Some(m.name), pretty, lvl);
        },
    }
}

/// The first member from the `i`-th on for which something is written;
/// the number of members if there is none.
pub open spec fn first_loud(members: Seq<MemberView>, i: nat) -> nat
    decreases members.len() - i,
{
    if i >= members.len() {
        members.len()
    } else if is_silent(members[i as int]) {
        first_loud(members, i + 1)
    } else {
        i
    }
}

/// What is written for the members from the `i`-th on, and the closing
/// parenthesis and what follows it.
pub open spec fn behind(
    members: Seq<MemberView>,
    i: nat,
    pretty: bool,
    lvl: nat,
    tail: Seq<char>,
) -> Seq<char> {
    encode_members(members, i, pretty, lvl)->Ok_0 + (seq![')'] + tail)
}

/// Nothing is written before the first member for which something is
/// written.
pub proof fn lemma_first_loud(
    members: Seq<MemberView>,
    fields: Seq<FieldShape>,
    i: nat,
    pretty: bool,
    lvl: nat,
    tail: Seq<char>,
)
    requires
        plain_from(members, fields, i),
        i <= members.len(),
        lvl > 0,
        encode_members(members, i, pretty, lvl) is Ok,
    ensures
        i <= first_loud(members, i) <= members.len(),
        forall|k: int| i <= k < first_loud(members, i) ==> is_silent(#[trigger] members[k]),
        first_loud(members, i) < members.len() ==> !is_silent(
            members[first_loud(members, i) as int],
        ),
        first_loud(members, i) == members.len() <==> all_silent(members, i),
        encode_members(members, first_loud(members, i), pretty, lvl) is Ok,
        behind(members, first_loud(members, i), pretty, lvl, tail) == behind(
            members,
            i,
            pretty,
            lvl,
            tail,
        ),
        first_loud(members, i) == members.len() ==> behind(members, i, pretty, lvl, tail) == seq![
            ')',
        ] + tail,
    decreases members.len() - i,
{
    if i >= members.len() {
        assert(behind(members, i, pretty, lvl, tail) =~= seq![')'] + tail);
    } else {
        lemma_members_unfold(members, i, pretty, lvl);
        let m = members[i as int];
        assert(plain_member(m, fields, i));
        lemma_member_starts(m, fields, i, pretty, lvl);
        if is_silent(m) {
            lemma_first_loud(members, fields, i + 1, pretty, lvl, tail);
            let text = encode_field(m.value, Some(m.name), pretty, lvl)->Ok_0;
            assert(text =~= Seq::<char>::empty());
            assert(encode_members(members, i, pretty, lvl)->Ok_0
                =~= encode_members(members, i + 1, pretty, lvl)->Ok_0);
            assert forall|k: int| i <= k < first_loud(members, i) implies is_silent(
                #[trigger] members[k],
            ) by {
                if k > i {
                }
            }
            if all_silent(members, i + 1) {
                assert forall|k: int| i <= k < members.len() implies is_silent(
                    #[trigger] members[k],
                ) by {
                    if k > i {
                    }
                }
            }
        }
    }
}

/// What is written for plain members, and the closing parenthesis behind
/// it, begins with whitespace or with the parenthesis.
pub proof fn lemma_members_start(
    members: Seq<MemberView>,
    fields: Seq<FieldShape>,
    i: nat,
    pretty: bool,
    lvl: nat,
    tail: Seq<char>,
)
    requires
        plain_from(members, fields, i),
        i <= members.len(),
        lvl > 0,
        encode_members(members, i, pretty, lvl) is Ok,
    ensures
        ends_token(behind(members, i, pretty, lvl, tail)),
{
    lemma_first_loud(members, fields, i, pretty, lvl, tail);
    let j = first_loud(members, i);
    lemma_closing(tail);
    if j < members.len() {
        lemma_members_unfold(members, j, pretty, lvl);
        let m = members[j as int];
        assert(plain_member(m, fields, j));
        lemma_member_starts(m, fields, j, pretty, lvl);
        let text = encode_field(m.value, Some(m.name), pretty, lvl)->Ok_0;
        assert(behind(members, j, pretty, lvl, tail)[0] == text[0]);
    }
}

/// What is known of a member for which something is written, where it
/// stands at the head of `input` and `next` follows it.
pub open spec fn member_found(
    m: MemberView,
    fields: Seq<FieldShape>,
    i: nat,
    input: Seq<char>,
    next: Seq<char>,
) -> bool {
    &&& input.len() > next.len()
    &&& !is_ascii_whitespace(input[0])
    &&& input[0] != ')'
    &&& is_flag(m) ==> peek_identifier(input) == Some(m.name) && input.skip(m.name.len() as int)
        == next
    &&& !is_flag(m) ==> (peek_identifier(input) is Some ==> find_name(
        field_names(fields),
        peek_identifier(input)->0,
        0,
    ) is None) && decodes_to(
        decode_field(fields[i as int].shape, Some(fields[i as int].name@), input),
        m.value,
        next,
    )
    &&& peek_sexpr_identifier(input) is Ok ==> member_head(m) == Some(
        peek_sexpr_identifier(input)->Ok_0,
    )
}

/// A sequence in a field without a name is found by its first element,
/// and decoded up to the closing parenthesis.
pub proof fn lemma_member_rest(
    m: MemberView,
    fields: Seq<FieldShape>,
    i: nat,
    pretty: bool,
    lvl: nat,
    next: Seq<char>,
)
    requires
        plain_member(m, fields, i),
        lvl > 0,
        !is_silent(m),
        fields[i as int].shape is List,
        m.name.len() == 0,
        encode_field(m.value, Some(m.name), pretty, lvl) is Ok,
        ends_token(next),
        next[0] == ')',
    ensures
        member_found(
            m,
            fields,
            i,
            skip_whitespace(encode_field(m.value, Some(m.name), pretty, lvl)->Ok_0 + next),
            next,
        ),
    decreases m, 0nat,
{
    let inner = *fields[i as int].shape->List_0;
    let text = encode_field(m.value, Some(m.name), pretty, lvl)->Ok_0;
    let input = skip_whitespace(text + next);
    let items = m.value->List_0;
    assert(m.value == ValueView::List(items));
    lemma_list_text(items, m.name, pretty, lvl);
    lemma_repeated(items, inner);
    let tail = next.skip(1);
    assert(next =~= seq![')'] + tail);
    lemma_items_unfold(items, 0, pretty, lvl);
    lemma_items_start(items, repeated(inner, items.len()), 1, pretty, lvl, tail);
    let later = encode_items(items, 1, pretty, lvl)->Ok_0 + next;
    lemma_value(items[0], inner, None, None, pretty, lvl, later);
    let head = encode_field(items[0], None, pretty, lvl)->Ok_0;
    assert(text + next =~= head + later);
    if has_token(inner) {
        lemma_identifier_prefix(token_of(items[0]), later);
    } else {
        lemma_run_len_is(input, CharClass::Identifier, 0);
    }
    lemma_skip_whitespace(input);
    lemma_skip_separator(Seq::empty(), input);
    assert(Seq::<char>::empty() + input =~= input);
    lemma_rest_elements(items, inner, 0, pretty, lvl, tail, input, Seq::empty());
    assert(Seq::<ValueView>::empty() + items.skip(0) =~= items);
    lemma_skip_whitespace(next);
}

/// A sequence in a field with a name is found as the expression of that
/// name, and decoded.
pub proof fn lemma_member_list(
    m: MemberView,
    fields: Seq<FieldShape>,
    i: nat,
    pretty: bool,
    lvl: nat,
    next: Seq<char>,
)
    requires
        plain_member(m, fields, i),
        lvl > 0,
        fields[i as int].shape is List,
        m.name.len() > 0,
        encode_field(m.value, Some(m.name), pretty, lvl) is Ok,
        ends_token(next),
    ensures
        member_found(
            m,
            fields,
            i,
            skip_whitespace(encode_field(m.value, Some(m.name), pretty, lvl)->Ok_0 + next),
            next,
        ),
    decreases m, 0nat,
{
    let inner = *fields[i as int].shape->List_0;
    let text = encode_field(m.value, Some(m.name), pretty, lvl)->Ok_0;
    let input = skip_whitespace(text + next);
    let items = m.value->List_0;
    assert(m.value == ValueView::List(items));
    lemma_list_text(items, m.name, pretty, lvl);
    lemma_repeated(items, inner);
    let closing = seq![')'] + next;
    lemma_closing(next);
    let inside = encode_items(items, 0, pretty, lvl + 1)->Ok_0;
    lemma_items_start(items, repeated(inner, items.len()), 0, pretty, lvl + 1, next);
    lemma_expression(m.name, pretty, lvl, inside, next);
    assert(text == begin_text(m.name, pretty, lvl) + inside + seq![')']);
    lemma_run_len_is(input, CharClass::Identifier, 0);
    lemma_elements(items, inner, 0, pretty, lvl + 1, next, inside + closing, Seq::empty());
    assert(Seq::<ValueView>::empty() + items.skip(0) =~= items);
    lemma_skip_whitespace(next);
}

/// A sequence of fixed length in a field with a name is found as the
/// expression of that name, and decoded.
pub proof fn lemma_member_tuple(
    m: MemberView,
    fields: Seq<FieldShape>,
    i: nat,
    pretty: bool,
    lvl: nat,
    next: Seq<char>,
)
    requires
        plain_member(m, fields, i),
        lvl > 0,
        fields[i as int].shape is Tuple,
        encode_field(m.value, Some(m.name), pretty, lvl) is Ok,
        ends_token(next),
    ensures
        member_found(
            m,
            fields,
            i,
            skip_whitespace(encode_field(m.value, Some(m.name), pretty, lvl)->Ok_0 + next),
            next,
        ),
    decreases m, 0nat,
{
    let shapes = fields[i as int].shape->Tuple_0@;
    let text = encode_field(m.value, Some(m.name), pretty, lvl)->Ok_0;
    let input = skip_whitespace(text + next);
    let items = m.value->Tuple_0;
    assert(m.value == ValueView::Tuple(items));
    assert(plain_items(items, shapes));
    lemma_tuple_text(items, m.name, pretty, lvl);
    let closing = seq![')'] + next;
    lemma_closing(next);
    let inside = encode_items(items, 0, pretty, lvl + 1)->Ok_0;
    lemma_items_start(items, shapes, 0, pretty, lvl + 1, next);
    lemma_expression(m.name, pretty, lvl, inside, next);
    assert(text == begin_text(m.name, pretty, lvl) + inside + seq![')']);
    lemma_run_len_is(input, CharClass::Identifier, 0);
    lemma_items(items, shapes, 0, pretty, lvl + 1, next, inside + closing, Seq::empty());
    assert(Seq::<ValueView>::empty() + items.skip(0) =~= items);
    lemma_skip_whitespace(next);
}

/// A flag that is set is found by its name.
pub proof fn lemma_member_flag(m: MemberView, fields: Seq<FieldShape>, i: nat, next: Seq<char>)
    requires
        plain_member(m, fields, i),
        fields[i as int].shape is Bool,
        is_flag(m),
        ends_token(next),
    ensures
        member_found(m, fields, i, skip_whitespace(str_text(m.name, true) + next), next),
{
    lemma_flag_text(m.name);
    let text = str_text(m.name, true);
    assert(text + next =~= seq![' '] + (m.name + next));
    assert(in_class(CharClass::Identifier, m.name[0]));
    assert((m.name + next)[0] == m.name[0]);
    assert(all_in(seq![' '], CharClass::Whitespace));
    lemma_skip_separator(seq![' '], m.name + next);
    lemma_run_of_token(m.name, next, CharClass::Identifier);
}

/// An optional value that is there is found by its token, and decoded.
pub proof fn lemma_member_present(
    m: MemberView,
    fields: Seq<FieldShape>,
    i: nat,
    pretty: bool,
    lvl: nat,
    next: Seq<char>,
)
    requires
        plain_member(m, fields, i),
        lvl > 0,
        fields[i as int].shape is Trial,
        m.value is Present,
        encode_field(m.value, Some(m.name), pretty, lvl) is Ok,
        ends_token(next),
    ensures
        member_found(
            m,
            fields,
            i,
            skip_whitespace(encode_field(m.value, Some(m.name), pretty, lvl)->Ok_0 + next),
            next,
        ),
    decreases m, 0nat,
{
    let inner = *fields[i as int].shape->Trial_0;
    let text = encode_field(m.value, Some(m.name), pretty, lvl)->Ok_0;
    let input = skip_whitespace(text + next);
    let b = *m.value->Present_0;
    lemma_value(b, inner, Some(m.name), Some(m.name), pretty, lvl, next);
    if has_token(inner) {
        lemma_identifier_prefix(token_of(b), next);
    } else {
        lemma_run_len_is(input, CharClass::Identifier, 0);
    }
    let d = decode_field(inner, Some(m.name), input);
    assert(decode_field(fields[i as int].shape, Some(m.name), input) == crate::de::grammar::trial(
        d,
    ));
    assert(m.value == ValueView::Present(Box::new(b)));
}

/// A literal is found by its token, which is read as a number or as a text
/// by what it looks like, and decoded to what it is.
pub proof fn lemma_member_literal(
    m: MemberView,
    fields: Seq<FieldShape>,
    i: nat,
    pretty: bool,
    lvl: nat,
    next: Seq<char>,
)
    requires
        plain_member(m, fields, i),
        fields[i as int].shape is Literal,
        ends_token(next),
        literal_fits(m.value, next),
    ensures
        encode_field(m.value, Some(m.name), pretty, lvl) is Ok,
        member_found(
            m,
            fields,
            i,
            skip_whitespace(encode_field(m.value, Some(m.name), pretty, lvl)->Ok_0 + next),
            next,
        ),
{
    let text = encode_field(m.value, Some(m.name), pretty, lvl)->Ok_0;
    let input = skip_whitespace(text + next);
    let ident = Some(fields[i as int].name@);
    assert(all_in(seq![' '], CharClass::Whitespace));
    match m.value {
        ValueView::UInt(n) => {
            lemma_integer_round_trip(n as int, crate::shape::IntKind::U64, next);
            let token = decimal_text(n as int);
            assert(in_class(CharClass::Numeric, token[0]));
            lemma_digits_first(n as nat);
            assert(text + next =~= seq![' '] + (token + next));
            assert((token + next)[0] == token[0]);
            lemma_skip_separator(seq![' '], token + next);
            lemma_run_of_token(token, next, CharClass::Numeric);
            lemma_run_len_is(input, CharClass::Identifier, 0);
            assert(!token.contains('.')) by {
                crate::roundtrip::lemma_digits_of(n as nat);
                if token.contains('.') {
                    let k = choose|k: int| 0 <= k < token.len() && token[k] == '.';
                    assert(in_class(CharClass::Digit, token[k]));
                }
            }
            assert(crate::de::peek_token(input) == Ok::<crate::de::Token, ErrorView>(
                crate::de::Token::Int,
            ));
            let d = crate::de::grammar::decode_any(ident, input);
            assert(d == done(m.value, next));
            assert(decode_field(fields[i as int].shape, ident, input)
                == crate::de::grammar::literal(d));
        },
        ValueView::Str(t) => {
            lemma_string_round_trip(t, false, next);
            let token = str_text(t, false).skip(1);
            assert(text =~= seq![' '] + token);
            assert(text + next =~= seq![' '] + (token + next));
            assert((token + next)[0] == token[0]);
            assert(token[0] == str_text(t, false)[1]);
            lemma_skip_separator(seq![' '], token + next);
            lemma_identifier_prefix(token, next);
            lemma_text_token(t, next);
            let d = crate::de::grammar::decode_any(ident, input);
            assert(d == done(m.value, next));
            assert(decode_field(fields[i as int].shape, ident, input)
                == crate::de::grammar::literal(d));
        },
        _ => {},
    }
}

/// A number is written with a digit first.
pub proof fn lemma_digits_first(n: nat)
    ensures
        crate::text::is_ascii_digit(crate::ser::digits_of(n)[0]),
        crate::ser::digits_of(n).len() > 0,
    decreases n,
{
    crate::roundtrip::lemma_digits_of(n);
    assert(in_class(CharClass::Digit, crate::ser::digits_of(n)[0]));
}

/// A text that was written is a string token, if it is in quotes, holds
/// anything but digits, `.` and `-`, or stands before a closing
/// parenthesis.
pub proof fn lemma_text_token(t: Seq<char>, next: Seq<char>)
    requires
        ends_token(next),
        literal_fits(ValueView::Str(t), next),
    ensures
        crate::de::peek_token(str_text(t, false).skip(1) + next) == Ok::<
            crate::de::Token,
            ErrorView,
        >(crate::de::Token::Str),
{
    let token = str_text(t, false).skip(1);
    let input = token + next;
    lemma_string_round_trip(t, false, next);
    assert(input[0] == token[0]);
    assert(token[0] == str_text(t, false)[1]);
    if crate::ser::needs_quotes(t, false) {
        assert(token[0] == '"');
        lemma_run_len_is(input, CharClass::Numeric, 0);
    } else {
        assert(token =~= t);
        let run = run_len(input, CharClass::Numeric);
        lemma_run_len_bounds(input, CharClass::Numeric);
        assert forall|k: int| 0 <= k < t.len() implies !crate::ser::forces_quotes(
            #[trigger] t[k],
            false,
        ) by {}
        if has_other_than_numeric(t) {
            let k = choose|k: int| 0 <= k < t.len() && !in_class(CharClass::Numeric, #[trigger] t[k]);
            assert(input[k] == t[k]);
            assert(run <= k);
            assert(input[run as int] == t[run as int]);
            assert(!crate::ser::forces_quotes(t[run as int], false));
        } else {
            assert forall|k: int| 0 <= k < t.len() implies in_class(
                CharClass::Numeric,
                #[trigger] t[k],
            ) by {}
            lemma_run_of_token(t, next, CharClass::Numeric);
        }
    }
}

/// A plain member for which something is written is found at the head of
/// what skipping whitespace leaves of it: a flag by its name, any other by
/// its token, which is decoded to its value.
pub proof fn lemma_member(
    m: MemberView,
    fields: Seq<FieldShape>,
    i: nat,
    pretty: bool,
    lvl: nat,
    next: Seq<char>,
)
    requires
        plain_member(m, fields, i),
        lvl > 0,
        !is_silent(m),
        encode_field(m.value, Some(m.name), pretty, lvl) is Ok,
        ends_token(next),
        fields[i as int].shape is List && m.name.len() == 0 ==> next[0] == ')',
        fields[i as int].shape is Literal ==> literal_fits(m.value, next),
    ensures
        member_found(
            m,
            fields,
            i,
            skip_whitespace(encode_field(m.value, Some(m.name), pretty, lvl)->Ok_0 + next),
            next,
        ),
    decreases m, 1nat,
{
    let text = encode_field(m.value, Some(m.name), pretty, lvl)->Ok_0;
    let input = skip_whitespace(text + next);
    match fields[i as int].shape {
        Shape::List(inner) => {
            if m.name.len() == 0 {
                lemma_member_rest(m, fields, i, pretty, lvl, next);
            } else {
                lemma_member_list(m, fields, i, pretty, lvl, next);
            }
        },
        Shape::Tuple(_) => {
            lemma_member_tuple(m, fields, i, pretty, lvl, next);
        },
        Shape::Bool => {
            lemma_member_flag(m, fields, i, next);
        },
        Shape::Literal => {
            lemma_member_literal(m, fields, i, pretty, lvl, next);
        },
        Shape::Trial(inner) => {
            lemma_member_present(m, fields, i, pretty, lvl, next);
        },
        shape => {
            lemma_value(m.value, shape, Some(m.name), Some(m.name), pretty, lvl, next);
            if has_token(shape) {
                lemma_identifier_prefix(token_of(m.value), next);
            } else {
                lemma_run_len_is(input, CharClass::Identifier, 0);
            }
        },
    }
}

/// A name that is none of the names is none of those from any place on.
pub proof fn lemma_find_none(names: Seq<Seq<char>>, name: Seq<char>, from: nat, later: nat)
    requires
        find_name(names, name, from) is None,
        from <= later,
    ensures
        find_name(names, name, later) is None,
        forall|k: int| from <= k < names.len() ==> names[k] != name,
{
    crate::de::record::lemma_find_name(names, name, from);
    crate::de::record::lemma_find_name(names, name, later);
}

/// Among different names, a name is found at its place.
pub proof fn lemma_find_distinct(fields: Seq<FieldShape>, j: nat, from: nat)
    requires
        distinct_names(fields),
        from <= j < fields.len(),
    ensures
        find_name(field_names(fields), fields[j as int].name@, from) == Some(j),
{
    let names = field_names(fields);
    crate::de::record::lemma_find_name(names, fields[j as int].name@, from);
    assert(names[j as int] == fields[j as int].name@);
    match find_name(names, fields[j as int].name@, from) {
        Some(k) => {
            assert(names[k as int] == fields[k as int].name@);
        },
        None => {},
    }
}

/// What a silent member is decoded to where its field is passed over, and
/// what a flag is decoded to where its name was read.
pub proof fn lemma_missing(m: MemberView, fields: Seq<FieldShape>, i: nat, rest: Seq<char>)
    requires
        plain_member(m, fields, i),
        is_flag(m) || (is_silent(m) && !is_blank(m)),
    ensures
        is_flag(m) ==> crate::de::grammar::decode_from(Source::Flag, fields[i as int], rest) == done(
            m.value,
            rest,
        ),
        !is_flag(m) ==> crate::de::grammar::decode_from(Source::Missing, fields[i as int], rest)
            == done(m.value, rest),
        !is_flag(m) && fields[i as int].shape is Bool ==> crate::de::grammar::decode_from(
            Source::Field,
            fields[i as int],
            rest,
        ) == done(m.value, rest),
{
    let shape = fields[i as int].shape;
    if !is_flag(m) {
        lemma_silent(m, fields, i);
        if shape is Trial {
            let inner = *shape->Trial_0;
            let d = crate::de::grammar::decode_synthetic(inner, false, true, rest);
            assert(d.result is Err && !d.touched);
            assert(crate::de::grammar::decode_synthetic(shape, false, false, rest)
                == crate::de::grammar::trial(d));
        }
    }
}

/// An optional record is found absent where what stands there is no
/// expression of its name.
pub proof fn lemma_absent(shape: Shape, ident: Option<Seq<char>>, t: Seq<char>)
    requires
        shape is Trial,
        is_record(*shape->Trial_0),
        t.len() > 0,
        !is_ascii_whitespace(t[0]),
        peek_sexpr_identifier(t) != Ok::<Seq<char>, ErrorView>(record_name(*shape->Trial_0)),
    ensures
        decode_field(shape, ident, t) == done(ValueView::Absent, t),
{
    let inner = *shape->Trial_0;
    lemma_skip_separator(Seq::empty(), t);
    assert(Seq::<char>::empty() + t =~= t);
    let b = begin(record_name(inner), t);
    assert(b.result is Err && b.rest == t);
    let d = decode_field(inner, ident, t);
    assert(d.result is Err && !d.touched && d.rest == t);
    assert(decode_field(shape, ident, t) == crate::de::grammar::trial(d));
}

/// Decoding the members from one on is looking for the end of the record,
/// deciding where the member's value comes from, decoding it, looking for
/// the end again, and decoding those behind it.
pub proof fn lemma_step(
    fields: Seq<FieldShape>,
    i: nat,
    skip_to: SkipTo,
    s: Seq<char>,
    name: Seq<char>,
    acc: Seq<MemberView>,
)
    requires
        i < fields.len(),
        check_eoe(skip_to, s).result is Ok,
        check_eoe(skip_to, s).result->Ok_0 == SkipTo::Unset || fields[i as int].name@.len() > 0,
    ensures
        ({
            let first = check_eoe(skip_to, s);
            let chosen = choose_source(fields, i, first.result->Ok_0, first.rest);
            let d = crate::de::grammar::decode_from(chosen.source, fields[i as int], chosen.rest);
            let last = check_eoe(chosen.skip_to, d.rest);
            d.result is Ok && last.result is Ok ==> decode_members(
                fields,
                i,
                skip_to,
                s,
                name,
                acc,
                true,
            ) == decode_members(
                fields,
                i + 1,
                last.result->Ok_0,
                last.rest,
                name,
                acc.push(MemberView { name: fields[i as int].name@, value: d.result->Ok_0 }),
                true,
            )
        }),
{
    let first = check_eoe(skip_to, s);
    let skip = first.result->Ok_0;
    let key = next_key(fields, RecordState { index: i, skip_to: skip });
    assert(key == (RecordState { index: i, skip_to: skip }));
    assert(default_members(fields, i, i) =~= Seq::<MemberView>::empty());
    assert(acc + Seq::<MemberView>::empty() =~= acc);
    assert(crate::de::grammar::all_default(fields, i, i));
}

/// The member for which something is written next is found at the head
/// of what skipping whitespace leaves of what is written for the members.
pub proof fn lemma_loud(
    members: Seq<MemberView>,
    fields: Seq<FieldShape>,
    i: nat,
    pretty: bool,
    lvl: nat,
    tail: Seq<char>,
)
    requires
        plain_from(members, fields, i),
        i <= members.len(),
        lvl > 0,
        encode_members(members, i, pretty, lvl) is Ok,
        first_loud(members, i) < members.len(),
    ensures
        ({
            let j = first_loud(members, i);
            &&& encode_members(members, j + 1, pretty, lvl) is Ok
            &&& member_found(
                members[j as int],
                fields,
                j,
                skip_whitespace(behind(members, i, pretty, lvl, tail)),
                behind(members, j + 1, pretty, lvl, tail),
            )
        }),
    decreases members, 1nat,
{
    let j = first_loud(members, i);
    lemma_first_loud(members, fields, i, pretty, lvl, tail);
    lemma_members_unfold(members, j, pretty, lvl);
    let m = members[j as int];
    assert(plain_member(m, fields, j));
    let next = behind(members, j + 1, pretty, lvl, tail);
    lemma_members_start(members, fields, j + 1, pretty, lvl, tail);
    if fields[j as int].shape is List && m.name.len() == 0 {
        assert(j + 1 == members.len());
        assert(next =~= seq![')'] + tail);
    }
    if fields[j as int].shape is Literal {
        assert(literal_ok(members, fields, j));
        lemma_first_loud(members, fields, j + 1, pretty, lvl, tail);
        let following = first_loud(members, j + 1);
        if following < members.len() {
            lemma_members_unfold(members, following, pretty, lvl);
            assert(plain_member(members[following as int], fields, following));
            lemma_member_starts(members[following as int], fields, following, pretty, lvl);
            let text = encode_field(
                members[following as int].value,
                Some(members[following as int].name),
                pretty,
                lvl,
            )->Ok_0;
            assert(behind(members, following, pretty, lvl, tail)[0] == text[0]);
        }
    }
    lemma_member(m, fields, j, pretty, lvl, next);
    let text = encode_field(m.value, Some(m.name), pretty, lvl)->Ok_0;
    assert(behind(members, j, pretty, lvl, tail) =~= text + next);
}

/// What looking for the end of the record finds behind a member: the
/// closing parenthesis, if nothing is written for the members that are
/// left, and else the next of them.
pub proof fn lemma_next(
    members: Seq<MemberView>,
    fields: Seq<FieldShape>,
    i: nat,
    pretty: bool,
    lvl: nat,
    tail: Seq<char>,
    r: Seq<char>,
)
    requires
        plain_from(members, fields, i),
        i <= members.len(),
        lvl > 0,
        encode_members(members, i, pretty, lvl) is Ok,
        skip_whitespace(r) == skip_whitespace(behind(members, i, pretty, lvl, tail)),
    ensures
        all_silent(members, i) ==> check_eoe(SkipTo::Unset, r) == (Scanned::<SkipTo> {
            result: Ok(SkipTo::End),
            rest: tail,
        }),
        !all_silent(members, i) ==> check_eoe(SkipTo::Unset, r) == (Scanned::<SkipTo> {
            result: Ok(SkipTo::Unset),
            rest: skip_whitespace(r),
        }),
    decreases members, 2nat,
{
    lemma_first_loud(members, fields, i, pretty, lvl, tail);
    if first_loud(members, i) == members.len() {
        lemma_closed(tail, r);
    } else {
        lemma_loud(members, fields, i, pretty, lvl, tail);
    }
}

/// Where the closing parenthesis has been read and nothing is written for
/// the members that are left, each of them is decoded to what it is, and
/// the record is complete.
pub proof fn lemma_members_end(
    members: Seq<MemberView>,
    fields: Seq<FieldShape>,
    i: nat,
    tail: Seq<char>,
    s: Seq<char>,
    name: Seq<char>,
    acc: Seq<MemberView>,
)
    requires
        plain_from(members, fields, i),
        i <= members.len(),
        all_silent(members, i),
        skip_whitespace(s) == skip_whitespace(tail),
        s.len() <= tail.len(),
    ensures
        decodes_to(
            decode_members(fields, i, SkipTo::End, s, name, acc, true),
            ValueView::Struct(name, acc + members.skip(i as int)),
            tail,
        ),
    decreases members.len() - i,
{
    lemma_skip_whitespace(s);
    lemma_skip_whitespace(tail);
    let first = check_eoe(SkipTo::End, s);
    let rest = skip_whitespace(s);
    assert(first == (Scanned::<SkipTo> { result: Ok(SkipTo::End), rest }));
    if i == members.len() {
        let key = next_key(fields, RecordState { index: i, skip_to: SkipTo::End });
        assert(key.index == i);
        assert(default_members(fields, i, i) =~= Seq::<MemberView>::empty());
        assert(acc + Seq::<MemberView>::empty() =~= acc);
        assert(acc + members.skip(i as int) =~= acc);
    } else {
        let m = members[i as int];
        assert(plain_member(m, fields, i));
        assert(is_silent(m));
        if is_blank(m) {
            let key = next_key(fields, RecordState { index: i, skip_to: SkipTo::End });
            assert(fields[i as int].name@.len() == 0);
            assert(i + 1 == members.len());
            assert(next_key(fields, RecordState { index: i + 1, skip_to: SkipTo::End }).index == i
                + 1);
            assert(key.index == i + 1);
            assert(default_members(fields, i + 1, i + 1) =~= Seq::<MemberView>::empty());
            assert(m.value->List_0 =~= Seq::<ValueView>::empty());
            assert(default_members(fields, i, i + 1) =~= seq![m]);
            assert(acc + seq![m] =~= acc + members.skip(i as int));
        } else {
            lemma_silent(m, fields, i);
            lemma_missing(m, fields, i, rest);
            lemma_step(fields, i, SkipTo::End, s, name, acc);
            lemma_skip_whitespace(rest);
            let grown = acc.push(MemberView { name: fields[i as int].name@, value: m.value });
            assert(grown + members.skip(i as int + 1) =~= acc + members.skip(i as int));
            lemma_members_end(members, fields, i + 1, tail, rest, name, grown);
        }
    }
}

/// What follows a member that was decoded is decoded to the members that
/// are left.
pub proof fn lemma_members_on(
    members: Seq<MemberView>,
    fields: Seq<FieldShape>,
    i: nat,
    pretty: bool,
    lvl: nat,
    tail: Seq<char>,
    r: Seq<char>,
    name: Seq<char>,
    acc: Seq<MemberView>,
)
    requires
        plain_from(members, fields, i),
        i <= members.len(),
        lvl > 0,
        encode_members(members, i, pretty, lvl) is Ok,
        skip_whitespace(r) == skip_whitespace(behind(members, i, pretty, lvl, tail)),
    ensures
        ({
            let last = check_eoe(SkipTo::Unset, r);
            &&& last.result is Ok
            &&& decodes_to(
                decode_members(fields, i, last.result->Ok_0, last.rest, name, acc, true),
                ValueView::Struct(name, acc + members.skip(i as int)),
                tail,
            )
        }),
    decreases members, members.len() - i + 3, 2nat,
{
    lemma_next(members, fields, i, pretty, lvl, tail, r);
    lemma_skip_whitespace(r);
    if all_silent(members, i) {
        lemma_members_end(members, fields, i, tail, tail, name, acc);
    } else {
        lemma_members(members, fields, i, pretty, lvl, tail, skip_whitespace(r), name, acc);
    }
}

/// Where fields are passed over up to a flag whose name was read, the
/// members before the flag are silent and decoded to what they are, the
/// flag is set, and what follows it is decoded to the members that are
/// left.
pub proof fn lemma_members_skip(
    members: Seq<MemberView>,
    fields: Seq<FieldShape>,
    i: nat,
    j: nat,
    pretty: bool,
    lvl: nat,
    tail: Seq<char>,
    s: Seq<char>,
    name: Seq<char>,
    acc: Seq<MemberView>,
)
    requires
        plain_from(members, fields, i),
        i <= j < members.len(),
        lvl > 0,
        forall|k: int| i <= k < j ==> is_silent(#[trigger] members[k]),
        is_flag(members[j as int]),
        encode_members(members, j + 1, pretty, lvl) is Ok,
        skip_whitespace(s) == skip_whitespace(behind(members, j + 1, pretty, lvl, tail)),
    ensures
        decodes_to(
            decode_members(fields, i, SkipTo::Field(j as usize), s, name, acc, true),
            ValueView::Struct(name, acc + members.skip(i as int)),
            tail,
        ),
    decreases members, members.len() - i + 3, 0nat,
{
    let m = members[i as int];
    assert(plain_member(m, fields, i));
    lemma_skip_whitespace(s);
    let rest = skip_whitespace(s);
    let first = check_eoe(SkipTo::Field(j as usize), s);
    assert(first == (Scanned::<SkipTo> { result: Ok(SkipTo::Field(j as usize)), rest }));
    if i < j {
        assert(is_silent(m));
        assert(!is_blank(m));
    }
    assert(m.name.len() > 0) by {
        if i < j {
            lemma_silent(m, fields, i);
        }
    }
    lemma_missing(m, fields, i, rest);
    lemma_step(fields, i, SkipTo::Field(j as usize), s, name, acc);
    let grown = acc.push(MemberView { name: fields[i as int].name@, value: m.value });
    assert(grown + members.skip(i as int + 1) =~= acc + members.skip(i as int));
    lemma_skip_whitespace(rest);
    if i < j {
        lemma_members_skip(members, fields, i + 1, j, pretty, lvl, tail, rest, name, grown);
    } else {
        lemma_members_on(members, fields, j + 1, pretty, lvl, tail, rest, name, grown);
    }
}

/// Plain members that were written one after the other inside an
/// expression are decoded to the record of these members; the closing
/// parenthesis is read.
pub proof fn lemma_members(
    members: Seq<MemberView>,
    fields: Seq<FieldShape>,
    i: nat,
    pretty: bool,
    lvl: nat,
    tail: Seq<char>,
    s: Seq<char>,
    name: Seq<char>,
    acc: Seq<MemberView>,
)
    requires
        plain_from(members, fields, i),
        i <= members.len(),
        lvl > 0,
        encode_members(members, i, pretty, lvl) is Ok,
        skip_whitespace(s) == skip_whitespace(behind(members, i, pretty, lvl, tail)),
    ensures
        decodes_to(
            decode_members(fields, i, SkipTo::Unset, s, name, acc, true),
            ValueView::Struct(name, acc + members.skip(i as int)),
            tail,
        ),
    decreases members, members.len() - i + 3, 1nat,
{
    lemma_first_loud(members, fields, i, pretty, lvl, tail);
    let j = first_loud(members, i);
    if j == members.len() {
        lemma_members_closed(members, fields, i, pretty, lvl, tail, s, name, acc);
    } else if j == i {
        lemma_members_loud(members, fields, i, pretty, lvl, tail, s, name, acc);
    } else {
        lemma_members_silent(members, fields, i, pretty, lvl, tail, s, name, acc);
    }
}

/// The case that nothing is written for the members that are left: the
/// closing parenthesis is read, and each of them is decoded to what it is.
pub proof fn lemma_members_closed(
    members: Seq<MemberView>,
    fields: Seq<FieldShape>,
    i: nat,
    pretty: bool,
    lvl: nat,
    tail: Seq<char>,
    s: Seq<char>,
    name: Seq<char>,
    acc: Seq<MemberView>,
)
    requires
        plain_from(members, fields, i),
        i <= members.len(),
        lvl > 0,
        encode_members(members, i, pretty, lvl) is Ok,
        skip_whitespace(s) == skip_whitespace(behind(members, i, pretty, lvl, tail)),
        all_silent(members, i),
    ensures
        decodes_to(
            decode_members(fields, i, SkipTo::Unset, s, name, acc, true),
            ValueView::Struct(name, acc + members.skip(i as int)),
            tail,
        ),
    decreases members, members.len() - i + 3, 0nat,
{
    lemma_next(members, fields, i, pretty, lvl, tail, s);
    lemma_skip_whitespace(tail);
    let first = check_eoe(SkipTo::Unset, s);
    if i == members.len() {
        let key = next_key(fields, RecordState { index: i, skip_to: SkipTo::End });
        assert(key.index == i);
        assert(default_members(fields, i, i) =~= Seq::<MemberView>::empty());
        assert(acc + Seq::<MemberView>::empty() =~= acc);
        assert(acc + members.skip(i as int) =~= acc);
    } else {
        let m = members[i as int];
        assert(plain_member(m, fields, i));
        assert(is_silent(m));
        if is_blank(m) {
            assert(i + 1 == members.len());
            let key = next_key(fields, RecordState { index: i, skip_to: SkipTo::End });
            assert(fields[i as int].name@.len() == 0);
            assert(next_key(fields, RecordState { index: i + 1, skip_to: SkipTo::End }).index == i
                + 1);
            assert(key.index == i + 1);
            assert(default_members(fields, i + 1, i + 1) =~= Seq::<MemberView>::empty());
            assert(m.value->List_0 =~= Seq::<ValueView>::empty());
            assert(default_members(fields, i, i + 1) =~= seq![m]);
            assert(acc + seq![m] =~= acc + members.skip(i as int));
        } else {
            let grown = acc.push(MemberView { name: fields[i as int].name@, value: m.value });
            assert(grown + members.skip(i as int + 1) =~= acc + members.skip(i as int));
            lemma_silent(m, fields, i);
            lemma_missing(m, fields, i, tail);
            lemma_step(fields, i, SkipTo::Unset, s, name, acc);
            assert forall|k: int| i + 1 <= k < members.len() implies is_silent(
                #[trigger] members[k],
            ) by {}
            lemma_members_end(members, fields, i + 1, tail, skip_whitespace(tail), name, grown);
        }
    }
}

/// The case that something is written for the first of the members: it is
/// decoded, and so are those behind it.
pub proof fn lemma_members_loud(
    members: Seq<MemberView>,
    fields: Seq<FieldShape>,
    i: nat,
    pretty: bool,
    lvl: nat,
    tail: Seq<char>,
    s: Seq<char>,
    name: Seq<char>,
    acc: Seq<MemberView>,
)
    requires
        plain_from(members, fields, i),
        i < members.len(),
        lvl > 0,
        encode_members(members, i, pretty, lvl) is Ok,
        skip_whitespace(s) == skip_whitespace(behind(members, i, pretty, lvl, tail)),
        first_loud(members, i) == i,
    ensures
        decodes_to(
            decode_members(fields, i, SkipTo::Unset, s, name, acc, true),
            ValueView::Struct(name, acc + members.skip(i as int)),
            tail,
        ),
    decreases members, members.len() - i + 3, 0nat,
{
    let names = field_names(fields);
    lemma_first_loud(members, fields, i, pretty, lvl, tail);
    lemma_next(members, fields, i, pretty, lvl, tail, s);
    lemma_loud(members, fields, i, pretty, lvl, tail);
    let m = members[i as int];
    assert(plain_member(m, fields, i));
    assert(names[i as int] == fields[i as int].name@);
    let grown = acc.push(MemberView { name: fields[i as int].name@, value: m.value });
    assert(grown + members.skip(i as int + 1) =~= acc + members.skip(i as int));
    let input = skip_whitespace(s);
    let next = behind(members, i + 1, pretty, lvl, tail);
    lemma_step(fields, i, SkipTo::Unset, s, name, acc);
    if is_flag(m) {
        lemma_missing(m, fields, i, next);
        lemma_members_on(members, fields, i + 1, pretty, lvl, tail, next, name, grown);
    } else {
        if peek_identifier(input) is Some {
            lemma_find_none(names, peek_identifier(input)->0, 0, i + 1);
        }
        let d = decode_field(fields[i as int].shape, Some(fields[i as int].name@), input);
        lemma_members_on(members, fields, i + 1, pretty, lvl, tail, d.rest, name, grown);
    }
}

/// The case that nothing is written for the first of the members, but
/// something for a later one: the first is found not set or absent, and
/// those behind it are decoded.
pub proof fn lemma_members_silent(
    members: Seq<MemberView>,
    fields: Seq<FieldShape>,
    i: nat,
    pretty: bool,
    lvl: nat,
    tail: Seq<char>,
    s: Seq<char>,
    name: Seq<char>,
    acc: Seq<MemberView>,
)
    requires
        plain_from(members, fields, i),
        i < members.len(),
        lvl > 0,
        encode_members(members, i, pretty, lvl) is Ok,
        skip_whitespace(s) == skip_whitespace(behind(members, i, pretty, lvl, tail)),
        i < first_loud(members, i) < members.len(),
    ensures
        decodes_to(
            decode_members(fields, i, SkipTo::Unset, s, name, acc, true),
            ValueView::Struct(name, acc + members.skip(i as int)),
            tail,
        ),
    decreases members, members.len() - i + 3, 0nat,
{
    let names = field_names(fields);
    lemma_first_loud(members, fields, i, pretty, lvl, tail);
    lemma_next(members, fields, i, pretty, lvl, tail, s);
    lemma_loud(members, fields, i, pretty, lvl, tail);
    let j = first_loud(members, i);
    let m = members[i as int];
    let loud = members[j as int];
    assert(plain_member(m, fields, i));
    assert(plain_member(loud, fields, j));
    assert(names[i as int] == fields[i as int].name@);
    assert(names[j as int] == fields[j as int].name@);
    assert(is_silent(m));
    assert(!is_blank(m));
    lemma_silent(m, fields, i);
    let grown = acc.push(MemberView { name: fields[i as int].name@, value: m.value });
    assert(grown + members.skip(i as int + 1) =~= acc + members.skip(i as int));
    let input = skip_whitespace(s);
    let next = behind(members, j + 1, pretty, lvl, tail);
    lemma_step(fields, i, SkipTo::Unset, s, name, acc);
    lemma_skip_whitespace(s);
    lemma_skip_whitespace(input);
    if is_flag(loud) {
        lemma_find_distinct(fields, j, i + 1);
        lemma_missing(m, fields, i, next);
        lemma_skip_whitespace(next);
        assert forall|k: int| i + 1 <= k < j implies is_silent(#[trigger] members[k]) by {}
        lemma_members_skip(
            members,
            fields,
            i + 1,
            j,
            pretty,
            lvl,
            tail,
            skip_whitespace(next),
            name,
            grown,
        );
    } else {
        if peek_identifier(input) is Some {
            lemma_find_none(names, peek_identifier(input)->0, 0, i + 1);
        }
        lemma_missing(m, fields, i, input);
        if fields[i as int].shape is Trial {
            assert(absent_ok(members, fields, i));
            assert(!is_silent(loud));
            assert(!all_silent(members, i + 1));
            assert(member_head(loud) != Some(record_name(*fields[i as int].shape->Trial_0)));
            lemma_absent(fields[i as int].shape, Some(fields[i as int].name@), input);
        }
        lemma_members_unfold(members, i, pretty, lvl);
        lemma_member_starts(m, fields, i, pretty, lvl);
        let text = encode_field(m.value, Some(m.name), pretty, lvl)->Ok_0;
        assert(text =~= Seq::<char>::empty());
        assert(behind(members, i + 1, pretty, lvl, tail) =~= behind(members, i, pretty, lvl, tail));
        lemma_members_on(members, fields, i + 1, pretty, lvl, tail, input, name, grown);
    }
}

/// Whether a shape is a record.
pub open spec fn is_record(s: Shape) -> bool {
    s is UnitStruct || s is NewtypeStruct || s is TupleStruct || s is Struct
}

/// What is written for a plain record at root level begins with its
/// opening parenthesis.
pub proof fn lemma_root_text(v: ValueView, s: Shape, pretty: bool)
    requires
        plain(v, s),
        is_record(s),
        encode_root(v, pretty, 0) is Ok,
    ensures
        encode_root(v, pretty, 0) == encode_field(v, None, pretty, 0),
        encode_root(v, pretty, 0)->Ok_0.len() > 0,
        encode_root(v, pretty, 0)->Ok_0[0] == '(',
        skip_whitespace(encode_root(v, pretty, 0)->Ok_0) == encode_root(v, pretty, 0)->Ok_0,
{
    let text = encode_root(v, pretty, 0)->Ok_0;
    let n = record_name(s);
    assert(begin_text(n, pretty, 0) =~= seq!['('] + n);
    assert(text[0] == begin_text(n, pretty, 0)[0]);
    lemma_skip_separator(Seq::empty(), text);
    assert(Seq::<char>::empty() + text =~= text);
}

/// Decoding what was encoded gives the value back: for every plain record,
/// written on one line or indented, the text that the encoder writes is
/// decoded by the record's shape to the record, and nothing is left.
pub proof fn lemma_round_trip(v: ValueView, shape: Shape, pretty: bool)
    requires
        plain(v, shape),
        is_record(shape) || shape is Untagged,
        encode_root(v, pretty, 0) is Ok,
    ensures
        decode_root(shape, encode_root(v, pretty, 0)->Ok_0) == done(v, Seq::empty()),
    decreases v,
{
    let text = encode_root(v, pretty, 0)->Ok_0;
    let empty = Seq::<char>::empty();
    lemma_skip_whitespace(empty);
    assert(skip_whitespace(empty) =~= empty);
    if shape is Untagged {
        let candidates = shape->Untagged_0@;
        let k = v->Untagged_0;
        let b = *v->Untagged_1;
        let chosen = candidates[k as int];
        assert(encode_root(v, pretty, 0) == encode_root(b, pretty, 0));
        lemma_round_trip(b, chosen, pretty);
        lemma_head(b, chosen);
        lemma_root_text(b, chosen, pretty);
        assert(text + empty =~= text);
        lemma_value(b, chosen, None, None, pretty, 0, empty);
        let names = crate::private::head_names(candidates, 0)->Ok_0;
        assert(crate::de::grammar::root_untagged(candidates, names, text)
            == crate::de::grammar::untagged(k, decode_root(chosen, text)));
        assert(v == ValueView::Untagged(k, Box::new(b)));
    } else {
        assert(encode_root(v, pretty, 0) == encode_field(v, None, pretty, 0));
        assert(text + empty =~= text);
        lemma_value(v, shape, None, None, pretty, 0, empty);
        let input = skip_whitespace(text);
        lemma_skip_whitespace(text);
        let d = decode_field(shape, None, input);
        assert(decodes_to(d, v, empty));
        assert(skip_whitespace(d.rest) =~= empty);
        match shape {
            Shape::UnitStruct(n) => {
                assert(unit_struct(n@, text) == unit_struct(n@, input));
            },
            Shape::NewtypeStruct(n, inner) => {
                assert(begin(n@, text) == begin(n@, input));
            },
            Shape::TupleStruct(n, shapes) => {
                assert(begin(n@, text) == begin(n@, input));
            },
            Shape::Struct(n, fields) => {
                assert(begin(n@, text) == begin(n@, input));
            },
            _ => {},
        }
    }
}

/// Plain records of one shape that are written alike are the same: the
/// text of a record tells what the record is.
pub proof fn lemma_text_tells_value(a: ValueView, b: ValueView, shape: Shape, pretty: bool)
    requires
        plain(a, shape),
        plain(b, shape),
        is_record(shape) || shape is Untagged,
        encode_root(a, pretty, 0) is Ok,
        encode_root(a, pretty, 0) == encode_root(b, pretty, 0),
    ensures
        a == b,
{
    lemma_round_trip(a, shape, pretty);
    lemma_round_trip(b, shape, pretty);
}

/// A plain record is decoded to the same from its text on one line and
/// from its indented text.
pub proof fn lemma_layout_is_free(v: ValueView, shape: Shape)
    requires
        plain(v, shape),
        is_record(shape) || shape is Untagged,
        encode_root(v, false, 0) is Ok,
        encode_root(v, true, 0) is Ok,
    ensures
        decode_root(shape, encode_root(v, false, 0)->Ok_0) == decode_root(
            shape,
            encode_root(v, true, 0)->Ok_0,
        ),
{
    lemma_round_trip(v, shape, false);
    lemma_round_trip(v, shape, true);
}

} // verus!
