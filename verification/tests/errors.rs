use sexpr_codec::de::{Deserializer, Error};
use sexpr_codec::{
    from_str, FieldShape, IntKind, NumberKind, OptionDef, Shape, Value, VariantBody, VariantShape,
};

fn s(text: &str) -> String {
    text.to_owned()
}

fn field(name: &str, shape: Shape) -> FieldShape {
    FieldShape { name: s(name), shape }
}

fn holder(shape: Shape) -> Shape {
    Shape::NewtypeStruct(s("h"), Box::new(shape))
}

fn record(name: &str, shape: Shape) -> Shape {
    Shape::Struct(s("r"), vec![field(name, shape)])
}

#[test]
fn expected_struct_at_root() {
    for shape in [
        Shape::Bool,
        Shape::Int(IntKind::U8),
        Shape::Float,
        Shape::Str,
        Shape::Unit,
        Shape::Optional(Box::new(Shape::Str)),
        Shape::List(Box::new(Shape::Str)),
        Shape::Tuple(vec![]),
        Shape::Any,
        Shape::Literal,
    ] {
        assert_eq!(from_str("(a)", &shape), Err(Error::ExpectedStruct));
    }
}

#[test]
fn eof() {
    assert_eq!(from_str("", &Shape::UnitStruct(s("a"))), Err(Error::Eof));
    assert_eq!(from_str("(a", &Shape::UnitStruct(s("a"))), Err(Error::Eof));
    assert_eq!(from_str("(h 1", &holder(Shape::Int(IntKind::U8))), Err(Error::Eof));
    assert_eq!(from_str("(r 1", &record("n", Shape::Int(IntKind::U8))), Err(Error::Eof));
    assert_eq!(from_str("(h \"abc", &holder(Shape::Str)), Err(Error::Eof));
}

#[test]
fn expected_sexpr() {
    assert_eq!(from_str("a)", &Shape::UnitStruct(s("a"))), Err(Error::ExpectedSExpr('a')));
    assert_eq!(
        from_str("(h 1)", &holder(Shape::UnitStruct(s("a")))),
        Err(Error::ExpectedSExpr('1'))
    );
}

#[test]
fn expected_sexpr_identifier() {
    assert_eq!(
        from_str("(b)", &Shape::UnitStruct(s("a"))),
        Err(Error::ExpectedSExprIdentifier(s("a"), s("b")))
    );
    assert_eq!(
        from_str("(ab)", &Shape::UnitStruct(s("a"))),
        Err(Error::ExpectedSExprIdentifier(s("a"), s("ab")))
    );
}

#[test]
fn expected_identifier() {
    assert_eq!(from_str("()", &Shape::UnitStruct(s("a"))), Err(Error::ExpectedIdentifier));
    assert_eq!(from_str("(1)", &Shape::UnitStruct(s("a"))), Err(Error::ExpectedIdentifier));
}

#[test]
fn expected_eoe() {
    assert_eq!(from_str("(a b)", &Shape::UnitStruct(s("a"))), Err(Error::ExpectedEoe));
    assert_eq!(from_str("(a )", &Shape::UnitStruct(s("a"))), Err(Error::ExpectedEoe));
}

#[test]
fn expected_number() {
    assert_eq!(from_str("(h )", &holder(Shape::Int(IntKind::U8))), Err(Error::Message(s("invalid length"))));
    let shape = Shape::Struct(
        s("r"),
        vec![field("", Shape::Tuple(vec![Shape::Int(IntKind::U8)]))],
    );
    assert_eq!(from_str("(r 1)", &shape).is_ok(), true);
    let shape = Shape::TupleStruct(s("t"), vec![Shape::Str, Shape::Float]);
    assert_eq!(from_str("(t \"a\"\t)", &shape), Err(Error::Message(s("invalid length"))));
}

#[test]
fn expected_number_where_the_input_has_none() {
    let mut de = Deserializer::from_str(") rest");
    assert_eq!(de.parse_number(NumberKind::Float), Err(Error::ExpectedNumber));
    assert_eq!(de.remaining(), ") rest");
}

#[test]
fn expected_string() {
    assert_eq!(from_str("(h (a))", &holder(Shape::Str)), Err(Error::ExpectedString));
}

#[test]
fn unsupported_option_here() {
    let shape = record("o", Shape::Optional(Box::new(Shape::Int(IntKind::U8))));
    assert_eq!(from_str("(r 1)", &shape), Err(Error::UnsupportedOptionHere));
    // where the record has ended, the value is absent
    assert_eq!(
        from_str("(r)", &shape),
        Ok(Value::Struct(
            s("r"),
            vec![sexpr_codec::Member { name: s("o"), value: Value::Absent }]
        ))
    );
    assert_eq!(
        from_str("(h 1)", &holder(Shape::Optional(Box::new(Shape::Str)))),
        Err(Error::UnsupportedOptionHere)
    );
}

#[test]
fn unnamed_boolean() {
    assert_eq!(from_str("(h x)", &holder(Shape::Bool)), Err(Error::UnnamedBoolean));
    let shape = record("flags", Shape::List(Box::new(Shape::Bool)));
    assert_eq!(from_str("(r (flags a))", &shape), Err(Error::UnnamedBoolean));
    assert_eq!(
        from_str("(h x)", &holder(OptionDef::shape(Shape::Bool))),
        Err(Error::UnnamedBoolean)
    );
}

#[test]
fn missing_sexpr_info() {
    assert_eq!(
        from_str("(h (items 1 2))", &holder(Shape::List(Box::new(Shape::Int(IntKind::U8))))),
        Err(Error::MissingSExprInfo(s("items")))
    );
    assert_eq!(from_str("(h (u))", &holder(Shape::Unit)), Err(Error::MissingSExprInfo(s("u"))));
    assert_eq!(from_str("(h (u))", &holder(Shape::Any)), Err(Error::MissingSExprInfo(s("u"))));
    assert_eq!(from_str("(h 1)", &holder(Shape::Unit)), Err(Error::ExpectedSExpr('1')));
}

#[test]
fn enum_variant_errors() {
    let shape = Shape::Enum(vec![
        VariantShape { name: s("unit"), body: VariantBody::Unit },
        VariantShape { name: s("wrap"), body: VariantBody::Newtype(Box::new(Shape::UnitStruct(s("wrap")))) },
        VariantShape { name: s("many"), body: VariantBody::Fields },
    ]);
    assert_eq!(from_str("(unit)", &shape), Err(Error::NonNewtypeEnumVariant));
    assert_eq!(from_str("(many 1 2)", &shape), Err(Error::NonNewtypeEnumVariant));
    assert_eq!(
        from_str("(wrap)", &shape),
        Ok(Value::NewtypeVariant(s("wrap"), Box::new(Value::UnitStruct(s("wrap")))))
    );
    assert_eq!(from_str(" (wrap)", &shape), Err(Error::ExpectedSExpr(' ')));
    let h = holder(Shape::Enum(vec![
        VariantShape { name: s("unit"), body: VariantBody::Unit },
        VariantShape { name: s("wrap"), body: VariantBody::Newtype(Box::new(Shape::UnitStruct(s("wrap")))) },
        VariantShape { name: s("many"), body: VariantBody::Fields },
    ]));
    assert_eq!(from_str("(h wrap)", &h), Err(Error::NonUnitEnumVariant));
    assert_eq!(from_str("(h many)", &h), Err(Error::NonUnitEnumVariant));
    assert_eq!(from_str("(h (unit))", &h), Err(Error::NonNewtypeEnumVariant));
    assert_eq!(
        from_str("(h other)", &h),
        Err(Error::Message(s(
            "unknown variant `other`, expected one of [\"unit\", \"wrap\", \"many\"]"
        )))
    );
    assert_eq!(
        from_str("(h 3 )", &h),
        Err(Error::Message(s("invalid value: variant index out of range")))
    );
    assert_eq!(
        from_str("(h -1 )", &h),
        Err(Error::Message(s("invalid type: expected variant identifier")))
    );
    assert_eq!(
        from_str("(h 1.5 )", &h),
        Err(Error::Message(s("invalid type: expected variant identifier")))
    );
}

#[test]
fn untagged_in_a_field() {
    let shape = holder(Shape::Untagged(vec![
        Shape::UnitStruct(s("foo")),
        Shape::NewtypeStruct(s("bar"), Box::new(Shape::Int(IntKind::U8))),
    ]));
    assert_eq!(
        from_str("(h (bar 5))", &shape),
        Ok(Value::NewtypeStruct(
            s("h"),
            Box::new(Value::Untagged(
                1,
                Box::new(Value::NewtypeStruct(s("bar"), Box::new(Value::UInt(5))))
            ))
        ))
    );
    assert_eq!(from_str("(h foo)", &shape), Err(Error::NonUnitEnumVariant));
    assert_eq!(
        from_str("(h baz)", &shape),
        Err(Error::Message(s(
            "invalid value: baz, expected any s-expr with a name in [\"foo\", \"bar\"]"
        )))
    );
}

#[test]
fn a_trial_hides_a_failure_before_the_value_only() {
    // the known limit: a last value that cannot be decoded is taken as absent,
    // and what is left is reported instead
    let shape = Shape::Struct(
        s("at"),
        vec![field("x", Shape::Float), field("rot", OptionDef::shape(Shape::Int(IntKind::I16)))],
    );
    assert_eq!(from_str("(at 1 99999)", &shape), Err(Error::TrailingTokens));
    // once the expression of the value is open, its failures stand
    let inner = Shape::NewtypeStruct(s("w"), Box::new(Shape::Int(IntKind::U8)));
    let shape = Shape::Struct(s("r"), vec![field("w", OptionDef::shape(inner))]);
    assert_eq!(
        from_str("(r (w 300))", &shape),
        Err(Error::Message(s("number too large to fit in target type")))
    );
    assert_eq!(
        from_str("(r (v 300))", &shape),
        Err(Error::TrailingTokens)
    );
}

#[test]
fn an_element_decoded_from_nothing_ends_the_decode() {
    let shape = Shape::Struct(
        s("r"),
        vec![field("items", Shape::List(Box::new(OptionDef::shape(Shape::Int(IntKind::U8)))))],
    );
    assert_eq!(
        from_str("(r (items 1 x))", &shape),
        Err(Error::Message(s("sequence element consumed no input")))
    );
}

#[test]
fn a_field_without_a_name_must_have_a_default_when_passed_over() {
    let shape = Shape::Struct(s("r"), vec![field("", Shape::Tuple(vec![]))]);
    assert_eq!(from_str("(r)", &shape), Err(Error::Message(s("missing field ``"))));
}

#[test]
fn messages() {
    assert_eq!(Error::Eof.to_string(), "Unexpected end of input");
    assert_eq!(Error::ExpectedSExpr('x').to_string(), "Expected s-expr, found token 'x'");
    assert_eq!(
        Error::ExpectedSExprIdentifier(s("a"), s("b")).to_string(),
        "Expected s-expr identifier a, found b"
    );
    assert_eq!(Error::MissingSExprInfo(s("pad")).to_string(), "Missing s-expr type info for pad");
    assert_eq!(Error::custom("boom"), Error::Message(s("boom")));
    assert_eq!(Error::custom("boom").to_string(), "boom");
    assert_eq!(Error::TrailingTokens.to_string(), "Trailing tokens");
    assert_eq!(Error::ExpectedStruct.to_string(), "Expected to deserialize a struct at root level");
    assert_eq!(Error::ExpectedEoe.to_string(), "Expected end of expression");
    assert_eq!(Error::ExpectedIdentifier.to_string(), "Expected identifier");
    assert_eq!(Error::ExpectedNumber.to_string(), "Expected number");
    assert_eq!(Error::ExpectedString.to_string(), "Expected string");
    assert_eq!(Error::UnnamedBoolean.to_string(), "Unnamed boolean");
}
