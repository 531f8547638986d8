use sexpr_codec::ser::{Error, Serializer};
use sexpr_codec::{from_str, to_string, to_string_pretty, Literal, Member, Shape, Value};

fn s(text: &str) -> String {
    text.to_owned()
}

fn member(name: &str, value: Value) -> Member {
    Member { name: s(name), value }
}

fn float(text: &str) -> Value {
    Value::Float(s(text))
}

fn record(name: &str, value: Value) -> Value {
    Value::Struct(s("r"), vec![member(name, value)])
}

fn pad(index: u128) -> Value {
    Value::Struct(
        s("pad"),
        vec![
            member("index", Value::UInt(index)),
            member("ty", Value::UnitVariant(s("smd"))),
            member("shape", Value::UnitVariant(s("rect"))),
            member(
                "at",
                Value::Struct(
                    s("at"),
                    vec![
                        member("x", float("0")),
                        member("y", float("0")),
                        member("rot", Value::Absent),
                    ],
                ),
            ),
            member(
                "size",
                Value::Struct(
                    s("size"),
                    vec![member("width", float("1.27")), member("height", float("1.27"))],
                ),
            ),
            member("drill", Value::Absent),
            member("layers", Value::List(vec![Value::Str(s("F Cu"))])),
        ],
    )
}

#[test]
fn test_serialize_ugly_locked() {
    assert_eq!(to_string(&Value::UnitStruct(s("locked"))).unwrap(), "(locked)");
    assert_eq!(to_string_pretty(&Value::UnitStruct(s("locked"))).unwrap(), "(locked)");
}

#[test]
fn test_serialize_ugly_attr() {
    let value = Value::NewtypeStruct(s("attr"), Box::new(Value::Str(s("smd"))));
    assert_eq!(to_string(&value).unwrap(), "(attr smd)");
}

#[test]
fn test_serialize_ugly_descr() {
    let text = r#"Hello "World", this "\" is an amazing backspace! \"#;
    let value = Value::NewtypeStruct(s("descr"), Box::new(Value::Str(s(text))));
    let expected = r#"(descr "Hello \"World\", this \"\\\" is an amazing backspace! \\")"#;
    assert_eq!(to_string(&value).unwrap(), expected);
    assert_eq!(to_string_pretty(&value).unwrap(), expected);
    let shape = Shape::NewtypeStruct(s("descr"), Box::new(Shape::Str));
    assert_eq!(from_str(expected, &shape), Ok(value));
}

#[test]
fn test_serialize_ugly_position() {
    let value = Value::Struct(
        s("at"),
        vec![
            member("x", float("1.23")),
            member("y", float("-4.56")),
            member("rot", Value::Present(Box::new(Value::Int(-90)))),
        ],
    );
    assert_eq!(to_string(&value).unwrap(), "(at 1.23 -4.56 -90)");
    let value = Value::Struct(
        s("at"),
        vec![member("x", float("1.23")), member("y", float("-4.56")), member("rot", Value::Absent)],
    );
    assert_eq!(to_string(&value).unwrap(), "(at 1.23 -4.56)");
}

#[test]
fn flags_are_written_as_their_name_or_not_at_all() {
    let drill = |oval: bool| {
        Value::Struct(
            s("drill"),
            vec![member("oval", Value::Bool(oval)), member("drill1", float("0.635"))],
        )
    };
    assert_eq!(to_string(&drill(true)).unwrap(), "(drill oval 0.635)");
    assert_eq!(to_string(&drill(false)).unwrap(), "(drill 0.635)");
}

#[test]
fn test_serialize_ugly_pad() {
    assert_eq!(
        to_string(&pad(1)).unwrap(),
        r#"(pad 1 smd rect (at 0 0) (size 1.27 1.27) (layers "F Cu"))"#
    );
}

#[test]
fn test_serialize_pretty_pad() {
    assert_eq!(
        to_string_pretty(&pad(1)).unwrap(),
        "(pad 1 smd rect\n  (at 0 0)\n  (size 1.27 1.27)\n  (layers \"F Cu\"))"
    );
}

#[test]
fn test_serialize_pretty_footprint_with_two_pads() {
    let value = Value::Struct(
        s("footprint"),
        vec![
            member("library_link", Value::Str(s("Capacitor SMD"))),
            member("", Value::List(vec![pad(1), pad(2)])),
        ],
    );
    assert_eq!(
        to_string_pretty(&value).unwrap(),
        "(footprint \"Capacitor SMD\"\n  (pad 1 smd rect\n    (at 0 0)\n    (size 1.27 1.27)\n    (layers \"F Cu\"))\n  (pad 2 smd rect\n    (at 0 0)\n    (size 1.27 1.27)\n    (layers \"F Cu\")))"
    );
    assert_eq!(
        to_string(&value).unwrap(),
        "(footprint \"Capacitor SMD\" (pad 1 smd rect (at 0 0) (size 1.27 1.27) (layers \"F Cu\")) (pad 2 smd rect (at 0 0) (size 1.27 1.27) (layers \"F Cu\")))"
    );
}

#[test]
fn strings_are_quoted_where_they_need_it() {
    let text = |t: &str| to_string(&Value::NewtypeStruct(s("a"), Box::new(Value::Str(s(t))))).unwrap();
    assert_eq!(text(""), "(a \"\")");
    assert_eq!(text("F.Cu"), "(a F.Cu)");
    assert_eq!(text("a b"), "(a \"a b\")");
    assert_eq!(text("a\tb"), "(a \"a\tb\")");
    assert_eq!(text("a\nb"), "(a \"a\nb\")");
    assert_eq!(text("a\u{c}b"), "(a \"a\u{c}b\")");
    assert_eq!(text("a(b"), "(a \"a(b\")");
    assert_eq!(text("a)b"), "(a \"a)b\")");
    assert_eq!(text("a\"b"), "(a \"a\\\"b\")");
    assert_eq!(text("a\\b"), "(a a\\b)");
    assert_eq!(text("a\\ b"), "(a \"a\\\\ b\")");
}

#[test]
fn variant_tags_are_quoted_unless_they_are_names() {
    let tag = |t: &str| {
        to_string(&Value::NewtypeStruct(s("a"), Box::new(Value::UnitVariant(s(t))))).unwrap()
    };
    assert_eq!(tag("smd"), "(a smd)");
    assert_eq!(tag("thru_hole"), "(a thru_hole)");
    assert_eq!(tag("thru-hole"), "(a \"thru-hole\")");
    assert_eq!(tag("v2"), "(a \"v2\")");
    assert_eq!(tag(""), "(a \"\")");
}

#[test]
fn write_str_modes() {
    let mut ser = Serializer::new(false);
    ser.write_str("F.Cu", false);
    ser.write_str("F.Cu", true);
    ser.write_str("", false);
    ser.write_str("a_b", true);
    assert_eq!(ser.into_string(), " F.Cu \"F.Cu\" \"\" a_b");
}

#[test]
fn integers_are_written_in_decimal() {
    let mut ser = Serializer::new(false);
    ser.write_integer(0);
    ser.write_integer(-1);
    ser.write_integer(i128::MIN);
    ser.write_integer(i128::MAX);
    ser.write_unsigned(0);
    ser.write_unsigned(1234567890);
    ser.write_unsigned(u128::MAX);
    ser.write_float("1.5e3");
    assert_eq!(
        ser.into_string(),
        " 0 -1 -170141183460469231731687303715884105728 170141183460469231731687303715884105727 0 1234567890 340282366920938463463374607431768211455 1.5e3"
    );
}

#[test]
fn expressions_nest_and_indent() {
    let mut ser = Serializer::new(true);
    ser.begin_sexpr("a");
    ser.begin_sexpr("b");
    ser.begin_sexpr("c");
    ser.end_sexpr();
    ser.end_sexpr();
    ser.newline();
    ser.end_sexpr();
    assert_eq!(ser.is_full(), false);
    assert_eq!(ser.into_string(), "(a\n  (b\n    (c))\n  )");
    let mut ser = Serializer::new(false);
    ser.begin_sexpr("a");
    ser.begin_sexpr("b");
    ser.end_sexpr();
    ser.end_sexpr();
    assert_eq!(ser.into_string(), "(a (b))");
}

#[test]
fn sequences() {
    let items = || vec![Value::UInt(1), Value::UInt(2)];
    assert_eq!(to_string(&record("pts", Value::List(items()))).unwrap(), "(r (pts 1 2))");
    assert_eq!(to_string(&record("pts", Value::Tuple(items()))).unwrap(), "(r (pts 1 2))");
    assert_eq!(to_string(&record("", Value::List(items()))).unwrap(), "(r 1 2)");
    assert_eq!(to_string(&record("pts", Value::List(vec![]))).unwrap(), "(r (pts))");
    assert_eq!(to_string(&record("", Value::List(vec![]))).unwrap(), "(r)");
    assert_eq!(
        to_string(&Value::TupleStruct(s("xy"), items())).unwrap(),
        "(xy 1 2)"
    );
}

#[test]
fn error_variants() {
    assert_eq!(to_string(&Value::Bool(true)), Err(Error::ExpectedStruct));
    assert_eq!(to_string(&Value::Str(s("a"))), Err(Error::ExpectedStruct));
    assert_eq!(to_string(&Value::Absent), Err(Error::ExpectedStruct));
    assert_eq!(
        to_string(&Value::Present(Box::new(Value::UnitStruct(s("a"))))),
        Err(Error::ExpectedStruct)
    );
    assert_eq!(to_string(&Value::List(vec![])), Err(Error::ExpectedStruct));
    let unnamed = |v: Value| to_string(&Value::NewtypeStruct(s("a"), Box::new(v)));
    assert_eq!(unnamed(Value::Bool(true)), Err(Error::UnnamedBoolean));
    assert_eq!(unnamed(Value::Bool(false)), Err(Error::UnnamedBoolean));
    assert_eq!(unnamed(Value::List(vec![])), Err(Error::UnnamedSeq));
    assert_eq!(unnamed(Value::Tuple(vec![])), Err(Error::UnnamedSeq));
    assert_eq!(unnamed(Value::Char('c')), Err(Error::Char));
    assert_eq!(unnamed(Value::Bytes(vec![1])), Err(Error::Bytes));
    assert_eq!(unnamed(Value::Unit), Err(Error::Unit));
    assert_eq!(unnamed(Value::Dict(vec![])), Err(Error::Dict));
    assert_eq!(
        unnamed(Value::NewtypeVariant(s("v"), Box::new(Value::Unit))),
        Err(Error::ComplexEnum)
    );
    assert_eq!(unnamed(Value::TupleVariant(s("v"), vec![])), Err(Error::ComplexEnum));
    assert_eq!(unnamed(Value::StructVariant(s("v"), vec![])), Err(Error::ComplexEnum));
    assert_eq!(unnamed(float("1,5")), Err(Error::Message(s("invalid float literal"))));
    // the first failure is reported
    assert_eq!(
        to_string(&Value::TupleStruct(s("t"), vec![Value::Unit, Value::Char('c')])),
        Err(Error::Unit)
    );
}

#[test]
fn error_messages() {
    assert_eq!(Error::ExpectedStruct.to_string(), "Expected to serialize a struct at root level");
    assert_eq!(Error::UnnamedBoolean.to_string(), "Unnamed boolean");
    assert_eq!(Error::UnnamedSeq.to_string(), "Unnamed sequence");
    assert_eq!(Error::Char.to_string(), "char is unsupported");
    assert_eq!(Error::Bytes.to_string(), "byte array is unsupported");
    assert_eq!(Error::Unit.to_string(), "unit is unsupported");
    assert_eq!(Error::ComplexEnum.to_string(), "enums with non-unit variants are not supported");
    assert_eq!(Error::Dict.to_string(), "maps are not supported");
    assert_eq!(Error::custom("x").to_string(), "x");
}

#[test]
fn literal() {
    let number = Literal::from(1u16);
    let text = Literal::from("A1");
    let owned = Literal::from(s("B2"));
    assert_eq!(number.to_string(), "1");
    assert_eq!(Literal::from(65535u16).to_string(), "65535");
    assert_eq!(text.to_string(), "A1");
    assert_eq!(owned.to_string(), "B2");
    assert_eq!(number.to_value(), Value::UInt(1));
    assert_eq!(text.to_value(), Value::Str(s("A1")));
    assert_eq!(Literal::from_value(&Value::UInt(7)), Some(Literal::from(7u16)));
    assert_eq!(Literal::from_value(&Value::UInt(65536)), None);
    assert_eq!(Literal::from_value(&Value::Str(s("x"))), Some(Literal::from("x")));
    assert_eq!(Literal::from_value(&Value::Int(1)), None);
    assert_eq!(Literal::shape(), Shape::Literal);
    assert_ne!(number, text);
}

#[test]
fn optional_values_are_written_as_the_value_or_not_at_all() {
    let mut ser = Serializer::new(false);
    let there = Value::Present(Box::new(Value::Int(-90)));
    assert_eq!(sexpr_codec::OptionDef::serialize(&there, &mut ser, Some("rot")), Ok(()));
    assert_eq!(sexpr_codec::OptionDef::serialize(&Value::Absent, &mut ser, Some("rot")), Ok(()));
    assert_eq!(ser.into_string(), " -90");
}
