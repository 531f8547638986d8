use sexpr_codec::{
    from_str, to_string, to_string_pretty, FieldShape, IntKind, Member, OptionDef, Shape, Value,
    VariantBody, VariantShape,
};

fn s(text: &str) -> String {
    text.to_owned()
}

fn field(name: &str, shape: Shape) -> FieldShape {
    FieldShape { name: s(name), shape }
}

fn member(name: &str, value: Value) -> Member {
    Member { name: s(name), value }
}

fn float(text: &str) -> Value {
    Value::Float(s(text))
}

fn some(value: Value) -> Value {
    Value::Present(Box::new(value))
}

fn unit_variants(names: &[&str]) -> Shape {
    Shape::Enum(
        names.iter().map(|n| VariantShape { name: s(n), body: VariantBody::Unit }).collect(),
    )
}

fn position() -> Shape {
    Shape::Struct(
        s("at"),
        vec![
            field("x", Shape::Float),
            field("y", Shape::Float),
            field("rot", OptionDef::shape(Shape::Int(IntKind::I16))),
        ],
    )
}

fn drill() -> Shape {
    Shape::Struct(
        s("drill"),
        vec![
            field("oval", Shape::Bool),
            field("drill1", Shape::Float),
            field("drill2", OptionDef::shape(Shape::Float)),
        ],
    )
}

fn pad() -> Shape {
    Shape::Struct(
        s("pad"),
        vec![
            field("index", Shape::Literal),
            field("ty", unit_variants(&["thru-hole", "smd"])),
            field("shape", unit_variants(&["circle", "rect"])),
            field("at", position()),
            field(
                "size",
                Shape::Struct(
                    s("size"),
                    vec![field("width", Shape::Float), field("height", Shape::Float)],
                ),
            ),
            field("drill", OptionDef::shape(drill())),
            field("layers", Shape::List(Box::new(Shape::Str))),
        ],
    )
}

fn footprint() -> Shape {
    Shape::Struct(
        s("footprint"),
        vec![field("library_link", Shape::Str), field("", Shape::List(Box::new(pad())))],
    )
}

fn position_value(x: &str, y: &str, rot: Value) -> Value {
    Value::Struct(s("at"), vec![member("x", float(x)), member("y", float(y)), member("rot", rot)])
}

fn drill_value(oval: bool, drill2: Value) -> Value {
    Value::Struct(
        s("drill"),
        vec![
            member("oval", Value::Bool(oval)),
            member("drill1", float("0.635")),
            member("drill2", drill2),
        ],
    )
}

fn pad_value(index: Value, ty: &str, drill: Value, layers: &[&str]) -> Value {
    Value::Struct(
        s("pad"),
        vec![
            member("index", index),
            member("ty", Value::UnitVariant(s(ty))),
            member("shape", Value::UnitVariant(s("rect"))),
            member("at", position_value("2.54", "0", Value::Absent)),
            member(
                "size",
                Value::Struct(
                    s("size"),
                    vec![member("width", float("1.27")), member("height", float("1.27"))],
                ),
            ),
            member("drill", drill),
            member("layers", Value::List(layers.iter().map(|l| Value::Str(s(l))).collect())),
        ],
    )
}

fn footprint_value(pads: Vec<Value>) -> Value {
    Value::Struct(
        s("footprint"),
        vec![member("library_link", Value::Str(s("Capacitor_SMD:C_0402"))), member("", Value::List(pads))],
    )
}

fn assert_round_trip(value: Value, shape: &Shape) {
    let flat = to_string(&value).expect("Failed to write input");
    assert_eq!(from_str(&flat, shape).as_ref(), Ok(&value));
    let pretty = to_string_pretty(&value).expect("Failed to write input");
    assert_eq!(from_str(&pretty, shape).as_ref(), Ok(&value));
}

#[test]
fn round_trip_unit_struct() {
    assert_round_trip(Value::UnitStruct(s("locked")), &Shape::UnitStruct(s("locked")));
}

#[test]
fn round_trip_strings() {
    let shape = Shape::NewtypeStruct(s("descr"), Box::new(Shape::Str));
    for text in [
        "",
        "smd",
        "F.Cu",
        "a b",
        "\"",
        "\\",
        "\\\\",
        "\\\"",
        "a\\",
        "a\\\"b\\\\\"",
        "(",
        ")",
        "tab\there",
        "line\nbreak",
        "\u{e9}t\u{e9} \u{1f600}",
        r#"Hello "World", this "\" is an amazing backspace! \"#,
    ] {
        assert_round_trip(Value::NewtypeStruct(s("descr"), Box::new(Value::Str(s(text)))), &shape);
    }
}

#[test]
fn round_trip_integers() {
    let cases: [(IntKind, Value); 12] = [
        (IntKind::I8, Value::Int(-128)),
        (IntKind::I8, Value::Int(127)),
        (IntKind::I16, Value::Int(-90)),
        (IntKind::I32, Value::Int(0)),
        (IntKind::I64, Value::Int(i64::MIN as i128)),
        (IntKind::I128, Value::Int(i128::MIN)),
        (IntKind::I128, Value::Int(i128::MAX)),
        (IntKind::U8, Value::UInt(255)),
        (IntKind::U16, Value::UInt(0)),
        (IntKind::U32, Value::UInt(4294967295)),
        (IntKind::U64, Value::UInt(u64::MAX as u128)),
        (IntKind::U128, Value::UInt(u128::MAX)),
    ];
    for (kind, value) in cases {
        let shape = Shape::TupleStruct(s("n"), vec![Shape::Int(kind), Shape::Str]);
        assert_round_trip(Value::TupleStruct(s("n"), vec![value, Value::Str(s("x"))]), &shape);
    }
}

#[test]
fn round_trip_floats_as_text() {
    let shape = Shape::NewtypeStruct(s("f"), Box::new(Shape::Float));
    for text in ["0", "1.23", "-4.56", "1e10", "-1.5E-3", "inf", "-inf", "NaN", ".5", "5."] {
        assert_round_trip(Value::NewtypeStruct(s("f"), Box::new(float(text))), &shape);
    }
}

#[test]
fn round_trip_position() {
    assert_round_trip(position_value("1.23", "-4.56", Value::Absent), &position());
    assert_round_trip(position_value("1.23", "-4.56", some(Value::Int(-90))), &position());
}

#[test]
fn round_trip_flags_and_optional_values() {
    assert_round_trip(drill_value(true, some(float("0.847"))), &drill());
    assert_round_trip(drill_value(false, Value::Absent), &drill());
    assert_round_trip(drill_value(true, Value::Absent), &drill());
    assert_round_trip(drill_value(false, some(float("0.847"))), &drill());
    let shape = Shape::Struct(
        s("flags"),
        vec![
            field("a", Shape::Bool),
            field("opt", OptionDef::shape(Shape::UnitStruct(s("opt")))),
            field("b", Shape::Bool),
            field("c", Shape::Bool),
            field("last", OptionDef::shape(Shape::Str)),
        ],
    );
    for bits in 0..32u32 {
        let flag = |bit: u32| Value::Bool(bits & (1 << bit) != 0);
        let value = Value::Struct(
            s("flags"),
            vec![
                member("a", flag(0)),
                member(
                    "opt",
                    if bits & 2 != 0 { some(Value::UnitStruct(s("opt"))) } else { Value::Absent },
                ),
                member("b", flag(2)),
                member("c", flag(3)),
                member("last", if bits & 16 != 0 { some(Value::Str(s("x y"))) } else { Value::Absent }),
            ],
        );
        assert_round_trip(value, &shape);
    }
}

#[test]
fn round_trip_pads() {
    let with_drill = pad_value(
        Value::UInt(1),
        "thru-hole",
        some(drill_value(true, some(float("0.847")))),
        &["F.Cu", "B Cu"],
    );
    assert_round_trip(with_drill, &pad());
    assert_round_trip(pad_value(Value::Str(s("A1")), "smd", Value::Absent, &[]), &pad());
}

#[test]
fn round_trip_footprints() {
    assert_round_trip(footprint_value(vec![]), &footprint());
    assert_round_trip(
        footprint_value(vec![pad_value(Value::UInt(1), "smd", Value::Absent, &["F.Cu"])]),
        &footprint(),
    );
    assert_round_trip(
        footprint_value(vec![
            pad_value(Value::UInt(1), "smd", Value::Absent, &["F.Cu"]),
            pad_value(Value::UInt(2), "thru-hole", some(drill_value(false, Value::Absent)), &["*.Cu"]),
        ]),
        &footprint(),
    );
}

#[test]
fn round_trip_untagged() {
    let shape = Shape::Untagged(vec![Shape::UnitStruct(s("foo")), position()]);
    assert_round_trip(Value::Untagged(0, Box::new(Value::UnitStruct(s("foo")))), &shape);
    assert_round_trip(
        Value::Untagged(1, Box::new(position_value("1", "2", some(Value::Int(3))))),
        &shape,
    );
    let holder = Shape::NewtypeStruct(s("h"), Box::new(Shape::Untagged(vec![
        Shape::UnitStruct(s("foo")),
        position(),
    ])));
    assert_round_trip(
        Value::NewtypeStruct(
            s("h"),
            Box::new(Value::Untagged(1, Box::new(position_value("1", "2", Value::Absent)))),
        ),
        &holder,
    );
}

#[test]
fn round_trip_named_tuple_and_list() {
    let shape = Shape::Struct(
        s("line"),
        vec![
            field("pts", Shape::Tuple(vec![Shape::Int(IntKind::I32), Shape::Int(IntKind::I32)])),
            field("tags", Shape::List(Box::new(Shape::Str))),
            field("", Shape::List(Box::new(Shape::UnitStruct(s("dot"))))),
        ],
    );
    let value = |tags: Vec<Value>, dots: Vec<Value>| {
        Value::Struct(
            s("line"),
            vec![
                member("pts", Value::Tuple(vec![Value::Int(-1), Value::Int(2)])),
                member("tags", Value::List(tags)),
                member("", Value::List(dots)),
            ],
        )
    };
    assert_round_trip(value(vec![], vec![]), &shape);
    assert_round_trip(
        value(
            vec![Value::Str(s("a")), Value::Str(s("")), Value::Str(s("b c"))],
            vec![Value::UnitStruct(s("dot")), Value::UnitStruct(s("dot"))],
        ),
        &shape,
    );
}

#[test]
fn round_trip_literals() {
    let shape = Shape::Struct(
        s("pad"),
        vec![field("index", Shape::Literal), field("locked", Shape::Bool)],
    );
    let value = |index: Value, locked: bool| {
        Value::Struct(s("pad"), vec![member("index", index), member("locked", Value::Bool(locked))])
    };
    // a number with something behind it
    assert_round_trip(value(Value::UInt(7), true), &shape);
    assert_round_trip(value(Value::UInt(65535), true), &shape);
    // a text with anything but digits in it, anywhere
    assert_round_trip(value(Value::Str(s("A1")), true), &shape);
    assert_round_trip(value(Value::Str(s("A1")), false), &shape);
    assert_round_trip(value(Value::Str(s("1 2")), true), &shape);
    // a text of digits with nothing behind it
    assert_round_trip(value(Value::Str(s("12")), false), &shape);
    // and what is not read back as it was
    assert_ne!(
        from_str(&to_string(&value(Value::UInt(7), false)).unwrap(), &shape),
        Ok(value(Value::UInt(7), false))
    );
    assert_ne!(
        from_str(&to_string(&value(Value::Str(s("12")), true)).unwrap(), &shape),
        Ok(value(Value::Str(s("12")), true))
    );
}

#[test]
fn what_does_not_round_trip() {
    // a number right before the closing parenthesis is read back as a text
    let shape = Shape::NewtypeStruct(s("pad"), Box::new(Shape::Literal));
    let value = Value::NewtypeStruct(s("pad"), Box::new(Value::UInt(1)));
    assert_eq!(to_string(&value).unwrap(), "(pad 1)");
    assert_eq!(
        from_str("(pad 1)", &shape),
        Ok(Value::NewtypeStruct(s("pad"), Box::new(Value::Str(s("1")))))
    );
    // an absent number before a number takes that number
    let shape = Shape::Struct(
        s("r"),
        vec![field("a", OptionDef::shape(Shape::Int(IntKind::U8))), field("b", Shape::Int(IntKind::U8))],
    );
    let value = Value::Struct(s("r"), vec![member("a", Value::Absent), member("b", Value::UInt(5))]);
    assert_eq!(to_string(&value).unwrap(), "(r 5)");
    assert!(from_str("(r 5)", &shape).is_err());
    // a text that is the name of a field is taken for a flag
    let shape = Shape::Struct(s("r"), vec![field("name", Shape::Str), field("locked", Shape::Bool)]);
    let value = Value::Struct(
        s("r"),
        vec![member("name", Value::Str(s("locked"))), member("locked", Value::Bool(false))],
    );
    assert_eq!(to_string(&value).unwrap(), "(r locked)");
    assert!(from_str("(r locked)", &shape).is_err());
}
