use sexpr_codec::de::Error;
use sexpr_codec::{
    from_str, FieldShape, IntKind, Member, OptionDef, Shape, Value, VariantBody, VariantShape,
};

fn s(text: &str) -> String {
    text.to_owned()
}

fn field(name: &str, shape: Shape) -> FieldShape {
    FieldShape { name: s(name), shape }
}

fn member(name: &str, value: Value) -> Member {
    Member { name: s(name), value }
}

fn float(text: &str) -> Value {
    Value::Float(s(text))
}

fn unit_variants(names: &[&str]) -> Shape {
    Shape::Enum(
        names.iter().map(|n| VariantShape { name: s(n), body: VariantBody::Unit }).collect(),
    )
}

fn position() -> Shape {
    Shape::Struct(
        s("at"),
        vec![
            field("x", Shape::Float),
            field("y", Shape::Float),
            field("rot", OptionDef::shape(Shape::Int(IntKind::I16))),
        ],
    )
}

fn size() -> Shape {
    Shape::Struct(s("size"), vec![field("width", Shape::Float), field("height", Shape::Float)])
}

fn drill() -> Shape {
    Shape::Struct(
        s("drill"),
        vec![
            field("oval", Shape::Bool),
            field("drill1", Shape::Float),
            field("drill2", OptionDef::shape(Shape::Float)),
        ],
    )
}

fn pad() -> Shape {
    Shape::Struct(
        s("pad"),
        vec![
            field("index", Shape::Literal),
            field("ty", unit_variants(&["thru-hole", "smd"])),
            field("shape", unit_variants(&["circle", "rect"])),
            field("at", position()),
            field("size", size()),
            field("drill", OptionDef::shape(drill())),
            field("layers", Shape::List(Box::new(Shape::Str))),
        ],
    )
}

fn footprint() -> Shape {
    Shape::Struct(
        s("footprint"),
        vec![field("library_link", Shape::Str), field("", Shape::List(Box::new(pad())))],
    )
}

fn position_value(x: &str, y: &str, rot: Value) -> Value {
    Value::Struct(s("at"), vec![member("x", float(x)), member("y", float(y)), member("rot", rot)])
}

fn pad_value(index: u128, ty: &str, x: &str, drill: Value) -> Value {
    Value::Struct(
        s("pad"),
        vec![
            member("index", Value::UInt(index)),
            member("ty", Value::UnitVariant(s(ty))),
            member("shape", Value::UnitVariant(s("rect"))),
            member("at", position_value(x, "0", Value::Absent)),
            member(
                "size",
                Value::Struct(
                    s("size"),
                    vec![member("width", float("1.27")), member("height", float("1.27"))],
                ),
            ),
            member("drill", drill),
            member("layers", Value::List(vec![Value::Str(s("F.Cu"))])),
        ],
    )
}

#[test]
fn test_deserialize_locked() {
    assert_eq!(
        from_str("(locked)", &Shape::UnitStruct(s("locked"))),
        Ok(Value::UnitStruct(s("locked")))
    );
}

#[test]
fn test_deserialize_attr() {
    let shape = Shape::NewtypeStruct(s("attr"), Box::new(Shape::Str));
    assert_eq!(
        from_str("(attr smd)", &shape),
        Ok(Value::NewtypeStruct(s("attr"), Box::new(Value::Str(s("smd")))))
    );
}

#[test]
fn test_deserialize_descr() {
    let shape = Shape::NewtypeStruct(s("descr"), Box::new(Shape::Str));
    let input = r#"(descr "Hello \"World\", this \"\\\" is an amazing backspace! \\")"#;
    let text = r#"Hello "World", this "\" is an amazing backspace! \"#;
    assert_eq!(
        from_str(input, &shape),
        Ok(Value::NewtypeStruct(s("descr"), Box::new(Value::Str(s(text)))))
    );
}

#[test]
fn test_deserialize_position_without_rot() {
    assert_eq!(
        from_str("(at 1.23 -4.56)", &position()),
        Ok(position_value("1.23", "-4.56", Value::Absent))
    );
}

#[test]
fn test_deserialize_position_with_rot() {
    assert_eq!(
        from_str("(at 1.23 -4.56 -90)", &position()),
        Ok(position_value("1.23", "-4.56", Value::Present(Box::new(Value::Int(-90)))))
    );
}

#[test]
fn test_deserialize_size() {
    assert_eq!(
        from_str("(size 1.23 4.56)", &size()),
        Ok(Value::Struct(
            s("size"),
            vec![member("width", float("1.23")), member("height", float("4.56"))]
        ))
    );
}

#[test]
fn boolean_presence() {
    assert_eq!(
        from_str("(drill oval 0.635 0.847)", &drill()),
        Ok(Value::Struct(
            s("drill"),
            vec![
                member("oval", Value::Bool(true)),
                member("drill1", float("0.635")),
                member("drill2", Value::Present(Box::new(float("0.847")))),
            ]
        ))
    );
    assert_eq!(
        from_str("(drill 0.635)", &drill()),
        Ok(Value::Struct(
            s("drill"),
            vec![
                member("oval", Value::Bool(false)),
                member("drill1", float("0.635")),
                member("drill2", Value::Absent),
            ]
        ))
    );
}

#[test]
fn flags_in_any_subset_and_a_flag_ahead_skips_those_before() {
    let shape = Shape::Struct(
        s("flags"),
        vec![
            field("a", Shape::Bool),
            field("b", Shape::Bool),
            field("c", Shape::Bool),
            field("n", OptionDef::shape(Shape::Int(IntKind::U8))),
        ],
    );
    let value = |a: bool, b: bool, c: bool, n: Value| {
        Ok(Value::Struct(
            s("flags"),
            vec![
                member("a", Value::Bool(a)),
                member("b", Value::Bool(b)),
                member("c", Value::Bool(c)),
                member("n", n),
            ],
        ))
    };
    let seven = || Value::Present(Box::new(Value::UInt(7)));
    assert_eq!(from_str("(flags a b c 7)", &shape), value(true, true, true, seven()));
    assert_eq!(from_str("(flags c 7)", &shape), value(false, false, true, seven()));
    assert_eq!(from_str("(flags b)", &shape), value(false, true, false, Value::Absent));
    assert_eq!(from_str("(flags)", &shape), value(false, false, false, Value::Absent));
    assert_eq!(from_str("(flags 7)", &shape), value(false, false, false, seven()));
    // a flag that stands behind its place is no flag any more
    assert_eq!(from_str("(flags b a)", &shape), Err(Error::TrailingTokens));
}

#[test]
fn a_value_that_is_passed_over_fails_unless_it_is_optional() {
    let shape = Shape::Struct(
        s("r"),
        vec![field("n", Shape::Int(IntKind::U8)), field("locked", Shape::Bool)],
    );
    assert_eq!(
        from_str("(r locked)", &shape),
        Err(Error::Message(s("invalid type: Option value")))
    );
    assert_eq!(from_str("(r)", &shape), Err(Error::Message(s("invalid type: Option value"))));
    let shape = Shape::Struct(s("r"), vec![field("locked", Shape::Int(IntKind::U8))]);
    assert_eq!(
        from_str("(r locked)", &shape),
        Err(Error::Message(s("invalid type: boolean `true`")))
    );
}

#[test]
fn test_deserialize_ugly_pad_without_drill() {
    let input = r#"(pad 1 smd rect (at 0 0) (size 1.27 1.27) (layers "F.Cu"))"#;
    assert_eq!(from_str(input, &pad()), Ok(pad_value(1, "smd", "0", Value::Absent)));
}

#[test]
fn test_deserialize_pretty_pad_without_drill() {
    let input = "(pad 1 smd rect\n  (at 0 0)\n  (size 1.27 1.27)\n  (layers \"F.Cu\"))\n";
    assert_eq!(from_str(input, &pad()), Ok(pad_value(1, "smd", "0", Value::Absent)));
}

#[test]
fn test_deserialize_ugly_pad_with_drill() {
    let input =
        r#"(pad 1 thru-hole rect (at 0 0) (size 1.27 1.27) (drill 0.635) (layers "F.Cu"))"#;
    let drill = Value::Present(Box::new(Value::Struct(
        s("drill"),
        vec![
            member("oval", Value::Bool(false)),
            member("drill1", float("0.635")),
            member("drill2", Value::Absent),
        ],
    )));
    assert_eq!(from_str(input, &pad()), Ok(pad_value(1, "thru-hole", "0", drill)));
}

#[test]
fn test_deserialize_pretty_pad_with_oval_drill() {
    let input = "(pad 1 thru-hole rect\n  (at 0 0)\n  (size 1.27 1.27)\n  (drill oval 0.635 0.847)\n  (layers \"F.Cu\"))";
    let drill = Value::Present(Box::new(Value::Struct(
        s("drill"),
        vec![
            member("oval", Value::Bool(true)),
            member("drill1", float("0.635")),
            member("drill2", Value::Present(Box::new(float("0.847")))),
        ],
    )));
    assert_eq!(from_str(input, &pad()), Ok(pad_value(1, "thru-hole", "0", drill)));
}

#[test]
fn test_deserialize_footprint_without_pads() {
    assert_eq!(
        from_str(r#"(footprint "Capacitor_SMD:C_0402")"#, &footprint()),
        Ok(Value::Struct(
            s("footprint"),
            vec![
                member("library_link", Value::Str(s("Capacitor_SMD:C_0402"))),
                member("", Value::List(vec![])),
            ]
        ))
    );
}

#[test]
fn test_deserialize_ugly_footprint_with_two_pads() {
    let input = r#"(footprint "Capacitor_SMD:C_0402" (pad 1 smd rect (at 0 0) (size 1.27 1.27) (layers "F.Cu")) (pad 2 smd rect (at 2.54 0) (size 1.27 1.27) (layers "F.Cu")))"#;
    assert_eq!(
        from_str(input, &footprint()),
        Ok(Value::Struct(
            s("footprint"),
            vec![
                member("library_link", Value::Str(s("Capacitor_SMD:C_0402"))),
                member(
                    "",
                    Value::List(vec![
                        pad_value(1, "smd", "0", Value::Absent),
                        pad_value(2, "smd", "2.54", Value::Absent),
                    ])
                ),
            ]
        ))
    );
}

#[test]
fn test_deserialize_pretty_footprint_with_one_pad() {
    let input = "(footprint \"Capacitor_SMD:C_0402\"\n  (pad 1 smd rect\n    (at 0 0)\n    (size 1.27 1.27)\n    (layers \"F.Cu\")))\n";
    assert_eq!(
        from_str(input, &footprint()),
        Ok(Value::Struct(
            s("footprint"),
            vec![
                member("library_link", Value::Str(s("Capacitor_SMD:C_0402"))),
                member("", Value::List(vec![pad_value(1, "smd", "0", Value::Absent)])),
            ]
        ))
    );
}

#[test]
fn trailing_tokens_are_rejected() {
    assert_eq!(
        from_str("(locked) extra", &Shape::UnitStruct(s("locked"))),
        Err(Error::TrailingTokens)
    );
    assert_eq!(from_str("(size 1 2) (size 1 2)", &size()), Err(Error::TrailingTokens));
    assert_eq!(from_str("(size 1 2 3)", &size()), Err(Error::TrailingTokens));
    assert_eq!(
        from_str(" (locked) \n", &Shape::UnitStruct(s("locked"))),
        Ok(Value::UnitStruct(s("locked")))
    );
}

#[test]
fn tuple_struct_and_named_tuple() {
    let shape = Shape::TupleStruct(s("xy"), vec![Shape::Int(IntKind::I32), Shape::Str]);
    assert_eq!(
        from_str("(xy -3 \"a b\")", &shape),
        Ok(Value::TupleStruct(s("xy"), vec![Value::Int(-3), Value::Str(s("a b"))]))
    );
    assert_eq!(from_str("(xy -3)", &shape), Err(Error::Message(s("invalid length"))));
    let shape = Shape::Struct(
        s("line"),
        vec![field("pts", Shape::Tuple(vec![Shape::Int(IntKind::U8), Shape::Int(IntKind::U8)]))],
    );
    assert_eq!(
        from_str("(line (pts 1 2))", &shape),
        Ok(Value::Struct(
            s("line"),
            vec![member("pts", Value::Tuple(vec![Value::UInt(1), Value::UInt(2)]))]
        ))
    );
}

#[test]
fn unit_in_a_named_field() {
    let shape = Shape::Struct(s("r"), vec![field("marker", Shape::Unit)]);
    assert_eq!(
        from_str("(r (marker))", &shape),
        Ok(Value::Struct(s("r"), vec![member("marker", Value::Unit)]))
    );
}

#[test]
fn enum_with_newtype_variant() {
    let shape = Shape::Enum(vec![
        VariantShape { name: s("at"), body: VariantBody::Newtype(Box::new(position())) },
        VariantShape { name: s("none"), body: VariantBody::Unit },
    ]);
    assert_eq!(
        from_str("(at 1 2)", &shape),
        Ok(Value::NewtypeVariant(s("at"), Box::new(position_value("1", "2", Value::Absent))))
    );
    let holder = Shape::NewtypeStruct(s("h"), Box::new(shape));
    assert_eq!(
        from_str("(h none)", &holder),
        Ok(Value::NewtypeStruct(s("h"), Box::new(Value::UnitVariant(s("none")))))
    );
    // a number without sign names the variant of that index
    assert_eq!(
        from_str("(h 1 )", &holder),
        Ok(Value::NewtypeStruct(s("h"), Box::new(Value::UnitVariant(s("none")))))
    );
    assert_eq!(
        from_str("(h (at 1 2 3))", &holder),
        Ok(Value::NewtypeStruct(
            s("h"),
            Box::new(Value::NewtypeVariant(
                s("at"),
                Box::new(position_value("1", "2", Value::Present(Box::new(Value::Int(3)))))
            ))
        ))
    );
}

#[test]
fn literal_is_a_small_number_or_a_text() {
    let shape = Shape::NewtypeStruct(s("pad"), Box::new(Shape::Literal));
    let lit = |v: Value| Ok(Value::NewtypeStruct(s("pad"), Box::new(v)));
    assert_eq!(from_str("(pad 1 )", &shape), lit(Value::UInt(1)));
    assert_eq!(from_str("(pad 65535 )", &shape), lit(Value::UInt(65535)));
    assert_eq!(from_str("(pad A1)", &shape), lit(Value::Str(s("A1"))));
    assert_eq!(from_str("(pad \"1\")", &shape), lit(Value::Str(s("1"))));
    // a closing parenthesis right behind the digits makes them a text
    assert_eq!(from_str("(pad 1)", &shape), lit(Value::Str(s("1"))));
    let no = Err(Error::Message(s("data did not match any variant of untagged enum Literal")));
    assert_eq!(from_str("(pad 65536 )", &shape), no);
    assert_eq!(from_str("(pad -1 )", &shape), no);
    assert_eq!(from_str("(pad 1.5 )", &shape), no);
}

#[test]
fn any_takes_whatever_the_token_is() {
    let shape = Shape::Struct(s("r"), vec![field("v", Shape::Any)]);
    let r = |v: Value| Ok(Value::Struct(s("r"), vec![member("v", v)]));
    assert_eq!(from_str("(r 12 )", &shape), r(Value::UInt(12)));
    assert_eq!(from_str("(r -12 )", &shape), r(Value::Int(-12)));
    assert_eq!(from_str("(r 1.5 )", &shape), r(float("1.5")));
    assert_eq!(from_str("(r abc)", &shape), r(Value::Str(s("abc"))));
    assert_eq!(
        from_str("(r (v 1 x (v 2 )))", &shape),
        Err(Error::MissingSExprInfo(s("v")))
    );
    assert_eq!(
        from_str("(r (v 1 x 2.5 ))", &shape),
        r(Value::List(vec![Value::UInt(1), Value::Str(s("x")), float("2.5")]))
    );
    assert_eq!(from_str("(r (w 1))", &shape), Err(Error::MissingSExprInfo(s("w"))));
    assert_eq!(from_str("(r v)", &shape), r(Value::Bool(true)));
    assert_eq!(from_str("(r)", &shape), r(Value::Absent));
}
