use sexpr_codec::de::engine::{
    decode_any, decode_field, decode_root, decode_synthetic, resolve_trial, Failure,
};
use sexpr_codec::de::record::{find_field, SExpr, SkipTo, Source};
use sexpr_codec::de::tuple::{has_more_elements, SExprTuple};
use sexpr_codec::de::{Deserializer, Error};
use sexpr_codec::private::{Extraction, NameExtractor};
use sexpr_codec::{deserialize_option, FieldShape, IntKind, OptionDef, Shape, Value};

fn s(text: &str) -> String {
    text.to_owned()
}

fn field(name: &str, shape: Shape) -> FieldShape {
    FieldShape { name: s(name), shape }
}

fn drill_fields() -> Vec<FieldShape> {
    vec![
        field("oval", Shape::Bool),
        field("drill1", Shape::Float),
        field("offset", Shape::Bool),
        field("", Shape::List(Box::new(Shape::Float))),
    ]
}

#[test]
fn consume_beginning_reads_the_head() {
    let mut de = Deserializer::from_str("  (drill oval)");
    assert_eq!(SExpr::consume_beginning(&mut de, "drill"), Ok(()));
    assert_eq!(de.remaining(), " oval)");
    let mut de = Deserializer::from_str("  (drills oval)");
    assert_eq!(
        SExpr::consume_beginning(&mut de, "drill"),
        Err(Error::ExpectedSExprIdentifier(s("drill"), s("drills")))
    );
    assert_eq!(de.remaining(), "(drills oval)");
    let mut de = Deserializer::from_str("drill");
    assert_eq!(SExpr::new(&mut de, "drill"), Err(Error::ExpectedSExpr('d')));
    let mut de = Deserializer::from_str("(drill)");
    assert_eq!(SExpr::new(&mut de, "drill"), Ok(SExpr { index: 0, skip_to: SkipTo::Unset }));
    assert_eq!(de.remaining(), ")");
}

#[test]
fn record_check_eoe() {
    let mut de = Deserializer::from_str("  ) rest");
    let mut state = SExpr { index: 1, skip_to: SkipTo::Unset };
    assert_eq!(state.check_eoe(&mut de), Ok(()));
    assert_eq!(state, SExpr { index: 1, skip_to: SkipTo::End });
    assert_eq!(de.remaining(), " rest");
    // while fields are passed over, the end is not looked for
    assert_eq!(state.check_eoe(&mut de), Ok(()));
    assert_eq!(de.remaining(), "rest");
    let mut state = SExpr { index: 0, skip_to: SkipTo::Field(2) };
    let mut de = Deserializer::from_str(" )");
    assert_eq!(state.check_eoe(&mut de), Ok(()));
    assert_eq!(state.skip_to, SkipTo::Field(2));
    assert_eq!(de.remaining(), ")");
    let mut state = SExpr { index: 0, skip_to: SkipTo::Unset };
    let mut de = Deserializer::from_str("  ");
    assert_eq!(state.check_eoe(&mut de), Err(Error::Eof));
    let mut de = Deserializer::from_str(" 1)");
    assert_eq!(state.check_eoe(&mut de), Ok(()));
    assert_eq!(state.skip_to, SkipTo::Unset);
    assert_eq!(de.remaining(), "1)");
}

#[test]
fn next_key_seed_passes_over_the_field_without_a_name() {
    let fields = drill_fields();
    let mut de = Deserializer::from_str(" 1 2)");
    let mut state = SExpr { index: 3, skip_to: SkipTo::Unset };
    assert_eq!(state.next_key_seed(&mut de, &fields), Ok(Some(3)));
    let mut de = Deserializer::from_str(" )");
    let mut state = SExpr { index: 3, skip_to: SkipTo::Unset };
    assert_eq!(state.next_key_seed(&mut de, &fields), Ok(None));
    assert_eq!(state, SExpr { index: 4, skip_to: SkipTo::End });
    let mut de = Deserializer::from_str(" )");
    let mut state = SExpr { index: 2, skip_to: SkipTo::Unset };
    assert_eq!(state.next_key_seed(&mut de, &fields), Ok(Some(2)));
    assert_eq!(state, SExpr { index: 2, skip_to: SkipTo::End });
    let mut de = Deserializer::from_str("");
    let mut state = SExpr { index: 0, skip_to: SkipTo::Unset };
    assert_eq!(state.next_key_seed(&mut de, &fields), Err(Error::Eof));
}

#[test]
fn next_value_seed_impl_decides_where_the_value_comes_from() {
    let fields = drill_fields();
    // the field's own name
    let mut de = Deserializer::from_str("oval 0.6)");
    let mut state = SExpr { index: 0, skip_to: SkipTo::Unset };
    assert_eq!(state.next_value_seed_impl(&mut de, &fields), Source::Flag);
    assert_eq!(de.remaining(), " 0.6)");
    assert_eq!(state.skip_to, SkipTo::Unset);
    // the name of a later field
    let mut de = Deserializer::from_str("offset)");
    let mut state = SExpr { index: 0, skip_to: SkipTo::Unset };
    assert_eq!(state.next_value_seed_impl(&mut de, &fields), Source::Missing);
    assert_eq!(de.remaining(), ")");
    assert_eq!(state, SExpr { index: 0, skip_to: SkipTo::Field(2) });
    state.index = 1;
    assert_eq!(state.next_value_seed_impl(&mut de, &fields), Source::Missing);
    state.index = 2;
    assert_eq!(state.next_value_seed_impl(&mut de, &fields), Source::Flag);
    assert_eq!(state, SExpr { index: 2, skip_to: SkipTo::Unset });
    // the name of an earlier field is no name
    let mut de = Deserializer::from_str("oval)");
    let mut state = SExpr { index: 1, skip_to: SkipTo::Unset };
    assert_eq!(state.next_value_seed_impl(&mut de, &fields), Source::Field);
    assert_eq!(de.remaining(), "oval)");
    // no name at all
    let mut de = Deserializer::from_str("0.6)");
    let mut state = SExpr { index: 0, skip_to: SkipTo::Unset };
    assert_eq!(state.next_value_seed_impl(&mut de, &fields), Source::Field);
    // behind the closing parenthesis
    let mut state = SExpr { index: 1, skip_to: SkipTo::End };
    assert_eq!(state.next_value_seed_impl(&mut de, &fields), Source::Missing);
    assert_eq!(find_field(&fields, &s("offset"), 1), Some(2));
    assert_eq!(find_field(&fields, &s("oval"), 1), None);
}

#[test]
fn tuple_check_eoe() {
    let mut de = Deserializer::from_str(" (pts 1 )x");
    let mut state = SExprTuple::new(&mut de, "pts").unwrap();
    assert_eq!(state, SExprTuple { end: false });
    assert_eq!(state.check_eoe(&mut de), Ok(()));
    assert_eq!(state.end, false);
    assert_eq!(de.remaining(), "1 )x");
    de.consume(1).unwrap();
    assert_eq!(state.check_eoe(&mut de), Ok(()));
    assert_eq!(state.end, true);
    assert_eq!(de.remaining(), "x");
    assert_eq!(state.check_eoe(&mut de), Ok(()));
    assert_eq!(de.remaining(), "x");
    let mut de = Deserializer::from_str(" ");
    let mut state = SExprTuple { end: false };
    assert_eq!(state.check_eoe(&mut de), Err(Error::Eof));
    let mut de = Deserializer::from_str("  1)");
    assert_eq!(has_more_elements(&mut de), Ok(true));
    assert_eq!(de.remaining(), "1)");
    let mut de = Deserializer::from_str("  )");
    assert_eq!(has_more_elements(&mut de), Ok(false));
    assert_eq!(de.remaining(), ")");
    let mut de = Deserializer::from_str("");
    assert_eq!(has_more_elements(&mut de), Err(Error::Eof));
}

#[test]
fn name_extractor() {
    let name = |shape: Shape| NameExtractor::extract(&shape);
    assert_eq!(name(Shape::UnitStruct(s("foo"))), Extraction::Name(s("foo")));
    assert_eq!(
        name(Shape::NewtypeStruct(s("attr"), Box::new(Shape::Str))),
        Extraction::Name(s("attr"))
    );
    assert_eq!(name(Shape::TupleStruct(s("xy"), vec![])), Extraction::Name(s("xy")));
    assert_eq!(name(Shape::Struct(s("at"), vec![])), Extraction::Name(s("at")));
    let no_record = Extraction::Failed(s("Expected to deserialize a struct"));
    assert_eq!(name(Shape::Str), no_record);
    assert_eq!(name(Shape::List(Box::new(Shape::UnitStruct(s("a"))))), no_record);
    assert_eq!(name(Shape::Untagged(vec![Shape::UnitStruct(s("a"))])), no_record);
    assert_eq!(NameExtractor::deserialize_any(), no_record);
    assert_eq!(
        NameExtractor::extract_all(
            &vec![Shape::UnitStruct(s("foo")), Shape::Struct(s("bar"), vec![])],
            0
        ),
        Ok(vec![s("foo"), s("bar")])
    );
    assert_eq!(
        NameExtractor::extract_all(&vec![Shape::UnitStruct(s("foo")), Shape::Bool], 0),
        Err(s("Expected to deserialize a struct"))
    );
    assert_eq!(NameExtractor::extract_all(&vec![Shape::Bool], 1), Ok(vec![]));
}

#[test]
fn optional_value_by_trial() {
    let shape = Shape::Int(IntKind::I16);
    let mut de = Deserializer::from_str("-90)");
    assert_eq!(
        deserialize_option(&mut de, &shape, Some("rot")),
        Ok(Value::Present(Box::new(Value::Int(-90))))
    );
    assert_eq!(de.remaining(), ")");
    let mut de = Deserializer::from_str("abc)");
    assert_eq!(OptionDef::deserialize(&mut de, &shape, Some("rot")), Ok(Value::Absent));
    assert_eq!(de.remaining(), "abc)");
    // what the attempt has read stays read
    let inner = Shape::UnitStruct(s("a"));
    let mut de = Deserializer::from_str("  (b)");
    assert_eq!(deserialize_option(&mut de, &inner, None), Ok(Value::Absent));
    assert_eq!(de.remaining(), "(b)");
    // a failure after the value was found stands
    let inner = Shape::NewtypeStruct(s("a"), Box::new(Shape::Int(IntKind::U8)));
    let mut de = Deserializer::from_str("(a x)");
    assert_eq!(
        deserialize_option(&mut de, &inner, None),
        Err(Failure {
            error: Error::Message(s("invalid digit found in string")),
            touched: true
        })
    );
    assert_eq!(OptionDef::shape(Shape::Str), Shape::Trial(Box::new(Shape::Str)));
}

#[test]
fn resolve_trial_by_cases() {
    assert_eq!(resolve_trial(Ok(Value::Unit)), Ok(Value::Present(Box::new(Value::Unit))));
    assert_eq!(
        resolve_trial(Err(Failure { error: Error::Eof, touched: false })),
        Ok(Value::Absent)
    );
    assert_eq!(
        resolve_trial(Err(Failure { error: Error::Eof, touched: true })),
        Err(Failure { error: Error::Eof, touched: true })
    );
}

#[test]
fn fields_without_a_token() {
    let de = Deserializer::from_str("rest");
    assert_eq!(decode_synthetic(&de, &Shape::Bool, true, false), Ok(Value::Bool(true)));
    assert_eq!(decode_synthetic(&de, &Shape::Bool, false, false), Ok(Value::Bool(false)));
    assert_eq!(
        decode_synthetic(&de, &Shape::Optional(Box::new(Shape::Str)), false, false),
        Ok(Value::Absent)
    );
    assert_eq!(
        decode_synthetic(&de, &OptionDef::shape(Shape::Str), false, false),
        Ok(Value::Absent)
    );
    assert_eq!(
        decode_synthetic(&de, &OptionDef::shape(Shape::Bool), false, false),
        Ok(Value::Present(Box::new(Value::Bool(false))))
    );
    assert_eq!(
        decode_synthetic(&de, &OptionDef::shape(Shape::Bool), true, false),
        Ok(Value::Present(Box::new(Value::Bool(true))))
    );
    assert_eq!(
        decode_synthetic(&de, &OptionDef::shape(Shape::Optional(Box::new(Shape::Str))), false, false),
        Ok(Value::Absent)
    );
    assert_eq!(
        decode_synthetic(&de, &OptionDef::shape(Shape::Str), true, false),
        Err(Failure { error: Error::Message(s("invalid type: boolean `true`")), touched: true })
    );
    assert_eq!(
        decode_synthetic(&de, &Shape::Str, false, true),
        Err(Failure { error: Error::Message(s("invalid type: Option value")), touched: false })
    );
    assert_eq!(de.remaining(), "rest");
}

#[test]
fn decoding_from_the_cursor() {
    let mut de = Deserializer::from_str("(a) rest");
    assert_eq!(decode_field(&mut de, &Shape::UnitStruct(s("a")), None), Ok(Value::UnitStruct(s("a"))));
    assert_eq!(de.remaining(), " rest");
    let mut de = Deserializer::from_str("(a) rest");
    assert_eq!(
        decode_root(&mut de, &Shape::UnitStruct(s("a"))),
        Err(Failure { error: Error::TrailingTokens, touched: false })
    );
    assert_eq!(de.remaining(), "rest");
    let mut de = Deserializer::from_str("(a) rest");
    assert_eq!(
        decode_root(&mut de, &OptionDef::shape(Shape::UnitStruct(s("a")))),
        Ok(Value::Absent)
    );
    let mut de = Deserializer::from_str("x y");
    assert_eq!(decode_field(&mut de, &Shape::Bool, Some("flag")), Ok(Value::Bool(false)));
    assert_eq!(de.remaining(), "x y");
    let mut de = Deserializer::from_str("-5 y");
    assert_eq!(decode_any(&mut de, None), Ok(Value::Int(-5)));
    assert_eq!(de.remaining(), " y");
}

#[test]
fn only_the_last_field_may_have_no_name() {
    let list = || Shape::List(Box::new(Shape::Str));
    let good = Shape::Struct(s("r"), vec![field("a", Shape::Str), field("", list())]);
    assert!(good.is_well_formed());
    let not_last = Shape::Struct(s("r"), vec![field("", list()), field("a", Shape::Str)]);
    assert!(!not_last.is_well_formed());
    let no_sequence = Shape::Struct(s("r"), vec![field("", Shape::Str)]);
    assert!(!no_sequence.is_well_formed());
    let twice = Shape::Struct(s("r"), vec![field("", list()), field("", list())]);
    assert!(!twice.is_well_formed());
    let nested = Shape::Untagged(vec![
        Shape::UnitStruct(s("a")),
        Shape::NewtypeStruct(s("b"), Box::new(OptionDef::shape(not_last))),
    ]);
    assert!(!nested.is_well_formed());
    assert!(Shape::Tuple(vec![Shape::Bool, good]).is_well_formed());
}
