use sexpr_codec::de::Error;
use sexpr_codec::{from_str, to_string, Shape, Value};

fn foo_or_bar() -> Shape {
    Shape::Untagged(vec![
        Shape::UnitStruct("foo".to_owned()),
        Shape::UnitStruct("bar".to_owned()),
    ])
}

#[test]
fn deserialize_foo() {
    let input = "(foo)";
    let expected = Value::Untagged(0, Box::new(Value::UnitStruct("foo".to_owned())));

    let parsed = from_str(input, &foo_or_bar()).expect("Failed to parse input");
    assert_eq!(parsed, expected);
}

#[test]
fn deserialize_bar() {
    let input = "(bar)";
    let expected = Value::Untagged(1, Box::new(Value::UnitStruct("bar".to_owned())));

    let parsed = from_str(input, &foo_or_bar()).expect("Failed to parse input");
    assert_eq!(parsed, expected);
}

#[test]
fn untagged_unknown_head_names_the_candidates() {
    let err = from_str("(baz)", &foo_or_bar()).unwrap_err();
    assert_eq!(
        err,
        Error::Message(
            "invalid value: baz, expected any s-expr with a name in [\"foo\", \"bar\"]".to_owned()
        )
    );
}

#[test]
fn untagged_candidate_without_name_fails_at_first_use() {
    let shape = Shape::Untagged(vec![Shape::UnitStruct("foo".to_owned()), Shape::Str]);
    let err = from_str("(foo)", &shape).unwrap_err();
    assert_eq!(err, Error::Message("Expected to deserialize a struct".to_owned()));
}

#[test]
fn untagged_is_written_as_its_alternative() {
    let value = Value::Untagged(1, Box::new(Value::UnitStruct("bar".to_owned())));
    assert_eq!(to_string(&value).unwrap(), "(bar)");
}
