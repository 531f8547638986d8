use sexpr_codec::de::{Deserializer, Error, Token};
use sexpr_codec::{IntKind, NumberKind, Value};

#[test]
fn peek_and_next_char() {
    let mut de = Deserializer::from_str("ab");
    assert_eq!(de.peek_char(), Ok('a'));
    assert_eq!(de.next_char(), Ok('a'));
    assert_eq!(de.next_char(), Ok('b'));
    assert_eq!(de.peek_char(), Err(Error::Eof));
    assert_eq!(de.next_char(), Err(Error::Eof));
    assert_eq!(de.remaining(), "");
}

#[test]
fn next_char_takes_one_character_not_one_byte() {
    let mut de = Deserializer::from_str("\u{e9}x");
    assert_eq!(de.next_char(), Ok('\u{e9}'));
    assert_eq!(de.remaining(), "x");
}

#[test]
fn skip_whitespace_is_ascii_only() {
    let mut de = Deserializer::from_str(" \t\r\n\u{c}x ");
    de.skip_whitespace();
    assert_eq!(de.remaining(), "x ");
    let mut de = Deserializer::from_str("\u{a0}x");
    de.skip_whitespace();
    assert_eq!(de.remaining(), "\u{a0}x");
}

#[test]
fn consume_counts_characters() {
    let mut de = Deserializer::from_str("abc");
    assert_eq!(de.consume(4), Err(Error::Eof));
    assert_eq!(de.remaining(), "abc");
    assert_eq!(de.consume(2), Ok(()));
    assert_eq!(de.remaining(), "c");
    assert_eq!(de.consume(1), Ok(()));
    assert_eq!(de.consume(0), Ok(()));
    assert_eq!(de.remaining_len(), 0);
}

#[test]
fn peek_token_classes() {
    let token = |s: &str| Deserializer::from_str(s).peek_token();
    assert_eq!(token(""), Err(Error::Eof));
    assert_eq!(token("(at 1 2)"), Ok(Token::SExpr));
    assert_eq!(token("12 "), Ok(Token::Int));
    assert_eq!(token("-12"), Ok(Token::Int));
    assert_eq!(token("1.27 1.27)"), Ok(Token::Float));
    assert_eq!(token("-4.56"), Ok(Token::Float));
    assert_eq!(token("smd rect"), Ok(Token::Str));
    assert_eq!(token("\"F.Cu\")"), Ok(Token::Str));
    // a closing parenthesis right behind a number makes it a string
    assert_eq!(token("1)"), Ok(Token::Str));
    // an opening parenthesis behind digits makes it an expression
    assert_eq!(token("12(a)"), Ok(Token::SExpr));
    assert_eq!(token("1e5"), Ok(Token::Str));
    assert_eq!(token(" 1"), Ok(Token::Int));
}

#[test]
fn peek_identifier_is_the_run_of_letters_and_underscores() {
    let ident = |s: &str| Deserializer::from_str(s).peek_identifier();
    assert_eq!(ident("oval 0.635"), Some("oval".to_owned()));
    assert_eq!(ident("library_link2"), Some("library_link".to_owned()));
    assert_eq!(ident("0.635"), None);
    assert_eq!(ident(""), None);
    assert_eq!(ident("(at)"), None);
    assert_eq!(Deserializer::from_str("ab cd").identifier_len(), 2);
}

#[test]
fn peek_sexpr_identifier_errors() {
    let head = |s: &str| Deserializer::from_str(s).peek_sexpr_identifier();
    assert_eq!(head("(pad 1)"), Ok("pad".to_owned()));
    assert_eq!(head(""), Err(Error::Eof));
    assert_eq!(head("pad"), Err(Error::ExpectedSExpr('p')));
    assert_eq!(head("(1)"), Err(Error::ExpectedIdentifier));
    assert_eq!(head("("), Err(Error::ExpectedIdentifier));
    assert_eq!(head("( pad)"), Err(Error::ExpectedIdentifier));
}

#[test]
fn check_no_trailing_tokens_skips_whitespace() {
    let mut de = Deserializer::from_str("  \n");
    assert_eq!(de.check_no_trailing_tokens(), Ok(()));
    let mut de = Deserializer::from_str("  extra");
    assert_eq!(de.check_no_trailing_tokens(), Err(Error::TrailingTokens));
    assert_eq!(de.remaining(), "extra");
}

#[test]
fn parse_string_bare_and_quoted() {
    let mut de = Deserializer::from_str("smd rect");
    assert_eq!(de.parse_string(), Ok("smd".to_owned()));
    assert_eq!(de.remaining(), " rect");
    let mut de = Deserializer::from_str("\"F.Cu\")");
    assert_eq!(de.parse_string(), Ok("F.Cu".to_owned()));
    assert_eq!(de.remaining(), ")");
    let mut de = Deserializer::from_str("\"\" x");
    assert_eq!(de.parse_string(), Ok("".to_owned()));
    assert_eq!(de.remaining(), " x");
    let mut de = Deserializer::from_str("a\"b(c) d");
    assert_eq!(de.parse_string(), Ok("a\"b(c".to_owned()));
    assert_eq!(de.remaining(), ") d");
}

#[test]
fn parse_string_escapes() {
    let parse = |s: &str| Deserializer::from_str(s).parse_string();
    assert_eq!(parse(r#""a\"b""#), Ok(r#"a"b"#.to_owned()));
    assert_eq!(parse(r#""a\\""#), Ok(r#"a\"#.to_owned()));
    assert_eq!(parse(r#""a\\\"b""#), Ok(r#"a\"b"#.to_owned()));
    assert_eq!(parse(r#""a\b""#), Ok(r#"a\b"#.to_owned()));
    assert_eq!(parse(r#""\\\\""#), Ok(r#"\\"#.to_owned()));
    assert_eq!(parse(r#""\\\""#), Err(Error::Eof));
    assert_eq!(parse("\"\u{e9}\\\"\u{e8}\""), Ok("\u{e9}\"\u{e8}".to_owned()));
}

#[test]
fn parse_string_errors() {
    let mut de = Deserializer::from_str("");
    assert_eq!(de.parse_string(), Err(Error::Eof));
    let mut de = Deserializer::from_str("(a)");
    assert_eq!(de.parse_string(), Err(Error::ExpectedString));
    assert_eq!(de.remaining(), "(a)");
    let mut de = Deserializer::from_str(") x");
    assert_eq!(de.parse_string(), Err(Error::Eof));
    assert_eq!(de.remaining(), ") x");
    let mut de = Deserializer::from_str(" x");
    assert_eq!(de.parse_string(), Err(Error::Eof));
    // a literal that is not closed is read up to the last quote
    let mut de = Deserializer::from_str(r#""ab\"cd"#);
    assert_eq!(de.parse_string(), Err(Error::Eof));
    assert_eq!(de.remaining(), "cd");
    let mut de = Deserializer::from_str("\"abc");
    assert_eq!(de.parse_string(), Err(Error::Eof));
    assert_eq!(de.remaining(), "abc");
}

#[test]
fn parse_number_integers() {
    let parse = |s: &str, k: IntKind| Deserializer::from_str(s).parse_number(NumberKind::Int(k));
    assert_eq!(parse("-90)", IntKind::I16), Ok(Value::Int(-90)));
    assert_eq!(parse("+7 ", IntKind::U8), Ok(Value::UInt(7)));
    assert_eq!(parse("255", IntKind::U8), Ok(Value::UInt(255)));
    assert_eq!(parse("-128", IntKind::I8), Ok(Value::Int(-128)));
    assert_eq!(parse("127", IntKind::I8), Ok(Value::Int(127)));
    assert_eq!(parse("007", IntKind::I8), Ok(Value::Int(7)));
    assert_eq!(parse("-0", IntKind::I32), Ok(Value::Int(0)));
    assert_eq!(
        parse("340282366920938463463374607431768211455", IntKind::U128),
        Ok(Value::UInt(u128::MAX))
    );
    assert_eq!(
        parse("-170141183460469231731687303715884105728", IntKind::I128),
        Ok(Value::Int(i128::MIN))
    );
    assert_eq!(
        parse("170141183460469231731687303715884105727", IntKind::I128),
        Ok(Value::Int(i128::MAX))
    );
    assert_eq!(parse("18446744073709551615", IntKind::U64), Ok(Value::UInt(u64::MAX as u128)));
    assert_eq!(parse("-9223372036854775808", IntKind::I64), Ok(Value::Int(i64::MIN as i128)));
}

#[test]
fn parse_number_integer_errors() {
    let parse = |s: &str, k: IntKind| Deserializer::from_str(s).parse_number(NumberKind::Int(k));
    let msg = |m: &str| Err(Error::Message(m.to_owned()));
    assert_eq!(parse("", IntKind::I16), Err(Error::ExpectedNumber));
    assert_eq!(parse(" 1", IntKind::I16), Err(Error::ExpectedNumber));
    assert_eq!(parse(")", IntKind::I16), Err(Error::ExpectedNumber));
    assert_eq!(parse("256", IntKind::U8), msg("number too large to fit in target type"));
    assert_eq!(parse("128", IntKind::I8), msg("number too large to fit in target type"));
    assert_eq!(parse("-129", IntKind::I8), msg("number too small to fit in target type"));
    assert_eq!(parse("32768", IntKind::I16), msg("number too large to fit in target type"));
    assert_eq!(parse("65536", IntKind::U16), msg("number too large to fit in target type"));
    assert_eq!(parse("4294967296", IntKind::U32), msg("number too large to fit in target type"));
    assert_eq!(parse("-2147483649", IntKind::I32), msg("number too small to fit in target type"));
    assert_eq!(
        parse("340282366920938463463374607431768211456", IntKind::U128),
        msg("number too large to fit in target type")
    );
    assert_eq!(
        parse("-170141183460469231731687303715884105729", IntKind::I128),
        msg("number too small to fit in target type")
    );
    assert_eq!(parse("-1", IntKind::U8), msg("invalid digit found in string"));
    assert_eq!(parse("1.5", IntKind::I32), msg("invalid digit found in string"));
    assert_eq!(parse("-", IntKind::I32), msg("invalid digit found in string"));
    assert_eq!(parse("+", IntKind::U32), msg("invalid digit found in string"));
    assert_eq!(parse("12a", IntKind::U32), msg("invalid digit found in string"));
    // out of range is reported before what follows the digits
    assert_eq!(parse("300x", IntKind::U8), msg("number too large to fit in target type"));
    assert_eq!(parse("25x", IntKind::U8), msg("invalid digit found in string"));
    let mut de = Deserializer::from_str("12a b");
    assert!(de.parse_number(NumberKind::Int(IntKind::I8)).is_err());
    assert_eq!(de.remaining(), "12a b");
}

#[test]
fn parse_number_floats_keep_their_text() {
    let parse = |s: &str| Deserializer::from_str(s).parse_number(NumberKind::Float);
    let float = |s: &str| Ok(Value::Float(s.to_owned()));
    assert_eq!(parse("1.23 "), float("1.23"));
    assert_eq!(parse("-4.56)"), float("-4.56"));
    assert_eq!(parse("0"), float("0"));
    assert_eq!(parse("5."), float("5."));
    assert_eq!(parse(".5"), float(".5"));
    assert_eq!(parse("+1e10"), float("+1e10"));
    assert_eq!(parse("1.5E-3"), float("1.5E-3"));
    assert_eq!(parse("inf"), float("inf"));
    assert_eq!(parse("-Infinity"), float("-Infinity"));
    assert_eq!(parse("NaN"), float("NaN"));
    let bad = Err(Error::Message("invalid float literal".to_owned()));
    assert_eq!(parse("."), bad);
    assert_eq!(parse("1e"), bad);
    assert_eq!(parse("1e+"), bad);
    assert_eq!(parse("1.2.3"), bad);
    assert_eq!(parse("abc"), bad);
    assert_eq!(parse("-"), bad);
    assert_eq!(parse("infx"), bad);
    assert_eq!(parse("1e5x"), bad);
    assert_eq!(parse(""), Err(Error::ExpectedNumber));
}
