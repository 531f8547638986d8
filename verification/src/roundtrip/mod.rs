//! Decoding gives back what was encoded.
//!
//! The statements here relate the two grammars: what the encoder writes for
//! a value, followed by anything that ends a token, is decoded to the value
//! again, and what follows is left.

use crate::de::number::{
    digit_value, digits_value, integer_of, integer_value, is_float_text,
};
use crate::de::quoted::{is_escape, unescape, Quoted};
use crate::de::{parse_number, parse_string, skip_whitespace, Scanned};
use crate::ser::{decimal_text, digit_char, digits_of, escape, forces_quotes, needs_quotes, str_text};
use crate::shape::{IntKind, NumberKind};
use crate::text::{
    in_class, is_ascii_whitespace, lemma_run_len_bounds, lemma_run_len_is,
    run_len, CharClass,
};
use crate::value::ValueView;
use vstd::prelude::*;

pub mod records;

verus! {

/// What can stand behind a token: whitespace or a closing parenthesis.
pub open spec fn ends_token(tail: Seq<char>) -> bool {
    tail.len() > 0 && (is_ascii_whitespace(tail[0]) || tail[0] == ')')
}

/// Whether all characters of `s` are in `class`.
pub open spec fn all_in(s: Seq<char>, class: CharClass) -> bool {
    forall|i: int| 0 <= i < s.len() ==> in_class(class, #[trigger] s[i])
}

/// Whitespace before something that does not begin with whitespace is all
/// that skipping whitespace takes away.
pub proof fn lemma_skip_separator(sep: Seq<char>, body: Seq<char>)
    requires
        all_in(sep, CharClass::Whitespace),
        body.len() == 0 || !is_ascii_whitespace(body[0]),
    ensures
        skip_whitespace(sep + body) == body,
{
    let s = sep + body;
    assert forall|i: int| 0 <= i < sep.len() implies in_class(
        CharClass::Whitespace,
        #[trigger] s[i],
    ) by {
        assert(s[i] == sep[i]);
    }
    if sep.len() < s.len() {
        assert(s[sep.len() as int] == body[0]);
    }
    lemma_run_len_is(s, CharClass::Whitespace, sep.len());
    assert(s.skip(sep.len() as int) =~= body);
}

/// A token of characters of a class, before something that is not of the
/// class, is the run of that class.
pub proof fn lemma_run_of_token(token: Seq<char>, tail: Seq<char>, class: CharClass)
    requires
        all_in(token, class),
        tail.len() == 0 || !in_class(class, tail[0]),
    ensures
        run_len(token + tail, class) == token.len(),
        (token + tail).take(token.len() as int) == token,
        (token + tail).skip(token.len() as int) == tail,
{
    let s = token + tail;
    assert forall|i: int| 0 <= i < token.len() implies in_class(class, #[trigger] s[i]) by {
        assert(s[i] == token[i]);
    }
    if token.len() < s.len() {
        assert(s[token.len() as int] == tail[0]);
    }
    lemma_run_len_is(s, class, token.len());
    assert(s.take(token.len() as int) =~= token);
    assert(s.skip(token.len() as int) =~= tail);
}

/// Reading a quoted literal undoes the escaping: whatever the text, and
/// whatever follows the closing quote.
pub proof fn lemma_unescape_escape(text: Seq<char>, tail: Seq<char>)
    ensures
        unescape(escape(text) + seq!['"'] + tail) == Some(
            Quoted { text, len: escape(text).len() + 1 },
        ),
    decreases text.len(),
{
    let s = escape(text) + seq!['"'] + tail;
    if text.len() == 0 {
        assert(s[0] == '"');
        assert(Seq::<char>::empty() =~= text);
    } else {
        let rest = text.skip(1);
        let inner = escape(rest) + seq!['"'] + tail;
        lemma_unescape_escape(rest, tail);
        if text[0] == '\\' || text[0] == '"' {
            assert(escape(text) == seq!['\\', text[0]] + escape(rest));
            assert(s[0] == '\\');
            assert(s[1] == text[0]);
            assert(is_escape(s));
            assert(s.skip(2) =~= inner);
            assert(seq![text[0]] + rest =~= text);
            assert(escape(text).len() == escape(rest).len() + 2);
        } else {
            assert(escape(text) == seq![text[0]] + escape(rest));
            assert(s[0] == text[0]);
            assert(!is_escape(s));
            assert(s.skip(1) =~= inner);
            assert(seq![text[0]] + rest =~= text);
            assert(escape(text).len() == escape(rest).len() + 1);
        }
    }
}

/// A text that was written is read back, whatever it holds: in quotes
/// before anything, bare before what ends a token.
pub proof fn lemma_string_round_trip(text: Seq<char>, aggressive: bool, tail: Seq<char>)
    requires
        needs_quotes(text, aggressive) || ends_token(tail),
    ensures
        str_text(text, aggressive).len() > 1,
        str_text(text, aggressive)[0] == ' ',
        !is_ascii_whitespace(str_text(text, aggressive)[1]),
        str_text(text, aggressive)[1] != ')',
        str_text(text, aggressive)[1] != '(',
        parse_string(str_text(text, aggressive).skip(1) + tail) == (Scanned {
            result: Ok(text),
            rest: tail,
        }),
{
    let written = str_text(text, aggressive).skip(1) + tail;
    if needs_quotes(text, aggressive) {
        lemma_unescape_escape(text, tail);
        assert(written =~= seq!['"'] + (escape(text) + seq!['"'] + tail));
        assert(written[0] == '"');
        assert(written.skip(1) =~= escape(text) + seq!['"'] + tail);
        assert(written.skip(1 + (escape(text).len() + 1) as int) =~= tail);
    } else {
        assert(str_text(text, aggressive).skip(1) =~= text);
        assert forall|i: int| 0 <= i < text.len() implies in_class(
            CharClass::Atom,
            #[trigger] text[i],
        ) && text[i] != '(' && text[i] != '"' by {
            assert(!forces_quotes(text[i], aggressive));
        }
        assert(text.len() > 0);
        assert(str_text(text, aggressive)[1] == text[0]);
        lemma_run_of_token(text, tail, CharClass::Atom);
        assert(written == text + tail);
        assert(written[0] == text[0]);
    }
}

/// The digits that a number is written with stand for the number.
pub proof fn lemma_digits_of(n: nat)
    ensures
        digits_of(n).len() > 0,
        all_in(digits_of(n), CharClass::Digit),
        digits_value(digits_of(n)) == n,
    decreases n,
{
    if n < 10 {
        let s = digits_of(n);
        assert(s.drop_last() =~= Seq::<char>::empty());
        assert(digits_value(s.drop_last()) == 0);
        assert(digit_value(digit_char(n)) == n);
    } else {
        lemma_digits_of(n / 10);
        let s = digits_of(n);
        let head = digits_of(n / 10);
        assert(s.drop_last() =~= head);
        assert(s.last() == digit_char(n % 10));
        assert(digit_value(digit_char(n % 10)) == n % 10);
        assert forall|i: int| 0 <= i < s.len() implies in_class(CharClass::Digit, #[trigger] s[i]) by {
            if i < head.len() {
                assert(s[i] == head[i]);
            }
        }
    }
}

/// A number that was written is read back as any type that holds it.
pub proof fn lemma_integer_round_trip(n: int, kind: IntKind, tail: Seq<char>)
    requires
        kind.min() <= n <= kind.max(),
        ends_token(tail),
    ensures
        decimal_text(n).len() > 0,
        all_in(decimal_text(n), CharClass::Numeric),
        parse_number(decimal_text(n) + tail, NumberKind::Int(kind)) == (Scanned {
            result: Ok(integer_value(kind, n)),
            rest: tail,
        }),
{
    let text = decimal_text(n);
    let magnitude = if n < 0 {
        (-n) as nat
    } else {
        n as nat
    };
    lemma_digits_of(magnitude);
    let digits = digits_of(magnitude);
    assert(all_in(text, CharClass::Atom) && all_in(text, CharClass::Numeric)) by {
        assert forall|i: int| 0 <= i < text.len() implies in_class(
            CharClass::Atom,
            #[trigger] text[i],
        ) && in_class(CharClass::Numeric, text[i]) by {
            if n < 0 {
                if i > 0 {
                    assert(text[i] == digits[i - 1]);
                    assert(in_class(CharClass::Digit, digits[i - 1]));
                }
            } else {
                assert(in_class(CharClass::Digit, digits[i]));
            }
        }
    }
    lemma_run_of_token(text, tail, CharClass::Atom);
    lemma_run_of_token(digits, Seq::empty(), CharClass::Digit);
    assert(digits + Seq::<char>::empty() =~= digits);
    assert(digits.take(digits.len() as int) =~= digits);
    if n < 0 {
        assert(text.skip(1) =~= digits);
        assert(text[0] == '-');
        assert(kind.signed());
    } else {
        assert(in_class(CharClass::Digit, digits[0]));
        assert(text[0] != '+' && text[0] != '-');
    }
    assert(integer_of(text, kind) == Ok::<int, crate::de::ErrorView>(n));
}

/// The text of a floating-point number is not empty and holds neither
/// whitespace nor a parenthesis.
pub proof fn lemma_float_text(text: Seq<char>)
    requires
        is_float_text(text),
    ensures
        text.len() > 0,
        all_in(text, CharClass::Atom),
        text[0] != '(',
{
    let body = crate::de::number::unsigned_part(text);
    let signed = text.len() > 0 && (text[0] == '+' || text[0] == '-');
    reveal_strlit("inf");
    reveal_strlit("infinity");
    reveal_strlit("nan");
    assert(body.len() > 0 && all_in(body, CharClass::Atom) && body[0] != '(') by {
        if crate::de::number::is_word(body, "inf"@) || crate::de::number::is_word(
            body,
            "infinity"@,
        ) || crate::de::number::is_word(body, "nan"@) {
            assert forall|i: int| 0 <= i < body.len() implies in_class(
                CharClass::Atom,
                #[trigger] body[i],
            ) by {
                let word = if crate::de::number::is_word(body, "inf"@) {
                    "inf"@
                } else if crate::de::number::is_word(body, "infinity"@) {
                    "infinity"@
                } else {
                    "nan"@
                };
                assert(crate::de::number::same_letter(body[i], word[i]));
                assert('a' <= word[i] && word[i] <= 'z');
            }
            let word = if crate::de::number::is_word(body, "inf"@) {
                "inf"@
            } else if crate::de::number::is_word(body, "infinity"@) {
                "infinity"@
            } else {
                "nan"@
            };
            assert(crate::de::number::same_letter(body[0], word[0]));
        } else {
            lemma_decimal_text(body);
        }
    }
    assert forall|i: int| 0 <= i < text.len() implies in_class(
        CharClass::Atom,
        #[trigger] text[i],
    ) by {
        if signed {
            if i > 0 {
                assert(text[i] == body[i - 1]);
            }
        }
    }
    if !signed {
        assert(text[0] == body[0]);
    }
}

/// A decimal number is not empty and holds neither whitespace nor a
/// parenthesis.
proof fn lemma_decimal_text(body: Seq<char>)
    requires
        crate::de::number::is_decimal(body),
    ensures
        body.len() > 0,
        all_in(body, CharClass::Atom),
        body[0] != '(',
{
    let whole = run_len(body, CharClass::Digit) as int;
    lemma_run_len_bounds(body, CharClass::Digit);
    let tail = body.skip(whole);
    let dotted = tail.len() > 0 && tail[0] == '.';
    let fraction = if dotted {
        run_len(tail.skip(1), CharClass::Digit) as int
    } else {
        0
    };
    if dotted {
        lemma_run_len_bounds(tail.skip(1), CharClass::Digit);
    }
    let rest = if dotted {
        tail.skip(1 + fraction)
    } else {
        tail
    };
    let start = body.len() - rest.len();
    let exponent = crate::de::number::unsigned_part(rest.skip(1));
    if rest.len() > 0 {
        lemma_run_len_bounds(exponent, CharClass::Digit);
    }
    assert forall|i: int| 0 <= i < body.len() implies in_class(
        CharClass::Atom,
        #[trigger] body[i],
    ) by {
        if i < whole {
        } else if i < start {
            assert(body[i] == tail[i - whole]);
            if i > whole {
                assert(tail[i - whole] == tail.skip(1)[i - whole - 1]);
                assert(in_class(CharClass::Digit, tail.skip(1)[i - whole - 1]));
            }
        } else {
            assert(body[i] == rest[i - start]);
            if i > start {
                assert(rest[i - start] == rest.skip(1)[i - start - 1]);
                let offset = rest.skip(1).len() - exponent.len();
                if i - start - 1 >= offset {
                    assert(rest.skip(1)[i - start - 1] == exponent[i - start - 1 - offset]);
                    assert(in_class(CharClass::Digit, exponent[i - start - 1 - offset]));
                }
            }
        }
    }
}

/// A floating-point number that was written is read back as its text.
pub proof fn lemma_float_round_trip(text: Seq<char>, tail: Seq<char>)
    requires
        is_float_text(text),
        ends_token(tail),
    ensures
        text.len() > 0,
        all_in(text, CharClass::Atom),
        text[0] != '(',
        parse_number(text + tail, NumberKind::Float) == (Scanned {
            result: Ok(ValueView::Float(text)),
            rest: tail,
        }),
{
    lemma_float_text(text);
    lemma_run_of_token(text, tail, CharClass::Atom);
}

} // verus!
