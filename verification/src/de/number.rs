//! The grammar of numbers: integers of a given type, and floating-point
//! numbers, which are kept as their text.

use crate::de::error::{Error, ErrorView};
use crate::shape::IntKind;
use crate::text::{
    is_ascii_digit, lemma_run_len_bounds, run_from, run_len, string_of, CharClass,
};
use crate::value::{Value, ValueView};
use vstd::prelude::*;

verus! {

/// The number that a decimal digit stands for.
pub open spec fn digit_value(c: char) -> nat {
    (c as u32 - '0' as u32) as nat
}

/// The number that a sequence of decimal digits stands for.
pub open spec fn digits_value(s: Seq<char>) -> nat
    decreases s.len(),
{
    if s.len() == 0 {
        0
    } else {
        digits_value(s.drop_last()) * 10 + digit_value(s.last())
    }
}

/// Whether `text` is written with a sign that the type takes. A sign alone
/// is no number.
pub open spec fn has_sign(text: Seq<char>, kind: IntKind) -> bool {
    text.len() > 1 && (text[0] == '+' || (text[0] == '-' && kind.signed()))
}

/// The number of type `kind` that `text` stands for: an optional sign (`-`
/// for signed types only) and decimal digits, nothing else. Of a text that
/// is both out of range and followed by something else, the range is
/// reported.
pub open spec fn integer_of(text: Seq<char>, kind: IntKind) -> Result<int, ErrorView> {
    let negative = has_sign(text, kind) && text[0] == '-';
    let digits = if has_sign(text, kind) {
        text.skip(1)
    } else {
        text
    };
    let run = run_len(digits, CharClass::Digit) as int;
    let magnitude = digits_value(digits.take(run)) as int;
    if text.len() == 0 {
        Err(ErrorView::Message("cannot parse integer from empty string"@))
    } else if negative && magnitude > -kind.min() {
        Err(ErrorView::Message("number too small to fit in target type"@))
    } else if !negative && magnitude > kind.max() {
        Err(ErrorView::Message("number too large to fit in target type"@))
    } else if run < digits.len() {
        Err(ErrorView::Message("invalid digit found in string"@))
    } else if negative {
        Ok(-magnitude)
    } else {
        Ok(magnitude)
    }
}

/// The value that holds the number `n` of type `kind`.
pub open spec fn integer_value(kind: IntKind, n: int) -> ValueView {
    if kind.signed() {
        ValueView::Int(n as i128)
    } else {
        ValueView::UInt(n as u128)
    }
}

/// `text` without the sign that it may begin with.
pub open spec fn unsigned_part(text: Seq<char>) -> Seq<char> {
    if text.len() > 0 && (text[0] == '+' || text[0] == '-') {
        text.skip(1)
    } else {
        text
    }
}

/// Whether `c` is the letter `w`, in either case; `w` is a small letter.
pub open spec fn same_letter(c: char, w: char) -> bool {
    c == w || ('A' <= c && c <= 'Z' && c as u32 + 32 == w as u32)
}

/// Whether `text` is `word`, whatever the case of its letters.
pub open spec fn is_word(text: Seq<char>, word: Seq<char>) -> bool {
    text.len() == word.len() && forall|i: int|
        0 <= i < text.len() ==> same_letter(#[trigger] text[i], word[i])
}

/// Whether `text` is an exponent: `e` or `E`, an optional sign, and at least
/// one digit.
pub open spec fn is_exponent(text: Seq<char>) -> bool {
    text.len() > 0 && (text[0] == 'e' || text[0] == 'E') && unsigned_part(text.skip(1)).len() > 0
        && run_len(unsigned_part(text.skip(1)), CharClass::Digit) == unsigned_part(
        text.skip(1),
    ).len()
}

/// Whether `text` is digits with at most one `.` among them, at least one
/// digit in all, and an optional exponent behind them.
pub open spec fn is_decimal(text: Seq<char>) -> bool {
    let whole = run_len(text, CharClass::Digit) as int;
    let tail = text.skip(whole);
    let dotted = tail.len() > 0 && tail[0] == '.';
    let fraction = if dotted {
        run_len(tail.skip(1), CharClass::Digit) as int
    } else {
        0
    };
    let rest = if dotted {
        tail.skip(1 + fraction)
    } else {
        tail
    };
    whole + fraction >= 1 && (rest.len() == 0 || is_exponent(rest))
}

/// Whether `text` is a floating-point number: an optional sign, and then
/// `inf`, `infinity` or `nan` in any case, or a decimal number.
pub open spec fn is_float_text(text: Seq<char>) -> bool {
    let body = unsigned_part(text);
    is_word(body, "inf"@) || is_word(body, "infinity"@) || is_word(body, "nan"@) || is_decimal(
        body,
    )
}

/// What a floating-point number is decoded to: its text, if it is one.
pub open spec fn float_of(text: Seq<char>) -> Result<ValueView, ErrorView> {
    if is_float_text(text) {
        Ok(ValueView::Float(text))
    } else {
        Err(ErrorView::Message("invalid float literal"@))
    }
}

/// A longer run of digits does not stand for a smaller number.
pub proof fn lemma_digits_value_monotone(s: Seq<char>, a: int, b: int)
    requires
        0 <= a <= b <= s.len(),
    ensures
        digits_value(s.take(a)) <= digits_value(s.take(b)),
    decreases b - a,
{
    if a < b {
        lemma_digits_value_monotone(s, a, b - 1);
        assert(s.take(b).drop_last() =~= s.take(b - 1));
        assert(digits_value(s.take(b)) == digits_value(s.take(b - 1)) * 10 + digit_value(
            s.take(b).last(),
        ));
    }
}

/// Reads the digits of `text` from `start` on. Gives the number that they
/// stand for; or `true` where the digits that `text` has there stand for
/// more than `limit`; or else `false` where something other than a digit
/// follows them.
fn read_digits(text: &Vec<char>, start: usize, limit: u128) -> (r: Result<u128, bool>)
    requires
        start <= text.len(),
        limit >= 9,
    ensures
        ({
            let digits = text@.skip(start as int);
            let run = run_len(digits, CharClass::Digit) as int;
            let magnitude = digits_value(digits.take(run));
            if magnitude > limit {
                r == Err::<u128, bool>(true)
            } else if run < digits.len() {
                r == Err::<u128, bool>(false)
            } else {
                r == Ok::<u128, bool>(magnitude as u128)
            }
        }),
{
    let len = text.len();
    let ghost digits = text@.skip(start as int);
    let ghost run = run_len(digits, CharClass::Digit) as int;
    proof {
        lemma_run_len_bounds(digits, CharClass::Digit);
        assert(digits.take(0) =~= Seq::<char>::empty());
    }
    let mut acc: u128 = 0;
    let mut i: usize = start;
    while i < len
        invariant
            start <= i <= len,
            len == text.len(),
            limit >= 9,
            digits == text@.skip(start as int),
            run == run_len(digits, CharClass::Digit),
            run <= digits.len(),
            forall|j: int| 0 <= j < run ==> is_ascii_digit(#[trigger] digits[j]),
            run < digits.len() ==> !is_ascii_digit(digits[run]),
            i - start <= run,
            acc == digits_value(digits.take(i - start)),
            acc <= limit,
        decreases len - i,
    {
        let c = text[i];
        assert(digits[i - start] == c);
        if !(c >= '0' && c <= '9') {
            assert(run == i - start);
            return Err(false);
        }
        let d: u128 = ((c as u32) - ('0' as u32)) as u128;
        proof {
            assert(i - start < run);
            assert(digits.take(i - start + 1).drop_last() =~= digits.take(i - start));
            assert(digits.take(i - start + 1).last() == c);
            assert(digits_value(digits.take(i - start + 1)) == acc * 10 + d);
            lemma_digits_value_monotone(digits, i - start + 1, run);
        }
        if acc > (limit - d) / 10 {
            return Err(true);
        }
        acc = acc * 10 + d;
        i = i + 1;
    }
    proof {
        assert(run == digits.len());
        assert(digits.take(run) =~= digits);
    }
    Ok(acc)
}

/// The number of type `kind` that `text` stands for.
pub fn parse_integer(text: &Vec<char>, kind: IntKind) -> (r: Result<Value, Error>)
    ensures
        match integer_of(text@, kind) {
            Ok(n) => r is Ok && r->Ok_0@ == integer_value(kind, n) && kind.min() <= n
                <= kind.max(),
            Err(e) => r is Err && r->Err_0@ == e,
        },
{
    let len = text.len();
    if len == 0 {
        return Err(Error::custom("cannot parse integer from empty string"));
    }
    let signed = kind.is_signed();
    let sign = len > 1 && (text[0] == '+' || (text[0] == '-' && signed));
    let negative = sign && text[0] == '-';
    let start: usize = if sign {
        1
    } else {
        0
    };
    let limit = kind.limit(negative);
    proof {
        assert(text@.skip(0) =~= text@);
    }
    match read_digits(text, start, limit) {
        Err(true) => {
            if negative {
                Err(Error::custom("number too small to fit in target type"))
            } else {
                Err(Error::custom("number too large to fit in target type"))
            }
        },
        Err(false) => Err(Error::custom("invalid digit found in string")),
        Ok(magnitude) => {
            if signed {
                if negative {
                    if magnitude == 0x8000_0000_0000_0000_0000_0000_0000_0000 {
                        Ok(Value::Int(i128::MIN))
                    } else {
                        Ok(Value::Int(-(magnitude as i128)))
                    }
                } else {
                    Ok(Value::Int(magnitude as i128))
                }
            } else {
                Ok(Value::UInt(magnitude))
            }
        },
    }
}

/// Whether the characters of `text` from `from` on are `word`, whatever the
/// case of its letters.
fn is_word_at(text: &Vec<char>, from: usize, word: &str) -> (b: bool)
    requires
        from <= text.len(),
    ensures
        b == is_word(text@.skip(from as int), word@),
{
    let ghost rest = text@.skip(from as int);
    let mut i: usize = from;
    for w in it: word.chars()
        invariant
            it.seq() == word@,
            rest == text@.skip(from as int),
            from <= i <= text.len(),
            i - from == it.index(),
            forall|j: int| 0 <= j < it.index() ==> same_letter(#[trigger] rest[j], word@[j]),
    {
        if i >= text.len() {
            return false;
        }
        let c = text[i];
        assert(rest[i - from] == c);
        if !(c == w || (c >= 'A' && c <= 'Z' && (c as u32) + 32 == (w as u32))) {
            return false;
        }
        i = i + 1;
    }
    i == text.len()
}

/// Whether the characters of `text` from `from` on are an exponent.
fn is_exponent_at(text: &Vec<char>, from: usize) -> (b: bool)
    requires
        from <= text.len(),
    ensures
        b == is_exponent(text@.skip(from as int)),
{
    let ghost rest = text@.skip(from as int);
    if from >= text.len() {
        return false;
    }
    assert(rest[0] == text@[from as int]);
    if !(text[from] == 'e' || text[from] == 'E') {
        return false;
    }
    assert(rest.skip(1) =~= text@.skip(from + 1));
    let mut at: usize = from + 1;
    if at < text.len() && (text[at] == '+' || text[at] == '-') {
        assert(rest.skip(1)[0] == text@[at as int]);
        assert(rest.skip(1).skip(1) =~= text@.skip(at + 1));
        at = at + 1;
    } else {
        if at < text.len() {
            assert(rest.skip(1)[0] == text@[at as int]);
        }
    }
    assert(unsigned_part(rest.skip(1)) == text@.skip(at as int));
    let n = run_from(text, at, CharClass::Digit);
    n > 0 && at + n == text.len()
}

/// Whether `text` is a floating-point number.
pub fn is_float(text: &Vec<char>) -> (b: bool)
    ensures
        b == is_float_text(text@),
{
    let mut at: usize = 0;
    if text.len() > 0 && (text[0] == '+' || text[0] == '-') {
        at = 1;
    }
    let ghost body = text@.skip(at as int);
    assert(text@.skip(0) =~= text@);
    assert(body == unsigned_part(text@));
    if is_word_at(text, at, "inf") || is_word_at(text, at, "infinity") || is_word_at(
        text,
        at,
        "nan",
    ) {
        return true;
    }
    let whole = run_from(text, at, CharClass::Digit);
    let mut next = at + whole;
    assert(body.skip(whole as int) =~= text@.skip(next as int));
    let mut fraction: usize = 0;
    if next < text.len() && text[next] == '.' {
        assert(body.skip(whole as int)[0] == text@[next as int]);
        assert(body.skip(whole as int).skip(1) =~= text@.skip(next + 1));
        fraction = run_from(text, next + 1, CharClass::Digit);
        assert(body.skip(whole as int).skip(1 + fraction) =~= text@.skip(next + 1 + fraction));
        next = next + 1 + fraction;
    } else {
        if next < text.len() {
            assert(body.skip(whole as int)[0] == text@[next as int]);
        }
    }
    if whole + fraction == 0 {
        return false;
    }
    next == text.len() || is_exponent_at(text, next)
}

/// A floating-point number, kept as its text.
pub fn parse_float(text: &Vec<char>) -> (r: Result<Value, Error>)
    ensures
        match float_of(text@) {
            Ok(v) => r is Ok && r->Ok_0@ == v,
            Err(e) => r is Err && r->Err_0@ == e,
        },
{
    if is_float(text) {
        Ok(Value::Float(string_of(text)))
    } else {
        Err(Error::custom("invalid float literal"))
    }
}

} // verus!
