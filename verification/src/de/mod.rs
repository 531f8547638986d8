//! Decoding: the cursor over the input, the lexer and the scalar parsers.

use crate::text::{
    char_in_class, chars_of, copy_range, is_ascii_whitespace, lemma_run_len_bounds,
    lemma_run_len_is, run_from, run_len, string_of, CharClass,
};
use vstd::prelude::*;
use vstd::string::*;

pub mod engine;
pub mod error;
pub mod grammar;
pub mod names;
pub mod number;
pub mod quoted;
pub mod record;
pub mod tuple;

pub use error::{plain_result, text_result, value_result, Error, ErrorView};

use crate::shape::{NumberKind, Shape};
use crate::value::{Value, ValueView};
use number::{float_of, integer_of, integer_value};
use quoted::{last_quote_end, read_quoted, unescape};

verus! {

/// The lexical class of the token that the input begins with.
#[derive(Clone, Copy, Debug, PartialEq, Eq)]
pub enum Token {
    /// A quoted string or a bare atom.
    Str,
    /// Digits and `-` only.
    Int,
    /// Digits, `-` and at least one `.`.
    Float,
    /// An opening parenthesis.
    SExpr,
}

/// A cursor over the text that is being decoded. It only ever moves forward.
pub struct Deserializer {
    input: Vec<char>,
    pos: usize,
}

/// The input without its leading ASCII whitespace.
pub open spec fn skip_whitespace(s: Seq<char>) -> Seq<char> {
    s.skip(run_len(s, CharClass::Whitespace) as int)
}

/// The class of the token that `s` begins with: an opening parenthesis that
/// stands behind digits, `.` and `-` only makes it an expression; any other
/// character but whitespace there makes it a string; else it is a number,
/// floating-point where a `.` was seen.
pub open spec fn peek_token(s: Seq<char>) -> Result<Token, ErrorView> {
    let n = run_len(s, CharClass::Numeric) as int;
    if s.len() == 0 {
        Err(ErrorView::Eof)
    } else if n < s.len() && s[n] == '(' {
        Ok(Token::SExpr)
    } else if n < s.len() && !is_ascii_whitespace(s[n]) {
        Ok(Token::Str)
    } else if s.take(n).contains('.') {
        Ok(Token::Float)
    } else {
        Ok(Token::Int)
    }
}

/// The run of letters and underscores that `s` begins with, if there is one.
pub open spec fn peek_identifier(s: Seq<char>) -> Option<Seq<char>> {
    let n = run_len(s, CharClass::Identifier) as int;
    if n == 0 {
        None
    } else {
        Some(s.take(n))
    }
}

/// The name that follows the opening parenthesis at the head of `s`.
pub open spec fn peek_sexpr_identifier(s: Seq<char>) -> Result<Seq<char>, ErrorView> {
    if s.len() == 0 {
        Err(ErrorView::Eof)
    } else if s[0] != '(' {
        Err(ErrorView::ExpectedSExpr(s[0]))
    } else {
        match peek_identifier(s.skip(1)) {
            None => Err(ErrorView::ExpectedIdentifier),
            Some(name) => Ok(name),
        }
    }
}

/// A name at the head of the input is not empty and is the run of letters
/// and underscores there.
pub proof fn lemma_peek_identifier(s: Seq<char>)
    ensures
        peek_identifier(s) matches Some(name) ==> 0 < name.len() <= s.len() && name.len()
            == run_len(s, CharClass::Identifier) && name == s.take(name.len() as int),
{
    lemma_run_len_bounds(s, CharClass::Identifier);
}

/// A name behind an opening parenthesis is not empty and stands in the
/// input right behind the parenthesis.
pub proof fn lemma_peek_sexpr_identifier(s: Seq<char>)
    ensures
        peek_sexpr_identifier(s) matches Ok(name) ==> 0 < name.len() < s.len() && s[0] == '('
            && name.len() == run_len(s.skip(1), CharClass::Identifier) && name == s.skip(1).take(
            name.len() as int,
        ),
{
    if s.len() > 0 {
        lemma_peek_identifier(s.skip(1));
    }
}

/// Skipping whitespace takes a prefix away, and leaves no whitespace at the
/// head.
pub proof fn lemma_skip_whitespace(s: Seq<char>)
    ensures
        skip_whitespace(s).len() <= s.len(),
        skip_whitespace(s).len() > 0 ==> !is_ascii_whitespace(skip_whitespace(s)[0]),
        skip_whitespace(skip_whitespace(s)) == skip_whitespace(s),
{
    lemma_run_len_bounds(s, CharClass::Whitespace);
    let t = skip_whitespace(s);
    lemma_run_len_is(t, CharClass::Whitespace, 0);
    assert(t.skip(0) =~= t);
}

/// What a scalar parser makes of an input: its result, and the input that
/// is left.
pub ghost struct Scanned<T> {
    pub result: Result<T, ErrorView>,
    pub rest: Seq<char>,
}

/// The number of the given kind that `text` stands for.
pub open spec fn number_of(text: Seq<char>, kind: NumberKind) -> Result<ValueView, ErrorView> {
    match kind {
        NumberKind::Int(k) => match integer_of(text, k) {
            Ok(n) => Ok(integer_value(k, n)),
            Err(e) => Err(e),
        },
        NumberKind::Float => float_of(text),
    }
}

/// A number is read from the longest run of characters that are neither
/// whitespace nor a closing parenthesis. The run leaves the input only
/// where it is a number of the kind.
pub open spec fn parse_number(s: Seq<char>, kind: NumberKind) -> Scanned<ValueView> {
    let n = run_len(s, CharClass::Atom) as int;
    if n == 0 {
        Scanned { result: Err(ErrorView::ExpectedNumber), rest: s }
    } else {
        match number_of(s.take(n), kind) {
            Ok(v) => Scanned { result: Ok(v), rest: s.skip(n) },
            Err(e) => Scanned { result: Err(e), rest: s },
        }
    }
}

/// A string is a quoted literal, or the longest run of characters that are
/// neither whitespace nor a closing parenthesis. A literal that is not
/// closed is read up to the last quote that there is.
pub open spec fn parse_string(s: Seq<char>) -> Scanned<Seq<char>> {
    let n = run_len(s, CharClass::Atom) as int;
    if s.len() == 0 {
        Scanned { result: Err(ErrorView::Eof), rest: s }
    } else if s[0] == '(' {
        Scanned { result: Err(ErrorView::ExpectedString), rest: s }
    } else if s[0] == '"' {
        match unescape(s.skip(1)) {
            Some(q) => Scanned { result: Ok(q.text), rest: s.skip(1 + q.len as int) },
            None => Scanned {
                result: Err(ErrorView::Eof),
                rest: s.skip(1 + last_quote_end(s.skip(1)) as int),
            },
        }
    } else if n == 0 {
        Scanned { result: Err(ErrorView::Eof), rest: s }
    } else {
        Scanned { result: Ok(s.take(n)), rest: s.skip(n) }
    }
}

impl Deserializer {
    #[verifier::type_invariant]
    spec fn well_formed(self) -> bool {
        self.pos <= self.input.len()
    }

    /// The input that has not been consumed yet.
    pub closed spec fn view(&self) -> Seq<char> {
        self.input@.skip(self.pos as int)
    }

    /// A cursor at the start of `input`.
    pub fn from_str(input: &str) -> (de: Self)
        ensures
            de@ == input@,
    {
        let chars = chars_of(input);
        assert(chars@.skip(0) =~= chars@);
        Deserializer { input: chars, pos: 0 }
    }

    /// The input that has not been consumed yet.
    pub fn remaining(&self) -> (s: String)
        ensures
            s@ == self@,
    {
        proof {
            use_type_invariant(self);
        }
        let rest = copy_range(&self.input, self.pos, self.input.len());
        assert(rest@ =~= self@);
        string_of(&rest)
    }

    /// The number of characters that have not been consumed yet.
    pub fn remaining_len(&self) -> (n: usize)
        ensures
            n == self@.len(),
    {
        proof {
            use_type_invariant(self);
        }
        self.input.len() - self.pos
    }

    /// The length of the run of characters of `class` that starts `offset`
    /// characters into the remaining input.
    fn run(&self, offset: usize, class: CharClass) -> (n: usize)
        requires
            offset <= self@.len(),
        ensures
            n == run_len(self@.skip(offset as int), class),
            offset + n <= self@.len(),
    {
        proof {
            use_type_invariant(self);
            assert(self@.skip(offset as int) =~= self.input@.skip(self.pos + offset));
        }
        run_from(&self.input, self.pos + offset, class)
    }

    /// Fails with `TrailingTokens` if anything but whitespace is left.
    pub fn check_no_trailing_tokens(&mut self) -> (r: Result<(), Error>)
        ensures
            final(self)@ == skip_whitespace(old(self)@),
            plain_result(r) == if final(self)@.len() == 0 {
                Ok::<(), ErrorView>(())
            } else {
                Err::<(), ErrorView>(ErrorView::TrailingTokens)
            },
    {
        self.skip_whitespace();
        proof {
            use_type_invariant(&*self);
        }
        if self.pos < self.input.len() {
            return Err(Error::TrailingTokens);
        }
        Ok(())
    }

    /// Moves past the ASCII whitespace that the input begins with.
    pub fn skip_whitespace(&mut self)
        ensures
            final(self)@ == skip_whitespace(old(self)@),
    {
        let n = self.run(0, CharClass::Whitespace);
        proof {
            use_type_invariant(&*self);
            assert(self@.skip(0) =~= self@);
            assert(self.input@.skip(self.pos + n) =~= self@.skip(n as int));
        }
        self.pos = self.pos + n;
    }

    /// The next character, which stays in the input.
    pub fn peek_char(&self) -> (r: Result<char, Error>)
        ensures
            plain_result(r) == if self@.len() == 0 {
                Err::<char, ErrorView>(ErrorView::Eof)
            } else {
                Ok::<char, ErrorView>(self@[0])
            },
    {
        proof {
            use_type_invariant(self);
        }
        if self.pos < self.input.len() {
            Ok(self.input[self.pos])
        } else {
            Err(Error::Eof)
        }
    }

    /// Takes the next character out of the input.
    pub fn next_char(&mut self) -> (r: Result<char, Error>)
        ensures
            old(self)@.len() == 0 ==> plain_result(r) == Err::<char, ErrorView>(ErrorView::Eof)
                && final(self)@ == old(self)@,
            old(self)@.len() > 0 ==> plain_result(r) == Ok::<char, ErrorView>(old(self)@[0])
                && final(self)@ == old(self)@.skip(1),
    {
        proof {
            use_type_invariant(&*self);
        }
        if self.pos < self.input.len() {
            let ch = self.input[self.pos];
            proof {
                assert(self.input@.skip(self.pos + 1) =~= self@.skip(1));
            }
            self.pos = self.pos + 1;
            Ok(ch)
        } else {
            Err(Error::Eof)
        }
    }

    /// The lexical class of the next token, which stays in the input.
    pub fn peek_token(&self) -> (r: Result<Token, Error>)
        ensures
            plain_result(r) == peek_token(self@),
    {
        proof {
            use_type_invariant(self);
            assert(self@.skip(0) =~= self@);
        }
        if self.pos >= self.input.len() {
            return Err(Error::Eof);
        }
        let n = self.run(0, CharClass::Numeric);
        let end = self.pos + n;
        if end < self.input.len() && self.input[end] == '(' {
            return Ok(Token::SExpr);
        }
        if end < self.input.len() && !char_in_class(CharClass::Whitespace, self.input[end]) {
            return Ok(Token::Str);
        }
        if self.has_dot(n) {
            Ok(Token::Float)
        } else {
            Ok(Token::Int)
        }
    }

    /// Whether a `.` is among the first `n` characters of the input.
    fn has_dot(&self, n: usize) -> (b: bool)
        requires
            n <= self@.len(),
        ensures
            b == self@.take(n as int).contains('.'),
    {
        proof {
            use_type_invariant(self);
        }
        let ghost head = self@.take(n as int);
        let mut i: usize = 0;
        while i < n
            invariant
                i <= n,
                self.pos + n <= self.input.len(),
                head == self@.take(n as int),
                forall|j: int| 0 <= j < i ==> head[j] != '.',
            decreases n - i,
        {
            assert(head[i as int] == self.input@[self.pos + i]);
            if self.input[self.pos + i] == '.' {
                return true;
            }
            i = i + 1;
        }
        false
    }

    /// The length of the name that the input begins with; 0 if there is none.
    pub fn identifier_len(&self) -> (n: usize)
        ensures
            n == run_len(self@, CharClass::Identifier),
            n <= self@.len(),
    {
        proof {
            assert(self@.skip(0) =~= self@);
        }
        self.run(0, CharClass::Identifier)
    }

    /// The run of letters and underscores that the input begins with, which
    /// stays in the input.
    pub fn peek_identifier(&self) -> (r: Option<String>)
        ensures
            r is Some <==> peek_identifier(self@) is Some,
            r is Some ==> peek_identifier(self@) == Some(r->0@),
    {
        proof {
            use_type_invariant(self);
        }
        let n = self.identifier_len();
        if n == 0 {
            return None;
        }
        let name = copy_range(&self.input, self.pos, self.pos + n);
        assert(name@ =~= self@.take(n as int));
        Some(string_of(&name))
    }

    /// The name that follows the opening parenthesis at the head of the
    /// input; both stay in the input.
    pub fn peek_sexpr_identifier(&self) -> (r: Result<String, Error>)
        ensures
            text_result(r) == peek_sexpr_identifier(self@),
    {
        proof {
            use_type_invariant(self);
        }
        if self.pos >= self.input.len() {
            return Err(Error::Eof);
        }
        let next = self.input[self.pos];
        if next != '(' {
            return Err(Error::ExpectedSExpr(next));
        }
        let n = self.run(1, CharClass::Identifier);
        if n == 0 {
            return Err(Error::ExpectedIdentifier);
        }
        let name = copy_range(&self.input, self.pos + 1, self.pos + 1 + n);
        assert(name@ =~= self@.skip(1).take(n as int));
        Ok(string_of(&name))
    }

    /// Reads a number of the given kind.
    pub fn parse_number(&mut self, kind: NumberKind) -> (r: Result<Value, Error>)
        ensures
            value_result(r) == parse_number(old(self)@, kind).result,
            final(self)@ == parse_number(old(self)@, kind).rest,
    {
        proof {
            use_type_invariant(&*self);
            assert(self@.skip(0) =~= self@);
        }
        let n = self.run(0, CharClass::Atom);
        if n == 0 {
            return Err(Error::ExpectedNumber);
        }
        let text = copy_range(&self.input, self.pos, self.pos + n);
        proof {
            assert(text@ =~= self@.take(n as int));
            assert(self.input@.skip(self.pos + n) =~= self@.skip(n as int));
        }
        let number = match kind {
            NumberKind::Int(k) => number::parse_integer(&text, k),
            NumberKind::Float => number::parse_float(&text),
        };
        match number {
            Ok(v) => {
                self.pos = self.pos + n;
                Ok(v)
            },
            Err(e) => Err(e),
        }
    }

    /// Reads a string, quoted or bare.
    pub fn parse_string(&mut self) -> (r: Result<String, Error>)
        ensures
            text_result(r) == parse_string(old(self)@).result,
            final(self)@ == parse_string(old(self)@).rest,
    {
        proof {
            use_type_invariant(&*self);
            assert(self@.skip(0) =~= self@);
        }
        if self.pos >= self.input.len() {
            return Err(Error::Eof);
        }
        let first = self.input[self.pos];
        if first == '(' {
            return Err(Error::ExpectedString);
        }
        if first == '"' {
            proof {
                assert(self.input@.skip(self.pos + 1) =~= self@.skip(1));
            }
            match read_quoted(&self.input, self.pos + 1) {
                Ok((text, end)) => {
                    proof {
                        assert(self.input@.skip(end as int) =~= self@.skip(end - self.pos));
                    }
                    self.pos = end;
                    Ok(string_of(&text))
                },
                Err(end) => {
                    proof {
                        assert(self.input@.skip(end as int) =~= self@.skip(end - self.pos));
                    }
                    self.pos = end;
                    Err(Error::Eof)
                },
            }
        } else {
            let n = self.run(0, CharClass::Atom);
            if n == 0 {
                return Err(Error::Eof);
            }
            let text = copy_range(&self.input, self.pos, self.pos + n);
            proof {
                assert(text@ =~= self@.take(n as int));
                assert(self.input@.skip(self.pos + n) =~= self@.skip(n as int));
            }
            self.pos = self.pos + n;
            Ok(string_of(&text))
        }
    }

    /// Moves past `len` characters, or fails with `Eof` and stays where
    /// fewer are left.
    pub fn consume(&mut self, len: usize) -> (r: Result<(), Error>)
        ensures
            old(self)@.len() < len ==> plain_result(r) == Err::<(), ErrorView>(ErrorView::Eof)
                && final(self)@ == old(self)@,
            old(self)@.len() >= len ==> r is Ok && final(self)@ == old(self)@.skip(len as int),
    {
        proof {
            use_type_invariant(&*self);
        }
        if self.input.len() - self.pos < len {
            return Err(Error::Eof);
        }
        proof {
            assert(self.input@.skip(self.pos + len) =~= self@.skip(len as int));
        }
        self.pos = self.pos + len;
        Ok(())
    }
}

/// Decodes the value of the given shape that `input` holds.
///
/// The input is one expression and whitespace around it. What the decode
/// gives is what the grammar says of the shape at the root.
pub fn from_str(input: &str, shape: &Shape) -> (r: Result<Value, Error>)
    ensures
        value_result(r) == grammar::decode_root(*shape, input@).result,
{
    let mut deserializer = Deserializer::from_str(input);
    match engine::decode_root(&mut deserializer, shape) {
        Ok(value) => Ok(value),
        Err(failure) => Err(failure.error),
    }
}

} // verus!
