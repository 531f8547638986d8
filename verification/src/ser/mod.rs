//! Encoding: the output buffer and what is written for names, numbers and
//! strings.

use crate::text::{
    char_in_class, is_ascii_whitespace, is_identifier_char, push_str, string_of,
    CharClass,
};
use crate::value::Value;
use vstd::prelude::*;
use vstd::string::*;

pub mod encoder;
pub mod error;
pub mod grammar;

pub use error::{Error, ErrorView};

verus! {

/// Writes the text of values into a buffer, flat or indented.
pub struct Serializer {
    /// The text written so far.
    buf: Vec<char>,
    /// Whether each nested expression starts a line of its own.
    pretty: bool,
    /// The number of expressions that are open.
    lvl: usize,
}

/// The mathematical model of a [`Serializer`].
pub ghost struct SerializerView {
    pub out: Seq<char>,
    pub pretty: bool,
    pub lvl: nat,
}

/// Two spaces for each level.
pub open spec fn indentation(lvl: nat) -> Seq<char>
    decreases lvl,
{
    if lvl == 0 {
        Seq::empty()
    } else {
        indentation((lvl - 1) as nat) + seq![' ', ' ']
    }
}

/// What starts an expression: inside another one, a space or, when
/// indenting, a new line and the indentation; then the opening
/// parenthesis and the name.
pub open spec fn begin_text(name: Seq<char>, pretty: bool, lvl: nat) -> Seq<char> {
    let lead = if lvl == 0 {
        Seq::empty()
    } else if pretty {
        seq!['\n'] + indentation(lvl)
    } else {
        seq![' ']
    };
    lead + seq!['('] + name
}

/// Whether a text must be written in quotes: an empty one, and one with
/// whitespace, a parenthesis or a quote in it; under `aggressive`, which
/// is for what is read back as a name, one with anything but letters and
/// underscores in it.
pub open spec fn needs_quotes(v: Seq<char>, aggressive: bool) -> bool {
    v.len() == 0 || exists|i: int| 0 <= i < v.len() && forces_quotes(#[trigger] v[i], aggressive)
}

pub open spec fn forces_quotes(c: char, aggressive: bool) -> bool {
    if aggressive {
        !is_identifier_char(c)
    } else {
        is_ascii_whitespace(c) || c == '(' || c == ')' || c == '"'
    }
}

/// The text with a backslash before each backslash and each quote.
pub open spec fn escape(v: Seq<char>) -> Seq<char>
    decreases v.len(),
{
    if v.len() == 0 {
        Seq::empty()
    } else if v[0] == '\\' || v[0] == '"' {
        seq!['\\', v[0]] + escape(v.skip(1))
    } else {
        seq![v[0]] + escape(v.skip(1))
    }
}

/// What is written for a text: a space, and the text, bare or escaped in
/// quotes.
pub open spec fn str_text(v: Seq<char>, aggressive: bool) -> Seq<char> {
    if needs_quotes(v, aggressive) {
        seq![' ', '"'] + escape(v) + seq!['"']
    } else {
        seq![' '] + v
    }
}

/// The character of a decimal digit.
pub open spec fn digit_char(d: nat) -> char {
    ('0' as u32 + d) as char
}

/// The decimal digits of a number, without leading zeros.
pub open spec fn digits_of(n: nat) -> Seq<char>
    decreases n,
{
    if n < 10 {
        seq![digit_char(n)]
    } else {
        digits_of(n / 10).push(digit_char(n % 10))
    }
}

/// A number in decimal, with `-` before a negative one.
pub open spec fn decimal_text(n: int) -> Seq<char> {
    if n < 0 {
        seq!['-'] + digits_of((-n) as nat)
    } else {
        digits_of(n as nat)
    }
}

/// `itoa::Buffer::format` on a signed number: the number in decimal, with
/// `-` before a negative one.
#[verifier::external_body]
pub(crate) fn format_signed(n: i128) -> (s: String)
    ensures
        s@ == decimal_text(n as int),
{
    itoa::Buffer::new().format(n).to_owned()
}

/// `itoa::Buffer::format` on an unsigned number: the number in decimal.
#[verifier::external_body]
pub(crate) fn format_unsigned(n: u128) -> (s: String)
    ensures
        s@ == decimal_text(n as int),
{
    itoa::Buffer::new().format(n).to_owned()
}

impl View for Serializer {
    type V = SerializerView;

    closed spec fn view(&self) -> SerializerView {
        SerializerView { out: self.buf@, pretty: self.pretty, lvl: self.lvl as nat }
    }
}

impl Serializer {
    /// An empty buffer with no expression open.
    pub fn new(pretty: bool) -> (ser: Self)
        ensures
            ser@ == (SerializerView { out: Seq::empty(), pretty, lvl: 0 }),
    {
        Serializer { buf: Vec::new(), pretty, lvl: 0 }
    }

    /// The text written so far.
    pub fn into_string(self) -> (s: String)
        ensures
            s@ == self@.out,
    {
        string_of(&self.buf)
    }

    /// Whether no further expression can be opened: the count of open
    /// expressions is at the machine's limit.
    pub fn is_full(&self) -> (b: bool)
        ensures
            b == (self@.lvl >= usize::MAX),
    {
        self.lvl == usize::MAX
    }

    /// Starts a line, indented by the number of open expressions.
    pub fn newline(&mut self)
        ensures
            final(self)@ == (SerializerView {
                out: old(self)@.out + seq!['\n'] + indentation(old(self)@.lvl),
                ..old(self)@
            }),
    {
        self.buf.push('\n');
        let mut i: usize = 0;
        while i < self.lvl
            invariant
                i <= self.lvl,
                self.lvl == old(self).lvl,
                self.pretty == old(self).pretty,
                self.buf@ == old(self).buf@ + seq!['\n'] + indentation(i as nat),
            decreases self.lvl - i,
        {
            self.buf.push(' ');
            self.buf.push(' ');
            i = i + 1;
            assert(self.buf@ =~= old(self).buf@ + seq!['\n'] + indentation(i as nat));
        }
    }

    /// Opens an expression named `name`.
    pub fn begin_sexpr(&mut self, name: &str)
        requires
            old(self)@.lvl < usize::MAX,
        ensures
            final(self)@.out == old(self)@.out + begin_text(
                name@,
                old(self)@.pretty,
                old(self)@.lvl,
            ),
            final(self)@.lvl == old(self)@.lvl + 1,
            final(self)@.pretty == old(self)@.pretty,
    {
        if self.lvl > 0 {
            if self.pretty {
                self.newline();
            } else {
                self.buf.push(' ');
            }
        }
        self.lvl = self.lvl + 1;
        self.buf.push('(');
        push_str(&mut self.buf, name);
        assert(self.buf@ =~= old(self).buf@ + begin_text(
            name@,
            old(self)@.pretty,
            old(self)@.lvl,
        ));
    }

    /// Closes the expression that was opened last.
    pub fn end_sexpr(&mut self)
        requires
            old(self)@.lvl > 0,
        ensures
            final(self)@ == (SerializerView {
                out: old(self)@.out.push(')'),
                lvl: (old(self)@.lvl - 1) as nat,
                ..old(self)@
            }),
    {
        self.lvl = self.lvl - 1;
        self.buf.push(')');
    }

    /// Writes a space and a signed number.
    pub fn write_integer(&mut self, v: i128)
        ensures
            final(self)@ == (SerializerView {
                out: old(self)@.out + seq![' '] + decimal_text(v as int),
                ..old(self)@
            }),
    {
        self.buf.push(' ');
        let text = format_signed(v);
        push_str(&mut self.buf, text.as_str());
        assert(self.buf@ =~= old(self).buf@ + seq![' '] + decimal_text(v as int));
    }

    /// Writes a space and an unsigned number.
    pub fn write_unsigned(&mut self, v: u128)
        ensures
            final(self)@ == (SerializerView {
                out: old(self)@.out + seq![' '] + decimal_text(v as int),
                ..old(self)@
            }),
    {
        self.buf.push(' ');
        let text = format_unsigned(v);
        push_str(&mut self.buf, text.as_str());
        assert(self.buf@ =~= old(self).buf@ + seq![' '] + decimal_text(v as int));
    }

    /// Writes a space and a floating-point number, which is given as its
    /// text.
    pub fn write_float(&mut self, v: &str)
        ensures
            final(self)@ == (SerializerView {
                out: old(self)@.out + seq![' '] + v@,
                ..old(self)@
            }),
    {
        self.buf.push(' ');
        push_str(&mut self.buf, v);
        assert(self.buf@ =~= old(self).buf@ + seq![' '] + v@);
    }

    /// Writes a space and a text, in quotes where it needs them.
    pub fn write_str(&mut self, v: &str, aggressive_quotes: bool)
        ensures
            final(self)@ == (SerializerView {
                out: old(self)@.out + str_text(v@, aggressive_quotes),
                ..old(self)@
            }),
    {
        self.buf.push(' ');
        if requires_quotes(v, aggressive_quotes) {
            self.buf.push('"');
            push_escaped(&mut self.buf, v);
            self.buf.push('"');
            assert(self.buf@ =~= old(self).buf@ + str_text(v@, aggressive_quotes));
        } else {
            push_str(&mut self.buf, v);
            assert(self.buf@ =~= old(self).buf@ + str_text(v@, aggressive_quotes));
        }
    }
}

/// Whether a text must be written in quotes.
pub fn requires_quotes(v: &str, aggressive: bool) -> (b: bool)
    ensures
        b == needs_quotes(v@, aggressive),
{
    let mut empty = true;
    for c in it: v.chars()
        invariant
            it.seq() == v@,
            empty == (it.index() == 0),
            forall|j: int| 0 <= j < it.index() ==> !forces_quotes(#[trigger] v@[j], aggressive),
    {
        let forces = if aggressive {
            !char_in_class(CharClass::Identifier, c)
        } else {
            char_in_class(CharClass::Whitespace, c) || c == '(' || c == ')' || c == '"'
        };
        if forces {
            assert(forces_quotes(v@[it.index() as int], aggressive));
            return true;
        }
        empty = false;
    }
    empty
}

/// Appends `v` with a backslash before each backslash and each quote.
pub fn push_escaped(out: &mut Vec<char>, v: &str)
    ensures
        final(out)@ == old(out)@ + escape(v@),
{
    let ghost before = out@;
    proof {
        assert(v@.skip(0) =~= v@);
        assert(before + Seq::<char>::empty() =~= before);
    }
    for c in it: v.chars()
        invariant
            it.seq() == v@,
            before + escape(v@) == out@ + escape(v@.skip(it.index() as int)),
    {
        let ghost k = it.index() as int;
        let ghost rest = v@.skip(k);
        let ghost current = out@;
        proof {
            assert(rest[0] == c);
            assert(rest.skip(1) =~= v@.skip(k + 1));
        }
        if c == '\\' || c == '"' {
            out.push('\\');
        }
        out.push(c);
        proof {
            if c == '\\' || c == '"' {
                assert(out@ + escape(v@.skip(k + 1)) =~= current + (seq!['\\', c] + escape(
                    v@.skip(k + 1),
                )));
            } else {
                assert(out@ + escape(v@.skip(k + 1)) =~= current + (seq![c] + escape(
                    v@.skip(k + 1),
                )));
            }
        }
    }
    proof {
        assert(v@.skip(v@.len() as int) =~= Seq::<char>::empty());
        assert(out@ + Seq::<char>::empty() =~= out@);
    }
}

/// The text of a record, on one line.
pub fn to_string(value: &Value) -> (r: Result<String, Error>)
    ensures
        match grammar::encode_root(value@, false, 0) {
            Ok(text) => r is Ok && r->Ok_0@ == text,
            Err(e) => r is Err && r->Err_0@ == e,
        },
{
    let mut serializer = Serializer::new(false);
    match serializer.serialize(value) {
        Ok(()) => {
            assert(serializer@.out =~= grammar::encode_root(value@, false, 0)->Ok_0);
            Ok(serializer.into_string())
        },
        Err(e) => Err(e),
    }
}

/// The text of a record, with each nested expression on a line of its own,
/// indented by two spaces for each expression around it.
pub fn to_string_pretty(value: &Value) -> (r: Result<String, Error>)
    ensures
        match grammar::encode_root(value@, true, 0) {
            Ok(text) => r is Ok && r->Ok_0@ == text,
            Err(e) => r is Err && r->Err_0@ == e,
        },
{
    let mut serializer = Serializer::new(true);
    match serializer.serialize(value) {
        Ok(()) => {
            assert(serializer@.out =~= grammar::encode_root(value@, true, 0)->Ok_0);
            Ok(serializer.into_string())
        },
        Err(e) => Err(e),
    }
}

} // verus!
