//! Character classes of the notation, runs of characters, and conversions
//! between strings and character vectors.

use vstd::prelude::*;

verus! {

/// The classes of characters that the lexer scans runs of.
#[derive(Clone, Copy, Debug, PartialEq, Eq)]
pub enum CharClass {
    /// ASCII whitespace.
    Whitespace,
    /// ASCII letters and the underscore.
    Identifier,
    /// Anything but ASCII whitespace and the closing parenthesis.
    Atom,
    /// ASCII decimal digits.
    Digit,
    /// What a number is written with: ASCII decimal digits, `.` and `-`.
    Numeric,
}

pub open spec fn is_ascii_whitespace(c: char) -> bool {
    c == ' ' || c == '\t' || c == '\n' || c == '\x0C' || c == '\r'
}

pub open spec fn is_identifier_char(c: char) -> bool {
    ('a' <= c && c <= 'z') || ('A' <= c && c <= 'Z') || c == '_'
}

pub open spec fn is_ascii_digit(c: char) -> bool {
    '0' <= c && c <= '9'
}

pub open spec fn in_class(class: CharClass, c: char) -> bool {
    match class {
        CharClass::Whitespace => is_ascii_whitespace(c),
        CharClass::Identifier => is_identifier_char(c),
        CharClass::Atom => !is_ascii_whitespace(c) && c != ')',
        CharClass::Digit => is_ascii_digit(c),
        CharClass::Numeric => is_ascii_digit(c) || c == '.' || c == '-',
    }
}

/// The length of the longest prefix of `s` whose characters are all in `class`.
pub open spec fn run_len(s: Seq<char>, class: CharClass) -> nat
    decreases s.len(),
{
    if s.len() == 0 || !in_class(class, s[0]) {
        0
    } else {
        1 + run_len(s.skip(1), class)
    }
}

/// `run_len` is at most the length, covers only characters of the class, and
/// stops at the end or at the first character outside the class.
pub proof fn lemma_run_len_bounds(s: Seq<char>, class: CharClass)
    ensures
        run_len(s, class) <= s.len(),
        forall|i: int| 0 <= i < run_len(s, class) ==> in_class(class, #[trigger] s[i]),
        run_len(s, class) < s.len() ==> !in_class(class, s[run_len(s, class) as int]),
    decreases s.len(),
{
    if s.len() == 0 || !in_class(class, s[0]) {
    } else {
        lemma_run_len_bounds(s.skip(1), class);
        assert forall|i: int| 0 <= i < run_len(s, class) implies in_class(class, #[trigger] s[i]) by {
            if i > 0 {
                assert(s[i] == s.skip(1)[i - 1]);
            }
        }
        assert(run_len(s, class) < s.len() ==> s[run_len(s, class) as int] == s.skip(1)[run_len(
            s.skip(1),
            class,
        ) as int]);
    }
}

/// A prefix of `n` characters of the class that cannot be extended is the run.
pub proof fn lemma_run_len_is(s: Seq<char>, class: CharClass, n: nat)
    requires
        n <= s.len(),
        forall|i: int| 0 <= i < n ==> in_class(class, #[trigger] s[i]),
        n < s.len() ==> !in_class(class, s[n as int]),
    ensures
        run_len(s, class) == n,
    decreases s.len(),
{
    if n == 0 {
    } else {
        assert(in_class(class, s[0]));
        assert forall|i: int| 0 <= i < n - 1 implies in_class(class, #[trigger] s.skip(1)[i]) by {
            assert(s.skip(1)[i] == s[i + 1]);
        }
        lemma_run_len_is(s.skip(1), class, (n - 1) as nat);
    }
}

pub fn char_in_class(class: CharClass, c: char) -> (b: bool)
    ensures
        b == in_class(class, c),
{
    match class {
        CharClass::Whitespace => c == ' ' || c == '\t' || c == '\n' || c == '\x0C' || c == '\r',
        CharClass::Identifier => (c >= 'a' && c <= 'z') || (c >= 'A' && c <= 'Z') || c == '_',
        CharClass::Atom => !(c == ' ' || c == '\t' || c == '\n' || c == '\x0C' || c == '\r') && c
            != ')',
        CharClass::Digit => c >= '0' && c <= '9',
        CharClass::Numeric => (c >= '0' && c <= '9') || c == '.' || c == '-',
    }
}

/// The length of the run of characters of `class` in `chars` that starts at
/// `from`.
pub(crate) fn run_from(chars: &Vec<char>, from: usize, class: CharClass) -> (n: usize)
    requires
        from <= chars.len(),
    ensures
        n == run_len(chars@.skip(from as int), class),
        from + n <= chars.len(),
{
    let mut i: usize = from;
    while i < chars.len() && char_in_class(class, chars[i])
        invariant
            from <= i <= chars.len(),
            forall|j: int| from <= j < i ==> in_class(class, #[trigger] chars@[j]),
        decreases chars.len() - i,
    {
        i = i + 1;
    }
    proof {
        let rest = chars@.skip(from as int);
        assert forall|j: int| 0 <= j < i - from implies in_class(class, #[trigger] rest[j]) by {
            assert(rest[j] == chars@[from + j]);
        }
        lemma_run_len_is(rest, class, (i - from) as nat);
    }
    i - from
}

/// The characters of `chars` from `from` up to `to`.
pub(crate) fn copy_range(chars: &Vec<char>, from: usize, to: usize) -> (v: Vec<char>)
    requires
        from <= to <= chars.len(),
    ensures
        v@ == chars@.subrange(from as int, to as int),
{
    let mut v: Vec<char> = Vec::new();
    let mut i: usize = from;
    while i < to
        invariant
            from <= i <= to <= chars.len(),
            v@ == chars@.subrange(from as int, i as int),
        decreases to - i,
    {
        v.push(chars[i]);
        i = i + 1;
        assert(v@ =~= chars@.subrange(from as int, i as int));
    }
    v
}

/// The characters of a string, in order.
pub fn chars_of(s: &str) -> (v: Vec<char>)
    ensures
        v@ == s@,
{
    let mut v: Vec<char> = Vec::new();
    for c in it: s.chars()
        invariant
            v@ == it.seq().take(it.index() as int),
            it.seq() == s@,
    {
        v.push(c);
    }
    v
}

/// `String::from_iter` over the characters of a vector: the string that is
/// made of exactly these characters, in order.
#[verifier::external_body]
pub(crate) fn string_of(chars: &Vec<char>) -> (s: String)
    ensures
        s@ == chars@,
{
    String::from_iter(chars)
}

/// Appends the characters of `s` to `out`.
pub fn push_str(out: &mut Vec<char>, s: &str)
    ensures
        final(out)@ == old(out)@ + s@,
{
    let ghost before = out@;
    for c in it: s.chars()
        invariant
            out@ == before + it.seq().take(it.index() as int),
            it.seq() == s@,
    {
        out.push(c);
    }
}

} // verus!
