//! Quoted string literals and their two escapes.

use vstd::prelude::*;

verus! {

/// A quoted literal: its text, and the number of characters that it spans
/// behind its opening quote, the closing quote included.
pub ghost struct Quoted {
    pub text: Seq<char>,
    pub len: nat,
}

/// Whether `s` begins with a backslash that escapes the character behind it:
/// another backslash or a quote. Before anything else a backslash stands
/// for itself.
pub open spec fn is_escape(s: Seq<char>) -> bool {
    s.len() >= 2 && s[0] == '\\' && (s[1] == '\\' || s[1] == '"')
}

/// The text that a quoted literal holds and the number of characters that
/// it spans, both counted from behind its opening quote to its closing
/// quote, which is the first quote that is not escaped. Escapes are
/// resolved from left to right. Nothing if no closing quote is there.
pub open spec fn unescape(s: Seq<char>) -> Option<Quoted>
    decreases s.len(),
{
    if s.len() == 0 {
        None
    } else if s[0] == '"' {
        Some(Quoted { text: Seq::empty(), len: 1 })
    } else if is_escape(s) {
        match unescape(s.skip(2)) {
            Some(q) => Some(Quoted { text: seq![s[1]] + q.text, len: q.len + 2 }),
            None => None,
        }
    } else {
        match unescape(s.skip(1)) {
            Some(q) => Some(Quoted { text: seq![s[0]] + q.text, len: q.len + 1 }),
            None => None,
        }
    }
}

/// The number of characters of `s` up to its last quote, that quote
/// included; 0 if it has none.
pub open spec fn last_quote_end(s: Seq<char>) -> nat
    decreases s.len(),
{
    if s.len() == 0 {
        0
    } else if s.last() == '"' {
        s.len()
    } else {
        last_quote_end(s.drop_last())
    }
}

/// What is left of a literal after `out` has been read from its first `k`
/// characters.
pub open spec fn resume(out: Seq<char>, k: nat, rest: Option<Quoted>) -> Option<Quoted> {
    match rest {
        Some(q) => Some(Quoted { text: out + q.text, len: q.len + k }),
        None => None,
    }
}

/// Reads the quoted literal whose opening quote stands before `from`. Gives
/// its text and the place behind its closing quote, or, where it is not
/// closed, the place behind the last quote that there is.
#[verifier::loop_isolation(false)]
pub(crate) fn read_quoted(chars: &Vec<char>, from: usize) -> (r: Result<(Vec<char>, usize), usize>)
    requires
        from <= chars.len(),
    ensures
        match unescape(chars@.skip(from as int)) {
            Some(q) => r is Ok && r->Ok_0.0@ == q.text && r->Ok_0.1 == from + q.len && from
                + q.len <= chars.len(),
            None => r is Err && r->Err_0 == from + last_quote_end(chars@.skip(from as int))
                && r->Err_0 <= chars.len(),
        },
{
    let ghost body = chars@.skip(from as int);
    let len = chars.len();
    let mut out: Vec<char> = Vec::new();
    let mut mark: usize = from;
    let mut i: usize = from;
    proof {
        assert(body.skip(0) =~= body);
        if unescape(body) is Some {
            assert(Seq::<char>::empty() + unescape(body)->0.text =~= unescape(body)->0.text);
        }
        assert(body.take(0) =~= Seq::<char>::empty());
    }
    while i < len
        invariant
            from <= i <= len,
            from <= mark <= i,
            unescape(body) == resume(out@, (i - from) as nat, unescape(body.skip(i - from))),
            last_quote_end(body.take(i - from)) == mark - from,
        decreases len - i,
    {
        let ghost k = i - from;
        let ghost rest = body.skip(k);
        let c = chars[i];
        proof {
            assert(rest[0] == c);
            assert(body.take(k + 1).drop_last() =~= body.take(k));
            assert(body.take(k + 1).last() == c);
        }
        if c == '"' {
            proof {
                assert(out@ + Seq::<char>::empty() =~= out@);
            }
            return Ok((out, i + 1));
        }
        assert(last_quote_end(body.take(k + 1)) == last_quote_end(body.take(k)));
        if c == '\\' && i + 1 < len && (chars[i + 1] == '\\' || chars[i + 1] == '"') {
            let e = chars[i + 1];
            proof {
                assert(rest[1] == e);
                assert(is_escape(rest));
                assert(rest.skip(2) =~= body.skip(k + 2));
                assert(body.take(k + 2).drop_last() =~= body.take(k + 1));
                assert(body.take(k + 2).last() == e);
                assert(last_quote_end(body.take(k + 2)) == if e == '"' {
                    (k + 2) as nat
                } else {
                    last_quote_end(body.take(k + 1))
                });
                match unescape(body.skip(k + 2)) {
                    Some(q) => {
                        assert(out@ + (seq![e] + q.text) =~= out@.push(e) + q.text);
                    },
                    None => {},
                }
            }
            out.push(e);
            i = i + 2;
            if e == '"' {
                mark = i;
            }
        } else {
            proof {
                assert(!is_escape(rest));
                assert(rest.skip(1) =~= body.skip(k + 1));
                match unescape(body.skip(k + 1)) {
                    Some(q) => {
                        assert(out@ + (seq![c] + q.text) =~= out@.push(c) + q.text);
                    },
                    None => {},
                }
            }
            out.push(c);
            i = i + 1;
        }
    }
    proof {
        assert(body.take(len - from) =~= body);
    }
    Err(mark)
}

} // verus!
