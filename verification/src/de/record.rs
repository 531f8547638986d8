//! The state of a record that is being decoded: which field is next, and
//! whether fields are to be passed over.

use crate::de::{
    lemma_peek_identifier, lemma_peek_sexpr_identifier, peek_identifier, peek_sexpr_identifier,
    plain_result, skip_whitespace, Deserializer, Error, ErrorView, Scanned,
};
use crate::shape::FieldShape;
use vstd::prelude::*;
use vstd::string::*;

verus! {

/// Which fields of a record are to be passed over.
#[derive(Clone, Copy, Debug, PartialEq, Eq)]
pub enum SkipTo {
    /// None.
    Unset,
    /// Those before the field of this index, whose name has been read.
    Field(usize),
    /// All that are left: the closing parenthesis has been read.
    End,
}

/// Where the value of a field comes from.
#[derive(Clone, Copy, Debug, PartialEq, Eq)]
pub enum Source {
    /// The field's name was read: it is a flag that is set.
    Flag,
    /// The field is passed over: a flag that is not set, or a value that is
    /// not there.
    Missing,
    /// The next token.
    Field,
}

/// A record that is being decoded.
#[derive(Clone, Copy, Debug, PartialEq, Eq)]
pub struct SExpr {
    /// The index of the next field.
    pub index: usize,
    pub skip_to: SkipTo,
}

/// The model of an [`SExpr`].
pub ghost struct RecordState {
    pub index: nat,
    pub skip_to: SkipTo,
}

impl View for SExpr {
    type V = RecordState;

    open spec fn view(&self) -> RecordState {
        RecordState { index: self.index as nat, skip_to: self.skip_to }
    }
}

/// What deciding where a field's value comes from leaves behind.
pub ghost struct Chosen {
    pub source: Source,
    pub skip_to: SkipTo,
    pub rest: Seq<char>,
}

/// The start of an expression: whitespace, the opening parenthesis and the
/// name, which must be `name`. Only the whitespace leaves the input where
/// it is not.
pub open spec fn begin(name: Seq<char>, s: Seq<char>) -> Scanned<()> {
    let t = skip_whitespace(s);
    match peek_sexpr_identifier(t) {
        Err(e) => Scanned { result: Err(e), rest: t },
        Ok(found) => if found == name {
            Scanned { result: Ok(()), rest: t.skip(1 + name.len() as int) }
        } else {
            Scanned { result: Err(ErrorView::ExpectedSExprIdentifier(name, found)), rest: t }
        },
    }
}

/// Looks for the end of the record, unless fields are being passed over:
/// behind whitespace, a closing parenthesis is read, and all fields that
/// are left are passed over from then on.
pub open spec fn check_eoe(skip_to: SkipTo, s: Seq<char>) -> Scanned<SkipTo> {
    let t = skip_whitespace(s);
    if skip_to != SkipTo::Unset {
        Scanned { result: Ok(skip_to), rest: t }
    } else if t.len() == 0 {
        Scanned { result: Err(ErrorView::Eof), rest: t }
    } else if t[0] == ')' {
        Scanned { result: Ok(SkipTo::End), rest: t.skip(1) }
    } else {
        Scanned { result: Ok(SkipTo::Unset), rest: t }
    }
}

/// The names of the fields.
pub open spec fn field_names(fields: Seq<FieldShape>) -> Seq<Seq<char>> {
    Seq::new(fields.len(), |i: int| fields[i].name@)
}

/// The index of the first name from the `from`-th on that is `name`.
pub open spec fn find_name(names: Seq<Seq<char>>, name: Seq<char>, from: nat) -> Option<nat>
    decreases names.len() - from,
{
    if from >= names.len() {
        None
    } else if names[from as int] == name {
        Some(from)
    } else {
        find_name(names, name, from + 1)
    }
}

/// What `find_name` finds is the first index from `from` on with that name.
pub proof fn lemma_find_name(names: Seq<Seq<char>>, name: Seq<char>, from: nat)
    ensures
        match find_name(names, name, from) {
            Some(i) => from <= i < names.len() && names[i as int] == name && forall|j: int|
                from <= j < i ==> names[j] != name,
            None => forall|j: int| from <= j < names.len() ==> names[j] != name,
        },
    decreases names.len() - from,
{
    if from < names.len() && names[from as int] != name {
        lemma_find_name(names, name, from + 1);
    }
}

/// The field that a key is given for next: while fields are passed over,
/// those without a name get no key.
pub open spec fn next_key(fields: Seq<FieldShape>, state: RecordState) -> RecordState
    decreases fields.len() - state.index,
{
    if state.index < fields.len() && fields[state.index as int].name@.len() == 0 && state.skip_to
        != SkipTo::Unset {
        next_key(
            fields,
            RecordState {
                index: state.index + 1,
                skip_to: if state.skip_to == SkipTo::Field(state.index as usize) {
                    SkipTo::Unset
                } else {
                    state.skip_to
                },
            },
        )
    } else {
        state
    }
}

/// Where the value of the field of index `index` comes from.
///
/// While fields are passed over, it is missing, but for the field that the
/// passing over ends at, which is a flag that is set. Else a name at the
/// head of the input is looked at: if it is the field's name, it is read,
/// and the field is a flag that is set; if it is the name of a later field,
/// it is read, this field is missing, and so are all before that one; else
/// the value is read from the input.
pub open spec fn choose_source(
    fields: Seq<FieldShape>,
    index: nat,
    skip_to: SkipTo,
    s: Seq<char>,
) -> Chosen {
    match skip_to {
        SkipTo::Field(to) => if to == index {
            Chosen { source: Source::Flag, skip_to: SkipTo::Unset, rest: s }
        } else {
            Chosen { source: Source::Missing, skip_to, rest: s }
        },
        SkipTo::End => Chosen { source: Source::Missing, skip_to, rest: s },
        SkipTo::Unset => match peek_identifier(s) {
            None => Chosen { source: Source::Field, skip_to, rest: s },
            Some(name) => if fields[index as int].name@ == name {
                Chosen { source: Source::Flag, skip_to, rest: s.skip(name.len() as int) }
            } else {
                match find_name(field_names(fields), name, index + 1) {
                    Some(later) => Chosen {
                        source: Source::Missing,
                        skip_to: SkipTo::Field(later as usize),
                        rest: s.skip(name.len() as int),
                    },
                    None => Chosen { source: Source::Field, skip_to, rest: s },
                }
            },
        },
    }
}

/// The index of the first field from the `from`-th on whose name is `name`.
pub fn find_field(fields: &Vec<FieldShape>, name: &String, from: usize) -> (r: Option<usize>)
    ensures
        match find_name(field_names(fields@), name@, from as nat) {
            Some(i) => r == Some(i as usize) && i < fields.len(),
            None => r is None,
        },
{
    let mut i: usize = from;
    while i < fields.len()
        invariant
            find_name(field_names(fields@), name@, from as nat) == find_name(
                field_names(fields@),
                name@,
                i as nat,
            ),
        decreases fields.len() - i,
    {
        assert(field_names(fields@)[i as int] == fields@[i as int].name@);
        if fields[i].name == *name {
            return Some(i);
        }
        i = i + 1;
    }
    None
}

impl SExpr {
    /// Reads the start of the expression named `name`.
    pub fn consume_beginning(de: &mut Deserializer, name: &str) -> (r: Result<(), Error>)
        ensures
            plain_result(r) == begin(name@, old(de)@).result,
            final(de)@ == begin(name@, old(de)@).rest,
    {
        de.skip_whitespace();
        let found = de.peek_sexpr_identifier()?;
        if !str_eq(found.as_str(), name) {
            return Err(Error::ExpectedSExprIdentifier(name.to_owned(), found));
        }
        proof {
            lemma_peek_sexpr_identifier(de@);
            assert(de@.skip(1).skip(name@.len() as int) =~= de@.skip(1 + name@.len() as int));
        }
        let _ = de.next_char();
        let n = de.identifier_len();
        let _ = de.consume(n);
        Ok(())
    }

    /// Reads the start of the expression named `name`; its first field is
    /// next.
    pub fn new(de: &mut Deserializer, name: &str) -> (r: Result<SExpr, Error>)
        ensures
            final(de)@ == begin(name@, old(de)@).rest,
            match begin(name@, old(de)@).result {
                Ok(_) => r == Ok::<SExpr, Error>(SExpr { index: 0, skip_to: SkipTo::Unset }),
                Err(e) => r is Err && r->Err_0@ == e,
            },
    {
        match Self::consume_beginning(de, name) {
            Ok(()) => Ok(SExpr { index: 0, skip_to: SkipTo::Unset }),
            Err(e) => Err(e),
        }
    }

    /// Looks for the end of the record.
    pub fn check_eoe(&mut self, de: &mut Deserializer) -> (r: Result<(), Error>)
        ensures
            final(de)@ == check_eoe(old(self).skip_to, old(de)@).rest,
            final(self).index == old(self).index,
            match check_eoe(old(self).skip_to, old(de)@).result {
                Ok(skip_to) => r is Ok && final(self).skip_to == skip_to,
                Err(e) => r is Err && r->Err_0@ == e && final(self).skip_to == old(self).skip_to,
            },
    {
        de.skip_whitespace();
        if let SkipTo::Unset = self.skip_to {
            let c = de.peek_char()?;
            if c == ')' {
                let _ = de.next_char();
                self.skip_to = SkipTo::End;
            }
        }
        Ok(())
    }

    /// The index of the field that is decoded next, or nothing if none is
    /// left.
    pub fn next_key_seed(&mut self, de: &mut Deserializer, fields: &Vec<FieldShape>) -> (r:
        Result<Option<usize>, Error>)
        ensures
            final(de)@ == check_eoe(old(self).skip_to, old(de)@).rest,
            old(self).index <= fields.len() ==> final(self).index <= fields.len(),
            match check_eoe(old(self).skip_to, old(de)@).result {
                Err(e) => r is Err && r->Err_0@ == e && *final(self) == *old(self),
                Ok(skip_to) => r is Ok && final(self)@ == next_key(
                    fields@,
                    RecordState { index: old(self).index as nat, skip_to },
                ) && r->Ok_0 == if final(self).index
                    < fields.len() {
                    Some(final(self).index)
                } else {
                    None
                },
            },
    {
        self.check_eoe(de)?;
        while self.index < fields.len() && fields[self.index].name.as_str().unicode_len() == 0
            && !is_unset(self.skip_to)
            invariant
                old(self).index <= fields.len() ==> self.index <= fields.len(),
                next_key(fields@, self@) == next_key(
                    fields@,
                    RecordState {
                        index: old(self).index as nat,
                        skip_to: check_eoe(old(self).skip_to, old(de)@).result->Ok_0,
                    },
                ),
            decreases fields.len() - self.index,
        {
            if let SkipTo::Field(to) = self.skip_to {
                if to == self.index {
                    self.skip_to = SkipTo::Unset;
                }
            }
            self.index = self.index + 1;
        }
        if self.index < fields.len() {
            Ok(Some(self.index))
        } else {
            Ok(None)
        }
    }

    /// Decides where the value of the next field comes from.
    pub fn next_value_seed_impl(&mut self, de: &mut Deserializer, fields: &Vec<FieldShape>) -> (r:
        Source)
        requires
            old(self).index < fields.len(),
        ensures
            final(self).index == old(self).index,
            choose_source(fields@, old(self).index as nat, old(self).skip_to, old(de)@) == (Chosen {
                source: r,
                skip_to: final(self).skip_to,
                rest: final(de)@,
            }),
    {
        match self.skip_to {
            SkipTo::Field(to) => {
                if to == self.index {
                    self.skip_to = SkipTo::Unset;
                    return Source::Flag;
                }
                return Source::Missing;
            },
            SkipTo::End => {
                return Source::Missing;
            },
            SkipTo::Unset => {},
        }
        if let Some(identifier) = de.peek_identifier() {
            let n = de.identifier_len();
            proof {
                lemma_peek_identifier(de@);
            }
            if fields[self.index].name == identifier {
                let _ = de.consume(n);
                return Source::Flag;
            }
            proof {
                lemma_find_name(field_names(fields@), identifier@, (self.index + 1) as nat);
            }
            if let Some(later) = find_field(fields, &identifier, self.index + 1) {
                let _ = de.consume(n);
                self.skip_to = SkipTo::Field(later);
                return Source::Missing;
            }
        }
        Source::Field
    }
}

/// Whether no fields are being passed over.
pub fn is_unset(skip_to: SkipTo) -> (b: bool)
    ensures
        b == (skip_to == SkipTo::Unset),
{
    match skip_to {
        SkipTo::Unset => true,
        _ => false,
    }
}

/// Whether two strings hold the same text.
pub fn str_eq(a: &str, b: &str) -> (r: bool)
    ensures
        r == (a@ == b@),
{
    let x = a.to_owned();
    let y = b.to_owned();
    x == y
}

} // verus!
