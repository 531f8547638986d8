//! The encoder: it walks a value and writes its text.

use crate::de::engine::ident_view;
use crate::de::number::is_float;
use crate::ser::grammar;
use crate::ser::{Error, ErrorView, Serializer, SerializerView};
use crate::text::chars_of;
use crate::value::{members_view, values_view, Member, Value};
use vstd::prelude::*;
use vstd::string::*;

verus! {

/// The encoder wrote what the grammar says, or failed as it says.
pub open spec fn wrote(
    r: Result<(), Error>,
    before: SerializerView,
    after: SerializerView,
    expected: Result<Seq<char>, ErrorView>,
) -> bool {
    match expected {
        Ok(text) => r is Ok && after == (SerializerView { out: before.out + text, ..before }),
        Err(e) => r is Err && r->Err_0@ == e,
    }
}

impl Serializer {
    /// Writes a value at root level.
    pub fn serialize(&mut self, value: &Value) -> (r: Result<(), Error>)
        ensures
            wrote(
                r,
                old(self)@,
                final(self)@,
                grammar::encode_root(value@, old(self)@.pretty, old(self)@.lvl),
            ),
        decreases value,
    {
        match value {
            Value::UnitStruct(_) => self.serialize_field(value, None),
            Value::NewtypeStruct(_, _) => self.serialize_field(value, None),
            Value::TupleStruct(_, _) => self.serialize_field(value, None),
            Value::Struct(_, _) => self.serialize_field(value, None),
            Value::Untagged(_, inner) => {
                proof {
                    value.lemma_view();
                }
                self.serialize(inner)
            },
            _ => Err(Error::ExpectedStruct),
        }
    }

    /// Writes a value in a field named `name` or, with no `name`, in an
    /// unnamed position.
    pub fn serialize_field(&mut self, value: &Value, name: Option<&str>) -> (r: Result<(), Error>)
        ensures
            wrote(
                r,
                old(self)@,
                final(self)@,
                grammar::encode_field(
                    value@,
                    ident_view(name),
                    old(self)@.pretty,
                    old(self)@.lvl,
                ),
            ),
        decreases value,
    {
        proof {
            value.lemma_view();
            assert(self@.out + Seq::<char>::empty() =~= self@.out);
        }
        match value {
            Value::Bool(b) => match name {
                None => Err(Error::UnnamedBoolean),
                Some(n) => {
                    if *b {
                        self.write_str(n, true);
                    }
                    Ok(())
                },
            },
            Value::Int(n) => {
                self.write_integer(*n);
                assert(self@.out =~= old(self)@.out + (seq![' '] + crate::ser::decimal_text(
                    *n as int,
                )));
                Ok(())
            },
            Value::UInt(n) => {
                self.write_unsigned(*n);
                assert(self@.out =~= old(self)@.out + (seq![' '] + crate::ser::decimal_text(
                    *n as int,
                )));
                Ok(())
            },
            Value::Float(t) => {
                let chars = chars_of(t.as_str());
                if is_float(&chars) {
                    self.write_float(t.as_str());
                    assert(self@.out =~= old(self)@.out + (seq![' '] + t@));
                    Ok(())
                } else {
                    Err(Error::custom("invalid float literal"))
                }
            },
            Value::Str(t) => {
                self.write_str(t.as_str(), false);
                Ok(())
            },
            Value::Char(_) => Err(Error::Char),
            Value::Bytes(_) => Err(Error::Bytes),
            Value::Unit => Err(Error::Unit),
            Value::Absent => Ok(()),
            Value::Present(inner) => self.serialize_field(inner, name),
            Value::UnitStruct(n) => {
                if self.is_full() {
                    return Err(Error::custom("nesting too deep"));
                }
                self.begin_sexpr(n.as_str());
                self.end_sexpr();
                proof {
                    let start = crate::ser::begin_text(n@, old(self)@.pretty, old(self)@.lvl);
                    assert(self@.out =~= old(self)@.out + (start + Seq::<char>::empty() + seq![')']));
                }
                Ok(())
            },
            Value::NewtypeStruct(n, inner) => {
                if self.is_full() {
                    return Err(Error::custom("nesting too deep"));
                }
                self.begin_sexpr(n.as_str());
                let ghost opened = self@;
                match self.serialize_field(inner, None) {
                    Err(e) => {
                        return Err(e);
                    },
                    Ok(()) => {},
                }
                let ghost body = grammar::encode_field(
                    inner@,
                    None,
                    opened.pretty,
                    opened.lvl,
                )->Ok_0;
                self.end_sexpr();
                proof {
                    let start = crate::ser::begin_text(n@, old(self)@.pretty, old(self)@.lvl);
                    assert(self@.out =~= old(self)@.out + (start + body + seq![')']));
                }
                Ok(())
            },
            Value::TupleStruct(n, items) => {
                if self.is_full() {
                    return Err(Error::custom("nesting too deep"));
                }
                self.begin_sexpr(n.as_str());
                let ghost opened = self@;
                match self.serialize_items(items) {
                    Err(e) => {
                        return Err(e);
                    },
                    Ok(()) => {},
                }
                let ghost body = grammar::encode_items(
                    values_view(items@),
                    0,
                    opened.pretty,
                    opened.lvl,
                )->Ok_0;
                self.end_sexpr();
                proof {
                    let start = crate::ser::begin_text(n@, old(self)@.pretty, old(self)@.lvl);
                    assert(self@.out =~= old(self)@.out + (start + body + seq![')']));
                }
                Ok(())
            },
            Value::Struct(n, members) => {
                if self.is_full() {
                    return Err(Error::custom("nesting too deep"));
                }
                self.begin_sexpr(n.as_str());
                let ghost opened = self@;
                match self.serialize_members(members) {
                    Err(e) => {
                        return Err(e);
                    },
                    Ok(()) => {},
                }
                let ghost body = grammar::encode_members(
                    members_view(members@),
                    0,
                    opened.pretty,
                    opened.lvl,
                )->Ok_0;
                self.end_sexpr();
                proof {
                    let start = crate::ser::begin_text(n@, old(self)@.pretty, old(self)@.lvl);
                    assert(self@.out =~= old(self)@.out + (start + body + seq![')']));
                }
                Ok(())
            },
            Value::List(items) => self.serialize_seq(items, name),
            Value::Tuple(items) => self.serialize_seq(items, name),
            Value::Dict(_) => Err(Error::Dict),
            Value::UnitVariant(n) => {
                self.write_str(n.as_str(), true);
                Ok(())
            },
            Value::NewtypeVariant(_, _) => Err(Error::ComplexEnum),
            Value::TupleVariant(_, _) => Err(Error::ComplexEnum),
            Value::StructVariant(_, _) => Err(Error::ComplexEnum),
            Value::Untagged(_, inner) => self.serialize_field(inner, name),
        }
    }

    /// Writes a sequence in a field named `name`.
    pub fn serialize_seq(&mut self, items: &Vec<Value>, name: Option<&str>) -> (r: Result<
        (),
        Error,
    >)
        ensures
            wrote(
                r,
                old(self)@,
                final(self)@,
                grammar::sequence(
                    values_view(items@),
                    ident_view(name),
                    old(self)@.pretty,
                    old(self)@.lvl,
                ),
            ),
        decreases items, items.len() + 1,
    {
        let name = match name {
            None => {
                return Err(Error::UnnamedSeq);
            },
            Some(name) => name,
        };
        if name.unicode_len() == 0 {
            return self.serialize_items(items);
        }
        if self.is_full() {
            return Err(Error::custom("nesting too deep"));
        }
        self.begin_sexpr(name);
        let ghost opened = self@;
        match self.serialize_items(items) {
            Err(e) => {
                return Err(e);
            },
            Ok(()) => {},
        }
        let ghost body = grammar::encode_items(
            values_view(items@),
            0,
            opened.pretty,
            opened.lvl,
        )->Ok_0;
        self.end_sexpr();
        proof {
            let start = crate::ser::begin_text(name@, old(self)@.pretty, old(self)@.lvl);
            assert(self@.out =~= old(self)@.out + (start + body + seq![')']));
        }
        Ok(())
    }

    /// Writes values one after the other, each in an unnamed position.
    pub fn serialize_items(&mut self, items: &Vec<Value>) -> (r: Result<(), Error>)
        ensures
            wrote(
                r,
                old(self)@,
                final(self)@,
                grammar::encode_items(values_view(items@), 0, old(self)@.pretty, old(self)@.lvl),
            ),
        decreases items, items.len(),
    {
        let ghost all = values_view(items@);
        let ghost pretty = self@.pretty;
        let ghost lvl = self@.lvl;
        let ghost mut acc = Seq::<char>::empty();
        let mut i: usize = 0;
        proof {
            assert(self@.out + acc =~= self@.out);
            assert(acc + grammar::encode_items(all, 0, pretty, lvl)->Ok_0
                =~= grammar::encode_items(all, 0, pretty, lvl)->Ok_0);
        }
        while i < items.len()
            invariant
                i <= items.len(),
                all == values_view(items@),
                self@ == (SerializerView { out: old(self)@.out + acc, ..old(self)@ }),
                pretty == old(self)@.pretty,
                lvl == old(self)@.lvl,
                grammar::encode_items(all, 0, pretty, lvl) == grammar::followed(
                    acc,
                    grammar::encode_items(all, i as nat, pretty, lvl),
                ),
            decreases items.len() - i,
        {
            assert(all[i as int] == items@[i as int]@);
            let ghost before = self@;
            match self.serialize_field(&items[i], None) {
                Err(e) => {
                    return Err(e);
                },
                Ok(()) => {},
            }
            proof {
                let text = grammar::encode_field(all[i as int], None, pretty, lvl)->Ok_0;
                let rest = grammar::encode_items(all, (i + 1) as nat, pretty, lvl);
                if rest is Ok {
                    assert(acc + (text + rest->Ok_0) =~= (acc + text) + rest->Ok_0);
                }
                assert(old(self)@.out + (acc + text) =~= before.out + text);
                acc = acc + text;
            }
            i = i + 1;
        }
        proof {
            assert(acc + Seq::<char>::empty() =~= acc);
        }
        Ok(())
    }

    /// Writes members one after the other, each in the field of its name.
    pub fn serialize_members(&mut self, members: &Vec<Member>) -> (r: Result<(), Error>)
        ensures
            wrote(
                r,
                old(self)@,
                final(self)@,
                grammar::encode_members(
                    members_view(members@),
                    0,
                    old(self)@.pretty,
                    old(self)@.lvl,
                ),
            ),
        decreases members, members.len(),
    {
        let ghost all = members_view(members@);
        let ghost pretty = self@.pretty;
        let ghost lvl = self@.lvl;
        let ghost mut acc = Seq::<char>::empty();
        let mut i: usize = 0;
        proof {
            assert(self@.out + acc =~= self@.out);
            assert(acc + grammar::encode_members(all, 0, pretty, lvl)->Ok_0
                =~= grammar::encode_members(all, 0, pretty, lvl)->Ok_0);
        }
        while i < members.len()
            invariant
                i <= members.len(),
                all == members_view(members@),
                self@ == (SerializerView { out: old(self)@.out + acc, ..old(self)@ }),
                pretty == old(self)@.pretty,
                lvl == old(self)@.lvl,
                grammar::encode_members(all, 0, pretty, lvl) == grammar::followed(
                    acc,
                    grammar::encode_members(all, i as nat, pretty, lvl),
                ),
            decreases members.len() - i,
        {
            assert(all[i as int] == members@[i as int]@);
            let ghost before = self@;
            match self.serialize_field(&members[i].value, Some(members[i].name.as_str())) {
                Err(e) => {
                    return Err(e);
                },
                Ok(()) => {},
            }
            proof {
                let text = grammar::encode_field(
                    all[i as int].value,
                    Some(all[i as int].name),
                    pretty,
                    lvl,
                )->Ok_0;
                let rest = grammar::encode_members(all, (i + 1) as nat, pretty, lvl);
                if rest is Ok {
                    assert(acc + (text + rest->Ok_0) =~= (acc + text) + rest->Ok_0);
                }
                assert(old(self)@.out + (acc + text) =~= before.out + text);
                acc = acc + text;
            }
            i = i + 1;
        }
        proof {
            assert(acc + Seq::<char>::empty() =~= acc);
        }
        Ok(())
    }
}

} // verus!
