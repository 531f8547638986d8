//! Names of variants and alternatives: looking one up, and listing them in
//! a message.

use crate::de::grammar::{msg_unexpected_name, msg_unknown_variant, quoted_names, variant_names};
use crate::de::record::find_name;
use crate::de::Error;
use crate::private::names_view;
use crate::shape::VariantShape;
use crate::text::{push_str, string_of};
use vstd::prelude::*;

verus! {

/// The index of the first name from the `from`-th on that is `name`.
pub fn find_in(names: &Vec<String>, name: &String, from: usize) -> (r: Option<usize>)
    ensures
        match find_name(names_view(names@), name@, from as nat) {
            Some(i) => r == Some(i as usize) && i < names.len(),
            None => r is None,
        },
{
    let mut i: usize = from;
    while i < names.len()
        invariant
            find_name(names_view(names@), name@, from as nat) == find_name(
                names_view(names@),
                name@,
                i as nat,
            ),
        decreases names.len() - i,
    {
        assert(names_view(names@)[i as int] == names@[i as int]@);
        if names[i] == *name {
            return Some(i);
        }
        i = i + 1;
    }
    None
}

/// The names of the variants.
pub fn names_of(variants: &Vec<VariantShape>) -> (names: Vec<String>)
    ensures
        names_view(names@) == variant_names(variants@),
{
    let mut names: Vec<String> = Vec::new();
    let mut i: usize = 0;
    while i < variants.len()
        invariant
            i <= variants.len(),
            names.len() == i,
            forall|j: int| 0 <= j < i ==> names@[j]@ == variants@[j].name@,
        decreases variants.len() - i,
    {
        names.push(variants[i].name.clone());
        i = i + 1;
    }
    assert(names_view(names@) =~= variant_names(variants@));
    names
}

/// Appends the names from the `from`-th on, each in quotes, with commas
/// between.
fn push_quoted_names(out: &mut Vec<char>, names: &Vec<String>, from: usize)
    ensures
        final(out)@ == old(out)@ + quoted_names(names_view(names@), from as nat),
    decreases names.len() - from,
{
    if from >= names.len() {
        assert(out@ + Seq::<char>::empty() =~= out@);
        return ;
    }
    let ghost before = out@;
    let ghost all = names_view(names@);
    assert(all[from as int] == names@[from as int]@);
    push_str(out, "\"");
    push_str(out, names[from].as_str());
    if from + 1 == names.len() {
        push_str(out, "\"");
        assert(out@ =~= before + quoted_names(all, from as nat));
    } else {
        push_str(out, "\", ");
        push_quoted_names(out, names, from + 1);
        assert(out@ =~= before + quoted_names(all, from as nat));
    }
}

/// The failure that no variant has the name that was found.
pub fn unknown_variant(found: &str, names: &Vec<String>) -> (e: Error)
    ensures
        e@ == crate::de::ErrorView::Message(msg_unknown_variant(found@, names_view(names@))),
{
    let mut out: Vec<char> = Vec::new();
    push_str(&mut out, "unknown variant `");
    push_str(&mut out, found);
    push_str(&mut out, "`, expected one of [");
    push_quoted_names(&mut out, names, 0);
    push_str(&mut out, "]");
    assert(out@ =~= msg_unknown_variant(found@, names_view(names@)));
    Error::Message(string_of(&out))
}

/// The failure that no alternative has the name that was found.
pub fn unexpected_name(found: &str, names: &Vec<String>) -> (e: Error)
    ensures
        e@ == crate::de::ErrorView::Message(msg_unexpected_name(found@, names_view(names@))),
{
    let mut out: Vec<char> = Vec::new();
    push_str(&mut out, "invalid value: ");
    push_str(&mut out, found);
    push_str(&mut out, ", expected any s-expr with a name in [");
    push_quoted_names(&mut out, names, 0);
    push_str(&mut out, "]");
    assert(out@ =~= msg_unexpected_name(found@, names_view(names@)));
    Error::Message(string_of(&out))
}

} // verus!
