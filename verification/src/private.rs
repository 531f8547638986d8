//! Finding the name of the expression that a shape is written as.

use crate::shape::Shape;
use vstd::prelude::*;

verus! {

/// Reads the name of a record off its shape, without decoding anything.
pub struct NameExtractor;

/// What [`NameExtractor`] found.
#[derive(Debug, PartialEq, Eq)]
pub enum Extraction {
    /// The name of the record's expression.
    Name(String),
    /// Why the shape has no such name.
    Failed(String),
}

/// The model of an [`Extraction`].
pub open spec fn extraction_view(e: Extraction) -> Result<Seq<char>, Seq<char>> {
    match e {
        Extraction::Name(n) => Ok(n@),
        Extraction::Failed(m) => Err(m@),
    }
}

/// What is said of a shape that is no record.
pub open spec fn no_record() -> Seq<char> {
    "Expected to deserialize a struct"@
}

/// The name of the expression that `shape` is written as. Only records
/// have one: among alternatives, none is itself a name, and what is wrong
/// with their own alternatives is reported first.
pub open spec fn head_name(shape: Shape) -> Result<Seq<char>, Seq<char>>
    decreases shape, 0nat,
{
    match shape {
        Shape::UnitStruct(name) => Ok(name@),
        Shape::NewtypeStruct(name, _) => Ok(name@),
        Shape::TupleStruct(name, _) => Ok(name@),
        Shape::Struct(name, _) => Ok(name@),
        Shape::Untagged(candidates) => match head_names(candidates@, 0) {
            Err(m) => Err(m),
            Ok(_) => Err(no_record()),
        },
        _ => Err(no_record()),
    }
}

/// The names of the candidates from the `from`-th on, or what is wrong with
/// the first of them that has none.
pub open spec fn head_names(candidates: Seq<Shape>, from: nat) -> Result<
    Seq<Seq<char>>,
    Seq<char>,
>
    decreases candidates, candidates.len() - from,
{
    if from >= candidates.len() {
        Ok(Seq::empty())
    } else {
        match head_name(candidates[from as int]) {
            Err(m) => Err(m),
            Ok(name) => match head_names(candidates, from + 1) {
                Err(m) => Err(m),
                Ok(names) => Ok(seq![name] + names),
            },
        }
    }
}

/// Where all candidates have a name, there are as many names as
/// candidates, each the name of its candidate.
pub proof fn lemma_head_names(candidates: Seq<Shape>, from: nat)
    requires
        from <= candidates.len(),
    ensures
        head_names(candidates, from) matches Ok(names) ==> names.len() == candidates.len() - from
            && forall|i: int|
            0 <= i < names.len() ==> head_name(#[trigger] candidates[from + i]) == Ok::<
                Seq<char>,
                Seq<char>,
            >(names[i]),
    decreases candidates.len() - from,
{
    if from < candidates.len() {
        lemma_head_names(candidates, from + 1);
        match head_names(candidates, from) {
            Ok(names) => {
                let tail = head_names(candidates, from + 1)->Ok_0;
                assert forall|i: int| 0 <= i < names.len() implies head_name(
                    #[trigger] candidates[from + i],
                ) == Ok::<Seq<char>, Seq<char>>(names[i]) by {
                    if i > 0 {
                        assert(names[i] == tail[i - 1]);
                        assert(candidates[from + i] == candidates[(from + 1) + (i - 1)]);
                    }
                }
            },
            Err(_) => {},
        }
    }
}

impl NameExtractor {
    /// What is found where the shape is no record.
    pub fn deserialize_any() -> (e: Extraction)
        ensures
            extraction_view(e) == Err::<Seq<char>, Seq<char>>(no_record()),
    {
        Extraction::Failed("Expected to deserialize a struct".to_owned())
    }

    /// The name of the expression that `shape` is written as.
    pub fn extract(shape: &Shape) -> (e: Extraction)
        ensures
            extraction_view(e) == head_name(*shape),
        decreases shape, 0nat,
    {
        match shape {
            Shape::UnitStruct(name) => Extraction::Name(name.clone()),
            Shape::NewtypeStruct(name, _) => Extraction::Name(name.clone()),
            Shape::TupleStruct(name, _) => Extraction::Name(name.clone()),
            Shape::Struct(name, _) => Extraction::Name(name.clone()),
            Shape::Untagged(candidates) => match Self::extract_all(candidates, 0) {
                Err(m) => Extraction::Failed(m),
                Ok(_) => Self::deserialize_any(),
            },
            _ => Self::deserialize_any(),
        }
    }

    /// The names of the candidates from the `from`-th on.
    pub fn extract_all(candidates: &Vec<Shape>, from: usize) -> (r: Result<Vec<String>, String>)
        ensures
            match head_names(candidates@, from as nat) {
                Ok(names) => r is Ok && names_view(r->Ok_0@) == names,
                Err(m) => r is Err && r->Err_0@ == m,
            },
        decreases candidates, candidates.len() - from,
    {
        if from >= candidates.len() {
            let names: Vec<String> = Vec::new();
            assert(names_view(names@) =~= Seq::<Seq<char>>::empty());
            return Ok(names);
        }
        match Self::extract(&candidates[from]) {
            Extraction::Failed(m) => Err(m),
            Extraction::Name(name) => match Self::extract_all(candidates, from + 1) {
                Err(m) => Err(m),
                Ok(rest) => {
                    let mut names: Vec<String> = Vec::new();
                    names.push(name);
                    let mut rest = rest;
                    let ghost tail = rest@;
                    names.append(&mut rest);
                    assert(names_view(names@) =~= seq![name@] + names_view(tail));
                    Ok(names)
                },
            },
        }
    }
}

/// The texts of a sequence of strings.
pub open spec fn names_view(names: Seq<String>) -> Seq<Seq<char>> {
    Seq::new(names.len(), |i: int| names[i]@)
}

} // verus!
