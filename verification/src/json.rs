//! The JSON value model: an executable tree type and its mathematical view.
//!
//! Schema documents are JSON texts, held as byte sequences. A parsed
//! document becomes a [`JsonValue`]; contracts speak of its deep view
//! [`SpecJson`], which replaces every `Vec` by a `Seq`. Numeric literals
//! are kept as their lexeme: the schema grammar only ever asks for the
//! kind of a JSON value, or for a small unsigned integer.

use vstd::prelude::*;

verus! {

broadcast use vstd::std_specs::vec::group_vec_axioms;

/// Mathematical model of a JSON value; string and number content are
/// byte sequences (UTF-8 for strings, the literal's lexeme for numbers).
pub enum SpecJson {
    Null,
    Bool(bool),
    Num(Seq<u8>),
    Str(Seq<u8>),
    Arr(Seq<SpecJson>),
    Obj(Seq<(Seq<u8>, SpecJson)>),
}

/// Executable JSON tree. Object members keep the order in which they
/// were written; lookups take the first member with a given key.
#[derive(Debug, PartialEq, Eq)]
pub enum JsonValue {
    Null,
    Bool(bool),
    Num(Vec<u8>),
    Str(Vec<u8>),
    Arr(Vec<JsonValue>),
    Obj(Vec<(Vec<u8>, JsonValue)>),
}

impl JsonValue {
    /// Mathematical view of the tree: every `Vec` becomes a `Seq`.
    pub open spec fn dv(&self) -> SpecJson
        decreases *self,
    {
        match self {
            JsonValue::Null => SpecJson::Null,
            JsonValue::Bool(b) => SpecJson::Bool(*b),
            JsonValue::Num(s) => SpecJson::Num(s@),
            JsonValue::Str(s) => SpecJson::Str(s@),
            JsonValue::Arr(xs) => SpecJson::Arr(dv_elems(xs@)),
            JsonValue::Obj(ms) => SpecJson::Obj(dv_members(ms@)),
        }
    }
}

/// View of a sequence of array elements, elementwise.
pub open spec fn dv_elems(xs: Seq<JsonValue>) -> Seq<SpecJson>
    decreases xs,
{
    if xs.len() == 0 {
        Seq::empty()
    } else {
        seq![xs[0].dv()] + dv_elems(xs.drop_first())
    }
}

/// View of a sequence of object members, elementwise.
pub open spec fn dv_members(ms: Seq<(Vec<u8>, JsonValue)>) -> Seq<(Seq<u8>, SpecJson)>
    decreases ms,
{
    if ms.len() == 0 {
        Seq::empty()
    } else {
        seq![(ms[0].0@, ms[0].1.dv())] + dv_members(ms.drop_first())
    }
}

/// The elementwise views index as expected.
pub broadcast proof fn lemma_dv_elems(xs: Seq<JsonValue>)
    ensures
        (#[trigger] dv_elems(xs)).len() == xs.len(),
        forall|i: int| 0 <= i < xs.len() ==> dv_elems(xs)[i] == xs[i].dv(),
    decreases xs.len(),
{
    if xs.len() > 0 {
        lemma_dv_elems(xs.drop_first());
    }
}

/// The member views index as expected.
pub broadcast proof fn lemma_dv_members(ms: Seq<(Vec<u8>, JsonValue)>)
    ensures
        (#[trigger] dv_members(ms)).len() == ms.len(),
        forall|i: int|
            0 <= i < ms.len() ==> dv_members(ms)[i] == (ms[i].0@, ms[i].1.dv()),
    decreases ms.len(),
{
    if ms.len() > 0 {
        lemma_dv_members(ms.drop_first());
    }
}

/// A structurally equal copy of a JSON tree.
pub fn json_copy(v: &JsonValue) -> (r: JsonValue)
    ensures
        r.dv() == v.dv(),
    decreases *v,
{
    match v {
        JsonValue::Null => JsonValue::Null,
        JsonValue::Bool(b) => JsonValue::Bool(*b),
        JsonValue::Num(s) => JsonValue::Num(vstd::slice::slice_to_vec(s.as_slice())),
        JsonValue::Str(s) => JsonValue::Str(vstd::slice::slice_to_vec(s.as_slice())),
        JsonValue::Arr(xs) => JsonValue::Arr(elems_copy(xs)),
        JsonValue::Obj(ms) => JsonValue::Obj(members_copy(ms)),
    }
}

/// Copies of a vector of array elements.
pub fn elems_copy(xs: &Vec<JsonValue>) -> (r: Vec<JsonValue>)
    ensures
        dv_elems(r@) == dv_elems(xs@),
    decreases *xs,
{
    let mut r: Vec<JsonValue> = Vec::new();
    let mut i: usize = 0;
    while i < xs.len()
        invariant
            0 <= i <= xs.len(),
            r@.len() == i,
            forall|k: int| 0 <= k < i ==> r@[k].dv() == xs@[k].dv(),
        decreases xs.len() - i,
    {
        r.push(json_copy(&xs[i]));
        i += 1;
    }
    proof {
        lemma_dv_elems(r@);
        lemma_dv_elems(xs@);
        assert(dv_elems(r@) =~= dv_elems(xs@));
    }
    r
}

/// Copies of a vector of object members.
pub fn members_copy(ms: &Vec<(Vec<u8>, JsonValue)>) -> (r: Vec<(Vec<u8>, JsonValue)>)
    ensures
        dv_members(r@) == dv_members(ms@),
    decreases *ms,
{
    let mut r: Vec<(Vec<u8>, JsonValue)> = Vec::new();
    let mut i: usize = 0;
    while i < ms.len()
        invariant
            0 <= i <= ms.len(),
            r@.len() == i,
            forall|k: int|
                0 <= k < i ==> r@[k].0@ == ms@[k].0@ && r@[k].1.dv() == ms@[k].1.dv(),
        decreases ms.len() - i,
    {
        let key = vstd::slice::slice_to_vec(ms[i].0.as_slice());
        let val = json_copy(&ms[i].1);
        r.push((key, val));
        i += 1;
    }
    proof {
        lemma_dv_members(r@);
        lemma_dv_members(ms@);
        assert(dv_members(r@) =~= dv_members(ms@));
    }
    r
}
} // verus!
