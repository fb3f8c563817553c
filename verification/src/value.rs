//! The structured document model: a recursive tree of objects, arrays,
//! strings, numbers, booleans and null, together with its mathematical view.
//!
//! A number is carried as its canonical decimal text, which is all the
//! resolution logic ever reads of it.

use vstd::prelude::*;

verus! {

/// Mathematical model of a structured document node.
pub enum JsonData {
    Null,
    Bool(bool),
    Num(Seq<char>),
    Str(Seq<char>),
    Arr(Seq<JsonData>),
    Obj(Seq<(Seq<char>, JsonData)>),
}

/// A structured document node as held at run time.
pub enum JsonValue {
    Null,
    Bool(bool),
    Num(String),
    Str(String),
    Arr(Vec<JsonValue>),
    Obj(Vec<(String, JsonValue)>),
}

pub open spec fn view_of(v: JsonValue) -> JsonData
    decreases v,
{
    match v {
        JsonValue::Null => JsonData::Null,
        JsonValue::Bool(b) => JsonData::Bool(b),
        JsonValue::Num(t) => JsonData::Num(t@),
        JsonValue::Str(s) => JsonData::Str(s@),
        JsonValue::Arr(items) => JsonData::Arr(views_of_list(items@)),
        JsonValue::Obj(pairs) => JsonData::Obj(pair_views_of_list(pairs@)),
    }
}

pub open spec fn views_of_list(items: Seq<JsonValue>) -> Seq<JsonData>
    decreases items,
{
    if items.len() == 0 {
        Seq::empty()
    } else {
        views_of_list(items.drop_last()).push(view_of(items.last()))
    }
}

pub open spec fn pair_views_of_list(pairs: Seq<(String, JsonValue)>) -> Seq<(Seq<char>, JsonData)>
    decreases pairs,
{
    if pairs.len() == 0 {
        Seq::empty()
    } else {
        pair_views_of_list(pairs.drop_last()).push(
            (pairs.last().0@, view_of(pairs.last().1)),
        )
    }
}

impl View for JsonValue {
    type V = JsonData;

    open spec fn view(&self) -> JsonData {
        view_of(*self)
    }
}

pub proof fn lemma_views_of_list(items: Seq<JsonValue>)
    ensures
        views_of_list(items).len() == items.len(),
        forall|i: int|
            0 <= i < items.len() ==> #[trigger] views_of_list(items)[i] == view_of(items[i]),
    decreases items.len(),
{
    if items.len() > 0 {
        lemma_views_of_list(items.drop_last());
    }
}

pub proof fn lemma_pair_views_of_list(pairs: Seq<(String, JsonValue)>)
    ensures
        pair_views_of_list(pairs).len() == pairs.len(),
        forall|i: int|
            0 <= i < pairs.len() ==> #[trigger] pair_views_of_list(pairs)[i] == (
            pairs[i].0@,
            view_of(pairs[i].1),
            ),
    decreases pairs.len(),
{
    if pairs.len() > 0 {
        lemma_pair_views_of_list(pairs.drop_last());
    }
}

} // verus!
