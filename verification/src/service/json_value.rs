//! A JSON value as the path operations see it.
use vstd::prelude::*;

verus! {

/// A JSON value. Object members keep their order and keys are expected to be distinct.
#[derive(Debug)]
pub enum Json {
    Null,
    Bool(bool),
    Number(String),
    Str(String),
    Array(Vec<Json>),
    Object(Vec<(String, Json)>),
}

/// The mathematical value of a `Json`.
pub enum JsonView {
    Null,
    Bool(bool),
    Number(Seq<char>),
    Str(Seq<char>),
    Array(Seq<JsonView>),
    Object(Seq<(Seq<char>, JsonView)>),
}

pub open spec fn json_view(j: Json) -> JsonView
    decreases j,
{
    match j {
        Json::Null => JsonView::Null,
        Json::Bool(b) => JsonView::Bool(b),
        Json::Number(n) => JsonView::Number(n@),
        Json::Str(s) => JsonView::Str(s@),
        Json::Array(items) => JsonView::Array(
            Seq::new(
                items@.len(),
                |i: int|
                    {
                        proof {
                            assert(decreases_to!(j => items));
                            assert(decreases_to!(items => items@));
                            assert(0 <= i < items@.len() ==> decreases_to!(items@ => items@[i]));
                        }
                        if 0 <= i < items@.len() {
                            json_view(items@[i])
                        } else {
                            JsonView::Null
                        }
                    },
            ),
        ),
        Json::Object(es) => JsonView::Object(
            Seq::new(
                es@.len(),
                |i: int|
                    {
                        proof {
                            assert(decreases_to!(j => es));
                            assert(decreases_to!(es => es@));
                            assert(0 <= i < es@.len() ==> decreases_to!(es@ => es@[i]));
                            assert(decreases_to!(es@[i] => es@[i].1));
                        }
                        if 0 <= i < es@.len() {
                            (es@[i].0@, json_view(es@[i].1))
                        } else {
                            (Seq::empty(), JsonView::Null)
                        }
                    },
            ),
        ),
    }
}

impl View for Json {
    type V = JsonView;

    open spec fn view(&self) -> JsonView {
        json_view(*self)
    }
}

/// The values of a sequence of `Json`.
pub open spec fn items_view(items: Seq<Json>) -> Seq<JsonView> {
    Seq::new(items.len(), |i: int| items[i]@)
}

/// The values of the members of an object.
pub open spec fn members_view(es: Seq<(String, Json)>) -> Seq<(Seq<char>, JsonView)> {
    Seq::new(es.len(), |i: int| (es[i].0@, es[i].1@))
}

/// The value of an array or object is made of the values of its parts.
pub proof fn lemma_view_parts(j: Json)
    ensures
        j matches Json::Array(items) ==> j@ == JsonView::Array(items_view(items@)),
        j matches Json::Object(es) ==> j@ == JsonView::Object(members_view(es@)),
{
    match j {
        Json::Array(items) => {
            assert(json_view(j)->Array_0 =~= items_view(items@));
        },
        Json::Object(es) => {
            assert(json_view(j)->Object_0 =~= members_view(es@));
        },
        _ => {},
    }
}

} // verus!
