//! A JSON document as plain values, and the reads the installer makes of one:
//! a field of an object, its text, its number and its list.

use crate::seqs::{first_where, lemma_first_where};
use crate::text::str_eq;
use vstd::prelude::*;

verus! {

/// One JSON value. An object keeps its fields in document order, with any
/// repeated key as often as the document repeats it, because a reader that
/// refuses a repeated field has to see it.
pub enum Json {
    Null,
    Bool(bool),
    Number(u64),
    Text(String),
    Array(Vec<Json>),
    Object(Vec<(String, Json)>),
}

/// The field entry named `key`.
pub open spec fn named(key: Seq<char>) -> spec_fn((String, Json)) -> bool {
    |entry: (String, Json)| entry.0@ == key
}

/// The value of an object's first field named `key`; nothing for a missing
/// field or a value that is not an object.
pub open spec fn field_of(doc: Json, key: Seq<char>) -> Option<Json> {
    match doc {
        Json::Object(fields) => match first_where(fields@, named(key)) {
            Some(i) => Some(fields@[i].1),
            None => None,
        },
        _ => None,
    }
}

/// The text of a field that holds a string.
pub open spec fn text_of(doc: Json, key: Seq<char>) -> Option<Seq<char>> {
    match field_of(doc, key) {
        Some(Json::Text(value)) => Some(value@),
        _ => None,
    }
}

/// The number of a field that holds a number.
pub open spec fn number_of(doc: Json, key: Seq<char>) -> Option<u64> {
    match field_of(doc, key) {
        Some(Json::Number(value)) => Some(value),
        _ => None,
    }
}

/// The items of a field that holds a list; none otherwise.
pub open spec fn items_of(doc: Json, key: Seq<char>) -> Seq<Json> {
    match field_of(doc, key) {
        Some(Json::Array(items)) => items@,
        _ => Seq::empty(),
    }
}

/// Reads an object's first field named `key`.
pub fn field<'a>(doc: &'a Json, key: &str) -> (out: Option<&'a Json>)
    ensures
        match out {
            Some(value) => field_of(*doc, key@) == Some(*value),
            None => field_of(*doc, key@) is None,
        },
{
    match doc {
        Json::Object(fields) => {
            let mut i: usize = 0;
            while i < fields.len()
                invariant
                    i <= fields@.len(),
                    *doc == Json::Object(*fields),
                    forall|j: int| 0 <= j < i ==> !named(key@)(#[trigger] fields@[j]),
                decreases fields.len() - i,
            {
                if str_eq(fields[i].0.as_str(), key) {
                    proof {
                        lemma_first_where(fields@, named(key@), i as int);
                    }
                    return Some(&fields[i].1);
                }
                i = i + 1;
            }
            proof {
                lemma_first_where(fields@, named(key@), i as int);
            }
            None
        },
        _ => None,
    }
}

/// Reads the text a field holds.
pub fn text<'a>(doc: &'a Json, key: &str) -> (out: Option<&'a str>)
    ensures
        match out {
            Some(value) => text_of(*doc, key@) == Some(value@),
            None => text_of(*doc, key@) is None,
        },
{
    match field(doc, key) {
        Some(Json::Text(value)) => Some(value.as_str()),
        _ => None,
    }
}

/// Reads the number a field holds.
pub fn number(doc: &Json, key: &str) -> (out: Option<u64>)
    ensures
        out == number_of(*doc, key@),
{
    match field(doc, key) {
        Some(Json::Number(value)) => Some(*value),
        _ => None,
    }
}

/// Reads the items of a list a field holds; none where it holds no list.
pub fn items<'a>(doc: &'a Json, key: &str) -> (out: &'a [Json])
    ensures
        out@ == items_of(*doc, key@),
{
    match field(doc, key) {
        Some(Json::Array(items)) => items.as_slice(),
        _ => &[],
    }
}

/// A field's value is part of the object that holds it, so a walk down the
/// document ends.
pub proof fn lemma_field_decreases(doc: Json, key: Seq<char>)
    ensures
        field_of(doc, key) matches Some(v) ==> decreases_to!(doc => v),
        field_of(doc, key) matches Some(Json::Array(items)) ==> decreases_to!(doc => items@),
{
    if let Json::Object(fields) = doc {
        crate::seqs::lemma_first_where_found(fields@, named(key));
        if let Some(i) = first_where(fields@, named(key)) {
            let entry = fields@[i];
            assert(decreases_to!(doc => fields));
            vstd::std_specs::vec::axiom_vec_decreases_to_view(fields);
            assert(decreases_to!(fields => fields@));
            vstd::seq::axiom_seq_index_decreases(fields@, i);
            assert(decreases_to!(fields@ => entry));
            assert(decreases_to!(entry => entry.1));
            assert(decreases_to!(doc => entry.1));
            if let Json::Array(items) = entry.1 {
                assert(decreases_to!(entry.1 => items));
                vstd::std_specs::vec::axiom_vec_decreases_to_view(items);
                assert(decreases_to!(doc => items@));
            }
        }
    }
}

} // verus!
