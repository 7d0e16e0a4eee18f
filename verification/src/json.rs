//! The JSON texts the bot reads: gateway events, command folders' data and
//! the list of groups for the daily work.

use serde_json::Value;
use std::collections::HashMap;
use vstd::prelude::*;

use crate::tally::{entries_map, keys_distinct, lemma_entries_map};

verus! {

/// A field of a JSON object, as far as the bot reads it.
#[derive(Debug, Clone)]
pub enum JsonField {
    /// A string.
    Text(String),
    /// A number that fits in `i64`.
    Integer(i64),
    /// An array of strings.
    TextList(Vec<String>),
    /// Anything else.
    Other,
}

/// The abstract value of a [`JsonField`].
pub enum JsonFieldView {
    Text(Seq<char>),
    Integer(i64),
    TextList(Seq<Seq<char>>),
    Other,
}

impl View for JsonField {
    type V = JsonFieldView;

    open spec fn view(&self) -> JsonFieldView {
        match self {
            JsonField::Text(s) => JsonFieldView::Text(s@),
            JsonField::Integer(i) => JsonFieldView::Integer(*i),
            JsonField::TextList(v) => JsonFieldView::TextList(v@.map_values(|s: String| s@)),
            JsonField::Other => JsonFieldView::Other,
        }
    }
}

pub open spec fn fields_view(v: Seq<(String, JsonField)>) -> Seq<(Seq<char>, JsonFieldView)> {
    v.map_values(|e: (String, JsonField)| (e.0@, e.1@))
}

/// The fields of the JSON object that `serde_json` reads from `bytes` as a
/// `HashMap<String, Value>`, or `None` when the bytes are not such an object.
pub uninterp spec fn json_object_fields(bytes: Seq<u8>) -> Option<Map<Seq<char>, JsonFieldView>>;

/// `serde_json::from_slice::<HashMap<String, Value>>`, which reads a JSON
/// object; each value is told apart by its kind. What it reads is named by
/// `json_object_fields`; the fields come out in the map's order.
#[verifier::external_body]
fn parse_json_object(bytes: &[u8]) -> (r: Option<Vec<(String, JsonField)>>)
    ensures
        r is Some <==> json_object_fields(bytes@) is Some,
        r matches Some(v) ==> keys_distinct(fields_view(v@)) && entries_map(fields_view(v@))
            == json_object_fields(bytes@)->0,
{
    let m: HashMap<String, Value> = serde_json::from_slice(bytes).ok()?;
    Some(m.into_iter().map(|(k, v)| (k, match v {
        Value::String(s) => JsonField::Text(s),
        Value::Number(n) => n.as_i64().map_or(JsonField::Other, JsonField::Integer),
        Value::Array(a) => a.into_iter().map(|e| match e {
            Value::String(s) => Some(s),
            _ => None,
        }).collect::<Option<Vec<String>>>().map_or(JsonField::Other, JsonField::TextList),
        _ => JsonField::Other,
    })).collect())
}

/// The fields of a JSON object, each key once.
pub struct JsonObject {
    fields: Vec<(String, JsonField)>,
}

impl JsonObject {
    #[verifier::type_invariant]
    closed spec fn inv(self) -> bool {
        keys_distinct(fields_view(self.fields@))
    }
}

impl View for JsonObject {
    type V = Map<Seq<char>, JsonFieldView>;

    closed spec fn view(&self) -> Map<Seq<char>, JsonFieldView> {
        entries_map(fields_view(self.fields@))
    }
}

/// Reads a JSON object from bytes.
pub fn read_json_object(bytes: &[u8]) -> (r: Option<JsonObject>)
    ensures
        match json_object_fields(bytes@) {
            Some(m) => r matches Some(o) && o@ == m,
            None => r is None,
        },
{
    match parse_json_object(bytes) {
        Some(fields) => Some(JsonObject { fields }),
        None => None,
    }
}

impl JsonObject {
    /// The field named `key`, if the object has one.
    pub fn get(&self, key: &str) -> (r: Option<&JsonField>)
        ensures
            match r {
                Some(f) => self@.contains_key(key@) && self@[key@] == f@,
                None => !self@.contains_key(key@),
            },
    {
        proof {
            use_type_invariant(self);
            lemma_entries_map(fields_view(self.fields@));
        }
        let ghost fv = fields_view(self.fields@);
        let k = String::from_str(key);
        let mut i: usize = 0;
        while i < self.fields.len()
            invariant
                i <= self.fields@.len(),
                fv == fields_view(self.fields@),
                k@ == key@,
                forall|j: int| 0 <= j < i ==> fv[j].0 != key@,
            decreases self.fields.len() - i,
        {
            if self.fields[i].0 == k {
                proof {
                    use_type_invariant(self);
                    lemma_entries_map(fv);
                }
                assert(fv[i as int].0 == key@);
                return Some(&self.fields[i].1);
            }
            i = i + 1;
        }
        proof {
            use_type_invariant(self);
            lemma_entries_map(fv);
        }
        assert(!self@.contains_key(key@)) by {
            if self@.contains_key(key@) {
                let j = choose|j: int| 0 <= j < fv.len() && fv[j].0 == key@;
            }
        }
        None
    }
}

/// The list of numbers that `serde_json` reads from the JSON text `text` as a
/// `Vec<i64>`, or `None` when the text is not such a list.
pub uninterp spec fn json_id_list(text: Seq<char>) -> Option<Seq<i64>>;

/// `serde_json::from_str::<Vec<i64>>`, which reads a JSON array of integers.
/// What it reads is named by `json_id_list`.
#[verifier::external_body]
fn parse_json_ids(text: &str) -> (r: Option<Vec<i64>>)
    ensures
        match json_id_list(text@) {
            Some(ids) => r matches Some(v) && v@ == ids,
            None => r is None,
        },
{
    serde_json::from_str::<Vec<i64>>(text).ok()
}

/// The groups that the daily work posts to, read from the contents of their
/// file.
pub fn read_target_groups(contents: &str) -> (r: Option<Vec<i64>>)
    ensures
        match json_id_list(contents@) {
            Some(ids) => r matches Some(v) && v@ == ids,
            None => r is None,
        },
{
    parse_json_ids(contents)
}

} // verus!
