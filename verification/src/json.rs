use vstd::prelude::*;

verus! {

/// A JSON document as the library reads it. Numbers keep the text that
/// `serde_json` prints for them; object members keep the order in which
/// `serde_json` hands them out (its map is sorted by key, one member per key).
pub enum Json {
    Null,
    Bool(bool),
    Number(String),
    Str(String),
    Array(Vec<Json>),
    Object(Vec<(String, Json)>),
}

#[verifier::external_type_specification]
#[verifier::external_body]
pub struct ExSerdeJsonValue(serde_json::Value);

/// The document that `serde_json` reads from a text, when the text is valid JSON.
pub uninterp spec fn json_document(text: Seq<char>) -> Option<Json>;

/// Reads `text` with `serde_json::from_str::<serde_json::Value>`.
/// Claims that the result is `Ok` exactly when `json_document` has a document
/// for the text, and that the document is that one. The text of the error is
/// `serde_json`'s message; nothing is claimed of it.
#[verifier::external_body]
pub(crate) fn parse_json(text: &str) -> (r: Result<Json, String>)
    ensures
        r is Ok <==> json_document(text@) is Some,
        r matches Ok(j) ==> json_document(text@) == Some(j),
{
    match serde_json::from_str::<serde_json::Value>(text) {
        Ok(v) => Ok(json_of_value(v)),
        Err(e) => Err(e.to_string()),
    }
}

/// Moves a `serde_json::Value` into a `Json`, variant by variant.
#[verifier::external_body]
fn json_of_value(v: serde_json::Value) -> Json {
    match v {
        serde_json::Value::Null => Json::Null,
        serde_json::Value::Bool(b) => Json::Bool(b),
        serde_json::Value::Number(n) => Json::Number(n.to_string()),
        serde_json::Value::String(s) => Json::Str(s),
        serde_json::Value::Array(a) => Json::Array(a.into_iter().map(json_of_value).collect()),
        serde_json::Value::Object(o) => Json::Object(
            o.into_iter().map(|(k, x)| (k, json_of_value(x))).collect(),
        ),
    }
}

/// The value of the first member named `key` among `members`.
pub open spec fn member(members: Seq<(String, Json)>, key: Seq<char>) -> Option<Json>
    decreases members.len(),
{
    if members.len() == 0 {
        None
    } else if members[0].0@ == key {
        Some(members[0].1)
    } else {
        member(members.drop_first(), key)
    }
}

/// `value[key]` of `serde_json`: the member of an object, `Null` otherwise.
pub open spec fn index_key(value: Json, key: Seq<char>) -> Json {
    match value {
        Json::Object(members) => match member(members@, key) {
            Some(v) => v,
            None => Json::Null,
        },
        _ => Json::Null,
    }
}

/// The text of a JSON string, `None` for any other value (`Value::as_str`).
pub open spec fn as_text(value: Json) -> Option<Seq<char>> {
    match value {
        Json::Str(s) => Some(s@),
        _ => None,
    }
}

impl Json {
    /// `value[key]` of `serde_json`: the member of an object, `Null` otherwise.
    pub fn get(&self, key: &str) -> (r: Option<&Json>)
        ensures
            r matches Some(v) ==> index_key(*self, key@) == *v,
            r is None ==> index_key(*self, key@) == Json::Null,
    {
        match self {
            Json::Object(members) => {
                let mut i: usize = 0;
                assert(members@ =~= members@.subrange(0, members@.len() as int));
                while i < members.len()
                    invariant
                        *self == Json::Object(*members),
                        i <= members@.len(),
                        member(members@, key@) == member(members@.subrange(i as int, members@.len() as int), key@),
                    decreases members@.len() - i,
                {
                    let ghost rest = members@.subrange(i as int, members@.len() as int);
                    assert(rest.drop_first() =~= members@.subrange(i + 1, members@.len() as int));
                    assert(rest[0] == members@[i as int]);
                    if crate::text::str_eq(members[i].0.as_str(), key) {
                        return Some(&members[i].1);
                    }
                    i = i + 1;
                }
                None
            },
            _ => None,
        }
    }

    /// `Value::as_str`: the text of a string value.
    pub fn as_text(&self) -> (r: Option<String>)
        ensures
            r matches Some(s) ==> as_text(*self) == Some(s@),
            r is None <==> as_text(*self) is None,
    {
        match self {
            Json::Str(s) => Some(s.clone()),
            _ => None,
        }
    }
}

} // verus!
