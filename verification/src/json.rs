//! The boundary to `serde_json`: the types it hands out, what this crate
//! assumes of the calls it makes into it, and nothing else.
//!
//! Every contract in this file is taken on trust. The functions are private
//! to the crate and each holds a single call.

use vstd::prelude::*;

verus! {

/// `serde_json::Value`, of which nothing is seen but through the functions
/// below.
#[verifier::external_type_specification]
#[verifier::external_body]
pub struct ExValue(serde_json::Value);

/// `serde_json::Map`, the members of a JSON object.
#[verifier::external_type_specification]
#[verifier::external_body]
#[verifier::reject_recursive_types(K)]
#[verifier::reject_recursive_types(V)]
pub struct ExMap<K, V>(serde_json::Map<K, V>);

/// `serde_json::Error`, the parser's report. It is carried, never read.
#[verifier::external_type_specification]
#[verifier::external_body]
pub struct ExError(serde_json::Error);

/// What the launcher can tell of a JSON value: its text where it is a
/// string, its members in the order in which they are walked where it is an
/// object, and no more than that of a null, a boolean, a number or an array.
pub enum Json {
    /// A string, with its text.
    Text(Seq<char>),
    /// An object, with the name and the value of each member.
    Object(Seq<(Seq<char>, Json)>),
    /// A null, a boolean, a number or an array.
    Other,
}

impl Json {
    /// The text of a string. No other kind of value has one.
    pub open spec fn text(self) -> Option<Seq<char>> {
        match self {
            Json::Text(text) => Some(text),
            _ => None,
        }
    }

    /// Whether some member of this object is called `key`. No other kind of
    /// value has members.
    pub open spec fn has_member(self, key: Seq<char>) -> bool {
        self matches Json::Object(members) && exists|i: int|
            0 <= i < members.len() && (#[trigger] members[i]).0 == key
    }

    /// The value of the member called `key`, where there is one.
    pub open spec fn member(self, key: Seq<char>) -> Option<Json> {
        if self.has_member(key) {
            let members = self->Object_0;
            let i = choose|i: int| 0 <= i < members.len() && (#[trigger] members[i]).0 == key;
            Some(members[i].1)
        } else {
            None
        }
    }
}

/// The document that `serde_json::from_str` reads from a text, or `None`
/// where it reports an error.
pub uninterp spec fn json_parse(text: Seq<char>) -> Option<Json>;

/// What a `serde_json::Value` holds.
pub uninterp spec fn json_of(value: serde_json::Value) -> Json;

/// The members of a `serde_json::Map`, in the order in which `iter` walks
/// them.
pub uninterp spec fn members_of(map: serde_json::Map<String, serde_json::Value>) -> Seq<
    (Seq<char>, Json),
>;

/// `serde_json::from_str` at the type `Value`. It fails exactly on the texts
/// on which `json_parse` is `None`, and otherwise gives the value that holds
/// the document `json_parse` names.
#[verifier::external_body]
pub(crate) fn parse_value(text: &str) -> (out: Result<serde_json::Value, serde_json::Error>)
    ensures
        match out {
            Ok(value) => json_parse(text@) == Some(json_of(value)),
            Err(_) => json_parse(text@) is None,
        },
{
    serde_json::from_str::<serde_json::Value>(text)
}

/// `Value::get` with a string index: the member of that name where the
/// value is an object that has one, and `None` for every other value.
#[verifier::external_body]
pub(crate) fn value_get<'a>(value: &'a serde_json::Value, key: &str) -> (out: Option<
    &'a serde_json::Value,
>)
    ensures
        match out {
            Some(found) => json_of(*value).member(key@) == Some(json_of(*found)),
            None => json_of(*value).member(key@) is None,
        },
{
    value.get(key)
}

/// `Value::as_object`: the map of an object, `None` for every other value.
#[verifier::external_body]
pub(crate) fn value_as_object(value: &serde_json::Value) -> (out: Option<
    &serde_json::Map<String, serde_json::Value>,
>)
    ensures
        match out {
            Some(map) => json_of(*value) == Json::Object(members_of(*map)),
            None => !(json_of(*value) is Object),
        },
{
    value.as_object()
}

/// `Value::as_str`: the text of a string, `None` for every other value.
#[verifier::external_body]
pub(crate) fn value_as_str(value: &serde_json::Value) -> (out: Option<&str>)
    ensures
        match out {
            Some(text) => json_of(*value) == Json::Text(text@),
            None => !(json_of(*value) is Text),
        },
{
    value.as_str()
}

/// `Map::iter`, collected: every member once, in the order of the walk, each
/// as its key and its value. A map holds no key twice, so no two of the keys
/// are equal.
#[verifier::external_body]
pub(crate) fn map_entries<'a>(map: &'a serde_json::Map<String, serde_json::Value>) -> (out: Vec<
    (&'a String, &'a serde_json::Value),
>)
    ensures
        out@.len() == members_of(*map).len(),
        forall|i: int|
            0 <= i < out@.len() ==> (#[trigger] out@[i]).0@ == members_of(*map)[i].0 && json_of(
                *out@[i].1,
            ) == members_of(*map)[i].1,
        forall|i: int, j: int|
            0 <= i < j < out@.len() ==> (#[trigger] out@[i]).0@ != (#[trigger] out@[j]).0@,
{
    map.iter().collect()
}

} // verus!
