//! JSON as the providers' replies and requests use it. The tree of a `serde_json::Value` is
//! modelled by [`Json`]; the functions that look into one or build one are stated over it.

use crate::text;
use vstd::prelude::*;

verus! {

/// What a JSON value is. A number is given by its text.
pub ghost enum Json {
    Null,
    Bool(bool),
    Number(Seq<char>),
    Str(Seq<char>),
    Array(Seq<Json>),
    Object(Map<Seq<char>, Json>),
}

/// `serde_json::Value`: a JSON value.
#[verifier::external_type_specification]
#[verifier::external_body]
pub struct ExJsonValue(serde_json::Value);

/// `serde_json::Error`: why a text is not JSON.
#[verifier::external_type_specification]
#[verifier::external_body]
pub struct ExJsonError(serde_json::Error);

/// The tree that a value holds.
pub uninterp spec fn json_of(v: serde_json::Value) -> Json;

/// The value that a text denotes, if it is JSON.
pub uninterp spec fn parsed(text: Seq<char>) -> Option<Json>;

/// The compact text of a value, with the keys of objects in order.
pub uninterp spec fn printed(j: Json) -> Seq<char>;

/// `serde_json::from_str` into a `Value` depends on the text alone.
#[verifier::external_body]
pub(crate) fn parse(s: &str) -> (r: Result<serde_json::Value, serde_json::Error>)
    ensures
        match r {
            Ok(v) => parsed(s@) == Some(json_of(v)),
            Err(_) => parsed(s@) is None,
        },
{
    serde_json::from_str::<serde_json::Value>(s)
}

/// `Value::to_string` writes the value on one line; the text depends on the tree alone, since the
/// crate's map is ordered by key.
#[verifier::external_body]
pub(crate) fn print(v: &serde_json::Value) -> (r: String)
    ensures
        r@ == printed(json_of(*v)),
{
    v.to_string()
}

impl Json {
    /// The value under `key`, in an object that has it.
    pub open spec fn field(self, key: Seq<char>) -> Option<Json> {
        match self {
            Json::Object(m) => if m.dom().contains(key) {
                Some(m[key])
            } else {
                None
            },
            _ => None,
        }
    }

    /// The value at `index`, in an array that is long enough.
    pub open spec fn item(self, index: int) -> Option<Json> {
        match self {
            Json::Array(a) => if 0 <= index < a.len() {
                Some(a[index])
            } else {
                None
            },
            _ => None,
        }
    }

    /// The characters of a string.
    pub open spec fn string(self) -> Option<Seq<char>> {
        match self {
            Json::Str(s) => Some(s),
            _ => None,
        }
    }
}

/// What an optional value holds.
pub open spec fn opt_json(v: Option<&serde_json::Value>) -> Option<Json> {
    match v {
        Some(v) => Some(json_of(*v)),
        None => None,
    }
}

/// What an optional string holds.
pub open spec fn opt_str(s: Option<&str>) -> Option<Seq<char>> {
    match s {
        Some(s) => Some(s@),
        None => None,
    }
}

/// `Value::get` with a string: the value under that key of an object.
#[verifier::external_body]
pub(crate) fn get<'a>(v: &'a serde_json::Value, key: &str) -> (r: Option<&'a serde_json::Value>)
    ensures
        opt_json(r) == json_of(*v).field(key@),
{
    v.get(key)
}

/// `Value::get` with a number: the value at that position of an array.
#[verifier::external_body]
pub(crate) fn get_item(v: &serde_json::Value, index: usize) -> (r: Option<&serde_json::Value>)
    ensures
        opt_json(r) == json_of(*v).item(index as int),
{
    v.get(index)
}

/// `Value::as_str`: the characters of a string.
#[verifier::external_body]
pub(crate) fn as_str(v: &serde_json::Value) -> (r: Option<&str>)
    ensures
        opt_str(r) == json_of(*v).string(),
{
    v.as_str()
}

// ---------------------------------------------------------------------------------------------
// Building

/// `Value::from` on a string.
#[verifier::external_body]
pub(crate) fn string(s: &str) -> (r: serde_json::Value)
    ensures
        json_of(r) == Json::Str(s@),
{
    serde_json::Value::from(s)
}

/// `Value::from` on a truth value.
#[verifier::external_body]
pub(crate) fn boolean(b: bool) -> (r: serde_json::Value)
    ensures
        json_of(r) == Json::Bool(b),
{
    serde_json::Value::from(b)
}

/// `Value::from` on a natural number.
#[verifier::external_body]
pub(crate) fn number(n: u64) -> (r: serde_json::Value)
    ensures
        json_of(r) == Json::Number(text::decimal(n as nat)),
{
    serde_json::Value::from(n)
}

/// What a list of values holds.
pub open spec fn jsons(items: Seq<serde_json::Value>) -> Seq<Json> {
    Seq::new(items.len(), |i: int| json_of(items[i]))
}

/// `Value::from` on a list of values: an array of them.
#[verifier::external_body]
pub(crate) fn array(items: Vec<serde_json::Value>) -> (r: serde_json::Value)
    ensures
        json_of(r) == Json::Array(jsons(items@)),
{
    serde_json::Value::from(items)
}

/// `Value::from` on an empty `serde_json::Map`: an object without entries.
#[verifier::external_body]
pub(crate) fn object() -> (r: serde_json::Value)
    ensures
        json_of(r) is Object,
        json_of(r)->Object_0.dom() == Set::<Seq<char>>::empty(),
{
    serde_json::Value::from(serde_json::Map::new())
}

/// Assignment through the index operator of `Value` with a string: on an object, sets the value
/// under that key. On what is neither an object nor null the operator panics.
#[verifier::external_body]
pub(crate) fn put(v: &mut serde_json::Value, key: &str, item: serde_json::Value)
    requires
        json_of(*old(v)) is Object,
    ensures
        json_of(*final(v)) == Json::Object(
            json_of(*old(v))->Object_0.insert(key@, json_of(item)),
        ),
{
    v[key] = item;
}

/// An array of strings.
pub fn strings(list: &[String]) -> (r: serde_json::Value)
    ensures
        json_of(r) == Json::Array(
            Seq::new(list@.len(), |i: int| Json::Str(text::views(list@)[i])),
        ),
{
    let mut items: Vec<serde_json::Value> = Vec::new();
    let mut i: usize = 0;
    while i < list.len()
        invariant
            i <= list@.len(),
            items@.len() == i,
            forall|j: int| 0 <= j < i ==> json_of(#[trigger] items@[j]) == Json::Str(list@[j]@),
        decreases list.len() - i,
    {
        items.push(string(list[i].as_str()));
        i += 1;
    }
    assert(jsons(items@) =~= Seq::new(
        list@.len(),
        |i: int| Json::Str(text::views(list@)[i]),
    ));
    array(items)
}

/// Looking into a value finds what is there: a key of an object that it has, a position of an array
/// within its length, the characters of a string, and nothing in any other value.
pub proof fn law_looking_finds_what_is_there(j: Json, key: Seq<char>, index: int)
    ensures
        j.field(key) is Some <==> j is Object && j->Object_0.dom().contains(key),
        j.field(key) is Some ==> j.field(key)->0 == j->Object_0[key],
        j.item(index) is Some <==> j is Array && 0 <= index < j->Array_0.len(),
        j.item(index) is Some ==> j.item(index)->0 == j->Array_0[index],
        j.string() is Some <==> j is Str,
        j.string() is Some ==> j == Json::Str(j.string()->0),
{
}

} // verus!
