//! JSON documents: what a `serde_json` value holds, and the calls that build,
//! print, parse and inspect one.

use vstd::prelude::*;
use vstd::utf8::*;

verus! {

/// A JSON value of `serde_json`.
#[verifier::external_type_specification]
#[verifier::external_body]
pub struct ExValue(serde_json::Value);

/// A JSON number of `serde_json`; the library carries it through unread.
#[verifier::external_type_specification]
#[verifier::external_body]
pub struct ExNumber(serde_json::Number);

/// The members of a JSON object of `serde_json`.
#[verifier::external_type_specification]
#[verifier::external_body]
#[verifier::reject_recursive_types(K)]
#[verifier::reject_recursive_types(V)]
pub struct ExMap<K, V>(serde_json::Map<K, V>);

/// The mathematical model of a JSON document.
pub ghost enum Json {
    Null,
    Bool(bool),
    Number(serde_json::Number),
    Text(Seq<char>),
    Array(Seq<Json>),
    Object(Map<Seq<char>, Json>),
}

/// The document that a JSON value holds.
pub uninterp spec fn json(v: serde_json::Value) -> Json;

/// The members that an object under construction holds.
pub uninterp spec fn members(m: serde_json::Map<String, serde_json::Value>) -> Map<Seq<char>, Json>;

/// The compact text that `serde_json` prints for a document.
pub uninterp spec fn json_text(doc: Json) -> Seq<char>;

/// The document that `serde_json` reads from bytes, if they hold one.
pub uninterp spec fn json_parse(bytes: Seq<u8>) -> Option<Json>;

/// The JSON number of `serde_json` that is the given whole number.
pub uninterp spec fn whole_number(n: u64) -> serde_json::Number;

/// A key that `serde_json` keeps for itself: an object that begins with one is
/// not read as an object.
pub open spec fn reserved(key: Seq<char>) -> bool {
    "$serde_json::private::"@.is_prefix_of(key)
}

/// An object whose members are texts, under keys that are not reserved.
pub open spec fn all_texts(m: Map<Seq<char>, Json>) -> bool {
    forall|k: Seq<char>| #[trigger] m.contains_key(k) ==> !reserved(k) && m[k] is Text
}

/// An object whose members are no arrays, and are objects only of texts. No
/// key is reserved.
pub open spec fn shallow(m: Map<Seq<char>, Json>) -> bool {
    forall|k: Seq<char>| #[trigger]
        m.contains_key(k) ==> !reserved(k) && match m[k] {
            Json::Array(_) => false,
            Json::Object(inner) => all_texts(inner),
            _ => true,
        }
}

/// A reserved key begins with a dollar sign.
pub(crate) proof fn lemma_reserved(key: Seq<char>)
    ensures
        reserved(key) ==> key.len() > 0 && key[0] == '$',
{
    reveal_strlit("$serde_json::private::");
    let prefix = "$serde_json::private::"@;
    if reserved(key) {
        assert(prefix.len() == 22);
        assert(key.subrange(0, 22)[0] == prefix[0]);
    }
}

/// What a member of a shallow object is after printing and reading: the same
/// document, where a number is what its own text reads as.
pub open spec fn reread(doc: Json) -> Option<Json> {
    if doc is Number {
        json_parse(encode_utf8(json_text(doc)))
    } else {
        Some(doc)
    }
}

/// Whether each member of an object reads back.
pub open spec fn all_reread(m: Map<Seq<char>, Json>) -> bool {
    forall|k: Seq<char>| #[trigger] m.contains_key(k) ==> reread(m[k]) is Some
}

/// `serde_json::Map::new`: an object without members.
#[verifier::external_body]
pub(crate) fn new_object() -> (r: serde_json::Map<String, serde_json::Value>)
    ensures
        (members(r) == Map::<Seq<char>, Json>::empty()),
{
    serde_json::Map::new()
}

/// `serde_json::Map::insert`: sets one member, in place of one with the same
/// key.
#[verifier::external_body]
pub(crate) fn put(
    m: &mut serde_json::Map<String, serde_json::Value>,
    key: String,
    value: serde_json::Value,
)
    ensures
        members(*final(m)) == members(*old(m)).insert(key@, json(value)),
{
    m.insert(key, value);
}

/// `serde_json::Value::String`: the value that is a text.
#[verifier::external_body]
pub(crate) fn text_value(text: String) -> (r: serde_json::Value)
    ensures
        json(r) == Json::Text(text@),
{
    serde_json::Value::String(text)
}

/// `serde_json::Value::Object`: the value that is an object.
#[verifier::external_body]
pub(crate) fn object_value(m: serde_json::Map<String, serde_json::Value>) -> (r: serde_json::Value)
    ensures
        json(r) == Json::Object(members(m)),
{
    serde_json::Value::Object(m)
}

/// `serde_json::Number::from` for a whole number.
#[verifier::external_body]
pub(crate) fn number(n: u64) -> (r: serde_json::Number)
    ensures
        r == whole_number(n),
{
    serde_json::Number::from(n)
}

/// Cloning a `serde_json::Value` keeps the document that it holds.
#[verifier::external_body]
pub(crate) fn copy_value(v: &serde_json::Value) -> (r: serde_json::Value)
    ensures
        json(r) == json(*v),
{
    v.clone()
}

/// `serde_json::Value::to_string`: the compact text of a value, which depends
/// on the document alone. A shallow object reads back from its text with the
/// same members, each number as its own text reads; whether a number reads
/// back equal is left unsaid, since the reader may round it. Of an object with
/// a reserved key nothing is said, since the reader may take it for something
/// else.
#[verifier::external_body]
pub(crate) fn print(v: &serde_json::Value) -> (r: String)
    ensures
        r@ == json_text(json(*v)),
        match json(*v) {
            Json::Object(m) => shallow(m) && all_reread(m) ==> json_parse(encode_utf8(r@)) == Some(
                Json::Object(m.map_values(|doc: Json| reread(doc).unwrap())),
            ),
            _ => true,
        },
{
    v.to_string()
}

/// `serde_json::from_slice`: the value that the bytes hold, if they hold one
/// JSON document.
#[verifier::external_body]
pub(crate) fn parse(bytes: &[u8]) -> (r: Option<serde_json::Value>)
    ensures
        match r {
            Some(v) => json_parse(bytes@) == Some(json(v)),
            None => json_parse(bytes@) is None,
        },
{
    serde_json::from_slice::<serde_json::Value>(bytes).ok()
}

/// `serde_json::Value::get` with a text: the member of an object under that
/// key; nothing where there is none or the value is no object.
#[verifier::external_body]
pub(crate) fn member<'a>(v: &'a serde_json::Value, key: &str) -> (r: Option<&'a serde_json::Value>)
    ensures
        match json(*v) {
            Json::Object(m) => match r {
                Some(x) => m.contains_key(key@) && json(*x) == m[key@],
                None => !m.contains_key(key@),
            },
            _ => r is None,
        },
{
    v.get(key)
}

/// `serde_json::Value::as_str`: the text, where the value is one.
#[verifier::external_body]
pub(crate) fn as_text(v: &serde_json::Value) -> (r: Option<&str>)
    ensures
        match json(*v) {
            Json::Text(s) => r matches Some(t) && t@ == s,
            _ => r is None,
        },
{
    v.as_str()
}

/// `serde_json::Value::as_number`: the number, where the value is one.
#[verifier::external_body]
pub(crate) fn as_number(v: &serde_json::Value) -> (r: Option<serde_json::Number>)
    ensures
        match json(*v) {
            Json::Number(n) => r == Some(n),
            _ => r is None,
        },
{
    v.as_number().cloned()
}

/// `serde_json::Value::is_object`.
#[verifier::external_body]
pub(crate) fn is_object(v: &serde_json::Value) -> (r: bool)
    ensures
        r == (json(*v) is Object),
{
    v.is_object()
}

} // verus!
