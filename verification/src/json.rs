//! JSON values, built and rendered with `serde_json`.

use vstd::prelude::*;
use vstd::string::*;

verus! {

/// A JSON value.
pub enum Json {
    Null,
    Number(nat),
    Text(Seq<char>),
    List(Seq<Json>),
    Object(Map<Seq<char>, Json>),
}

#[verifier::external_type_specification]
#[verifier::external_body]
pub struct ExValue(serde_json::Value);

#[verifier::external_type_specification]
#[verifier::external_body]
#[verifier::reject_recursive_types(K)]
#[verifier::reject_recursive_types(V)]
pub struct ExFields<K, V>(serde_json::Map<K, V>);

/// The JSON value that a `serde_json::Value` holds.
pub uninterp spec fn json_view(value: serde_json::Value) -> Json;

/// The JSON values that some `serde_json::Value`s hold.
pub open spec fn json_views(values: Seq<serde_json::Value>) -> Seq<Json> {
    values.map_values(|value: serde_json::Value| json_view(value))
}

/// The members that a `serde_json::Map` holds.
pub uninterp spec fn json_fields(fields: serde_json::Map<String, serde_json::Value>) -> Map<Seq<char>, Json>;

/// The members of an empty object.
pub open spec fn no_members() -> Map<Seq<char>, Json> {
    Map::empty()
}

/// The text of a JSON value as `serde_json` writes it: compact, the members of
/// an object in the order of their names.
pub uninterp spec fn json_text(value: Json) -> Seq<char>;

/// `serde_json::Value::Null` is the JSON null.
#[verifier::external_body]
pub(crate) fn null_value() -> (value: serde_json::Value)
    ensures
        json_view(value) == Json::Null,
{
    serde_json::Value::Null
}

/// `serde_json::Value::from` of an integer is that number.
#[verifier::external_body]
pub(crate) fn number_value(n: u64) -> (value: serde_json::Value)
    ensures
        json_view(value) == Json::Number(n as nat),
{
    serde_json::Value::from(n)
}

/// `serde_json::Value::from` of a text is that text.
#[verifier::external_body]
pub(crate) fn text_value(text: &str) -> (value: serde_json::Value)
    ensures
        json_view(value) == Json::Text(text@),
{
    serde_json::Value::from(text)
}

/// `serde_json::Value::Array` is the list of its values, in order.
#[verifier::external_body]
pub(crate) fn list_value(items: Vec<serde_json::Value>) -> (value: serde_json::Value)
    ensures
        json_view(value) == Json::List(json_views(items@)),
{
    serde_json::Value::Array(items)
}

/// `serde_json::Map::new` has no members.
#[verifier::external_body]
pub(crate) fn no_fields() -> (fields: serde_json::Map<String, serde_json::Value>)
    ensures
        json_fields(fields) == no_members(),
{
    serde_json::Map::new()
}

/// `serde_json::Map::insert` sets the member of that name.
#[verifier::external_body]
pub(crate) fn set_field(
    fields: &mut serde_json::Map<String, serde_json::Value>,
    name: &str,
    value: serde_json::Value,
)
    ensures
        json_fields(*final(fields)) == json_fields(*old(fields)).insert(name@, json_view(value)),
{
    fields.insert(name.to_owned(), value);
}

/// `serde_json::Value::Object` is the object with these members.
#[verifier::external_body]
pub(crate) fn object_value(fields: serde_json::Map<String, serde_json::Value>) -> (value:
    serde_json::Value)
    ensures
        json_view(value) == Json::Object(json_fields(fields)),
{
    serde_json::Value::Object(fields)
}

/// `to_string` of a `serde_json::Value` writes it as text. What the text looks
/// like is not stated, only that it depends on the JSON value alone.
#[verifier::external_body]
pub(crate) fn render(value: &serde_json::Value) -> (text: String)
    ensures
        text@ == json_text(json_view(*value)),
{
    value.to_string()
}

} // verus!
