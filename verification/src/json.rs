//! JSON values, which `serde_json` reads, builds and writes.
use std::collections::HashMap;
use vstd::prelude::*;

verus! {

/// `serde_json::Value`, carried as it is: only `serde_json` looks inside.
#[verifier::external_type_specification]
#[verifier::external_body]
pub struct ExJsonValue(serde_json::Value);

/// The value that a text writes in JSON, where it does.
pub uninterp spec fn json_value(text: Seq<char>) -> Option<serde_json::Value>;

/// The compact JSON text of a value.
pub uninterp spec fn json_text(value: serde_json::Value) -> Seq<char>;

/// The JSON string that holds `text`.
pub uninterp spec fn json_string(text: Seq<char>) -> serde_json::Value;

/// The JSON object of the named values.
pub uninterp spec fn json_object(fields: Seq<(Seq<char>, serde_json::Value)>) -> serde_json::Value;

/// The table from strings to strings that a text writes in JSON, where it does.
pub uninterp spec fn json_table(text: Seq<char>) -> Option<Map<Seq<char>, Seq<char>>>;

/// The names and values of an object's fields.
pub open spec fn field_views(
    fields: Seq<(String, serde_json::Value)>,
) -> Seq<(Seq<char>, serde_json::Value)> {
    fields.map_values(|f: (String, serde_json::Value)| (f.0@, f.1))
}

/// The table that a list of pairs describes; of two pairs with one key the later counts.
pub open spec fn table_of(pairs: Seq<(String, String)>) -> Map<Seq<char>, Seq<char>> {
    crate::string_map::text_map(crate::string_map::pairs_map(pairs))
}

/// Reads a JSON text with `serde_json::from_str`. The result depends on the text alone; the
/// grammar of JSON is not written out here.
#[verifier::external_body]
pub(crate) fn parse_json(text: &str) -> (r: Option<serde_json::Value>)
    ensures
        r == json_value(text@),
{
    serde_json::from_str(text).ok()
}

/// Writes a value with its `Display`, which gives compact JSON. The text depends on the value
/// alone; how it looks is not written out here.
#[verifier::external_body]
pub(crate) fn write_json(value: &serde_json::Value) -> (r: String)
    ensures
        r@ == json_text(*value),
{
    value.to_string()
}

/// Builds a JSON string with the `From<String>` of `serde_json::Value`.
#[verifier::external_body]
pub(crate) fn string_value(text: String) -> (r: serde_json::Value)
    ensures
        r == json_string(text@),
{
    serde_json::Value::from(text)
}

/// Builds a JSON object with the `FromIterator` of `serde_json::Value`, from the names and
/// values of its fields.
#[verifier::external_body]
pub(crate) fn object_value(fields: Vec<(String, serde_json::Value)>) -> (r: serde_json::Value)
    ensures
        r == json_object(field_views(fields@)),
{
    fields.into_iter().collect()
}

/// Builds a value with the `From<Option<_>>` of `serde_json::Value`: the value itself, and
/// `null` where there is none.
#[verifier::external_body]
pub(crate) fn value_or_null(value: Option<serde_json::Value>) -> (r: serde_json::Value)
    ensures
        match value {
            Some(v) => r == v,
            None => json_value("null"@) == Some(r),
        },
{
    serde_json::Value::from(value)
}

/// Reads a table of strings with `serde_json::from_str`, as a `HashMap`, and hands back its
/// pairs in no particular order. Which table it is depends on the text alone.
#[verifier::external_body]
pub(crate) fn parse_table(text: &str) -> (r: Option<Vec<(String, String)>>)
    ensures
        match r {
            Some(pairs) => json_table(text@) == Some(table_of(pairs@)),
            None => json_table(text@) is None,
        },
{
    let table: HashMap<String, String> = serde_json::from_str(text).ok()?;
    Some(table.into_iter().collect())
}

/// The names and values of fields are those of each field, in order.
pub proof fn law_contents_of_fields(fields: Seq<(String, serde_json::Value)>, i: int)
    requires
        0 <= i < fields.len(),
    ensures
        field_views(fields).len() == fields.len(),
        field_views(fields)[i] == (fields[i].0@, fields[i].1),
{
}

}
