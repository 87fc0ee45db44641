//! JSON values, read and written by `serde_json`.
use vstd::prelude::*;

verus! {

/// A JSON value.
pub enum JsonView {
    /// Null.
    Null,
    /// A truth value.
    Bool(bool),
    /// A number without sign, fraction and exponent that 64 bits can hold.
    Number(u64),
    /// Any other number, by its digits.
    OtherNumber(Seq<char>),
    /// A string.
    Text(Seq<char>),
    /// An array.
    List(Seq<JsonView>),
    /// An object.
    Object(Map<Seq<char>, JsonView>),
}

#[verifier::external_type_specification]
#[verifier::external_body]
pub struct ExValue(serde_json::Value);

/// What a value of `serde_json` holds.
pub uninterp spec fn json_view(v: serde_json::Value) -> JsonView;

/// What a text says as JSON, or what is said of it if it is none.
pub uninterp spec fn json_read(text: Seq<char>) -> Result<JsonView, Seq<char>>;

/// The text of a value, on several lines.
pub uninterp spec fn json_pretty(v: JsonView) -> Seq<char>;

/// The text of a value, on one line.
pub uninterp spec fn json_compact(v: JsonView) -> Seq<char>;

/// Whether a key is one of those that `serde_json` keeps to itself: an object that starts
/// with one is not read as an object.
pub open spec fn is_private_key(key: Seq<char>) -> bool {
    "$serde_json::private::"@.is_prefix_of(key)
}

/// Whether a value holds no numbers but those that 64 bits can hold and no private keys, and
/// is not nested deeper than some levels.
pub open spec fn is_plain(v: JsonView, levels: nat) -> bool
    decreases levels,
{
    match v {
        JsonView::OtherNumber(_) => false,
        JsonView::List(items) => levels > 0 && forall|i: int|
            0 <= i < items.len() ==> is_plain(#[trigger] items[i], (levels - 1) as nat),
        JsonView::Object(fields) => levels > 0 && (forall|k: Seq<char>| #[trigger]
            fields.contains_key(k) ==> !is_private_key(k)) && forall|k: Seq<char>|
            fields.contains_key(k) ==> is_plain(#[trigger] fields[k], (levels - 1) as nat),
        _ => true,
    }
}

/// Whether a text says a value as JSON.
pub open spec fn reads_as(text: Seq<char>, v: JsonView) -> bool {
    json_read(text) == Ok::<JsonView, Seq<char>>(v)
}

/// Calls `serde_json::from_str` and, of an error, `to_string`.
#[verifier::external_body]
pub(crate) fn parse_json(text: &str) -> (r: Result<serde_json::Value, String>)
    ensures
        match r {
            Ok(v) => json_read(text@) == Ok::<JsonView, Seq<char>>(json_view(v)),
            Err(e) => json_read(text@) == Err::<JsonView, Seq<char>>(e@),
        },
{
    match serde_json::from_str(text) {
        Ok(v) => Ok(v),
        Err(e) => Err(e.to_string()),
    }
}

/// Calls `serde_json::Value::get` with a string: the field of an object with that name,
/// if the value is an object and has one.
#[verifier::external_body]
pub(crate) fn get_field<'a>(v: &'a serde_json::Value, key: &str) -> (r: Option<
    &'a serde_json::Value,
>)
    ensures
        match (r, json_view(*v)) {
            (Some(x), JsonView::Object(fields)) => fields.contains_key(key@) && json_view(*x)
                == fields[key@],
            (None, JsonView::Object(fields)) => !fields.contains_key(key@),
            (Some(_), _) => false,
            (None, _) => true,
        },
{
    v.get(key)
}

/// Calls `serde_json::Value::as_str`: the string, if the value is one.
#[verifier::external_body]
pub(crate) fn get_text(v: &serde_json::Value) -> (r: Option<&str>)
    ensures
        match (r, json_view(*v)) {
            (Some(s), JsonView::Text(t)) => s@ == t,
            (None, JsonView::Text(_)) => false,
            (Some(_), _) => false,
            (None, _) => true,
        },
{
    v.as_str()
}

/// Calls `serde_json::Value::as_u64`: the number, if the value is one that 64 bits can
/// hold.
#[verifier::external_body]
pub(crate) fn get_number(v: &serde_json::Value) -> (r: Option<u64>)
    ensures
        match (r, json_view(*v)) {
            (Some(n), JsonView::Number(m)) => n == m,
            (None, JsonView::Number(_)) => false,
            (Some(_), _) => false,
            (None, _) => true,
        },
{
    v.as_u64()
}

/// What some values of `serde_json` hold.
pub open spec fn json_views(items: Seq<serde_json::Value>) -> Seq<JsonView> {
    items.map_values(|v: serde_json::Value| json_view(v))
}

/// Calls `serde_json::Value::as_array`: the items, if the value is an array.
#[verifier::external_body]
pub(crate) fn get_items(v: &serde_json::Value) -> (r: Option<&Vec<serde_json::Value>>)
    ensures
        match (r, json_view(*v)) {
            (Some(items), JsonView::List(t)) => json_views(items@) == t,
            (None, JsonView::List(_)) => false,
            (Some(_), _) => false,
            (None, _) => true,
        },
{
    v.as_array()
}

/// Makes a `serde_json::Value::Null`.
#[verifier::external_body]
pub(crate) fn null_value() -> (r: serde_json::Value)
    ensures
        json_view(r) == JsonView::Null,
{
    serde_json::Value::Null
}

/// Makes a `serde_json::Value::String`.
#[verifier::external_body]
pub(crate) fn text_value(s: &str) -> (r: serde_json::Value)
    ensures
        json_view(r) == JsonView::Text(s@),
{
    serde_json::Value::String(s.to_string())
}

/// Makes a `serde_json::Value::Number` by `serde_json::Value::from`.
#[verifier::external_body]
pub(crate) fn number_value(n: u64) -> (r: serde_json::Value)
    ensures
        json_view(r) == JsonView::Number(n),
{
    serde_json::Value::from(n)
}

/// Makes a `serde_json::Value::Array`.
#[verifier::external_body]
pub(crate) fn list_value(items: Vec<serde_json::Value>) -> (r: serde_json::Value)
    ensures
        json_view(r) == JsonView::List(json_views(items@)),
{
    serde_json::Value::Array(items)
}

/// Makes a `serde_json::Value::Object` without fields, by `serde_json::Map::new`.
#[verifier::external_body]
pub(crate) fn empty_object() -> (r: serde_json::Value)
    ensures
        json_view(r) == JsonView::Object(Map::empty()),
{
    serde_json::Value::Object(serde_json::Map::new())
}

/// Calls `serde_json::Map::insert` on the fields of an object.
#[verifier::external_body]
pub(crate) fn set_field(v: &mut serde_json::Value, key: &str, value: serde_json::Value)
    requires
        json_view(*old(v)) is Object,
    ensures
        json_view(*final(v)) == JsonView::Object(
            json_view(*old(v))->Object_0.insert(key@, json_view(value)),
        ),
{
    v.as_object_mut().unwrap().insert(key.to_string(), value);
}

/// Calls `serde_json::to_string_pretty`, which does not fail on a value. What it writes
/// is read back as it was, if the value is plain and not nested too deep; of other numbers
/// than those that 64 bits can hold, and of private keys, nothing is said.
#[verifier::external_body]
pub(crate) fn write_pretty(v: &serde_json::Value) -> (r: Option<String>)
    ensures
        r is Some,
        r->Some_0@ == json_pretty(json_view(*v)),
        is_plain(json_view(*v), 100) ==> reads_as(r->Some_0@, json_view(*v)),
{
    serde_json::to_string_pretty(v).ok()
}

/// Calls `to_string` of `serde_json::Value`, which writes the value on one line. What it
/// writes is read back as it was, if the value is plain and not nested too deep; of other
/// numbers than those that 64 bits can hold, and of private keys, nothing is said.
#[verifier::external_body]
pub(crate) fn write_compact(v: &serde_json::Value) -> (r: String)
    ensures
        r@ == json_compact(json_view(*v)),
        is_plain(json_view(*v), 100) ==> reads_as(r@, json_view(*v)),
{
    v.to_string()
}

} // verus!
