//! JSON values as the rest of the library sees them.
//!
//! `serde_json` parses, holds and prints JSON. A value is opaque to the proofs;
//! what it holds is described by a [`JsonTree`], and each function below says
//! what one `serde_json` call does in terms of such trees.
use crate::paths::text_key;
use crate::sorting::lex_le;
use crate::text::decimal;
use vstd::prelude::*;

verus! {

/// `serde_json::Value`.
#[verifier::external_type_specification]
#[verifier::external_body]
pub struct ExJsonValue(serde_json::Value);

/// `serde_json::Map`, the members of a JSON object.
#[verifier::external_type_specification]
#[verifier::external_body]
#[verifier::reject_recursive_types(K)]
#[verifier::reject_recursive_types(V)]
pub struct ExJsonMembers<K, V>(serde_json::Map<K, V>);

/// What a JSON value holds.
///
/// A number keeps the text it prints as and, where it is a non-negative integer
/// of at most 64 bits, its value.
#[verifier::ext_equal]
pub enum JsonTree {
    Null,
    Bool(bool),
    Number { text: Seq<char>, unsigned: Option<u64> },
    Text(Seq<char>),
    Array(Seq<JsonTree>),
    Object(Map<Seq<char>, JsonTree>),
}

/// What a JSON value holds.
pub uninterp spec fn json_view(v: serde_json::Value) -> JsonTree;

/// The members that a JSON object holds, by key.
pub uninterp spec fn json_members(
    m: serde_json::Map<String, serde_json::Value>,
) -> Map<Seq<char>, JsonTree>;

/// What `serde_json::from_str` makes of a text: a value, or the message of the
/// error.
pub uninterp spec fn parsed_json(text: Seq<char>) -> Result<JsonTree, Seq<char>>;

/// The indented text of a value, as `serde_json::to_string_pretty` prints it, or
/// the message of the error.
pub uninterp spec fn pretty_text(v: JsonTree) -> Result<Seq<char>, Seq<char>>;

/// The one-line text of a value, as it is displayed.
pub uninterp spec fn compact_text(v: JsonTree) -> Seq<char>;

/// Whether the value is an object whose members are texts or lists of texts.
pub open spec fn holds_texts_only(v: JsonTree) -> bool {
    v matches JsonTree::Object(members) && forall|k: Seq<char>| #[trigger]
        members.contains_key(k) ==> (members[k] is Text || (members[k] matches JsonTree::Array(
            items,
        ) && forall|i: int| 0 <= i < items.len() ==> (#[trigger] items[i]) is Text))
}

/// How many arrays and objects may be inside each other in a text that is parsed.
pub const MAX_NESTING: u8 = 127;

/// The key that `serde_json` keeps for itself: an object that begins with it is
/// read as what the text under it denotes.
pub const RAW_VALUE_KEY: &'static str = "$serde_json::private::RawValue";

/// Whether the key that `serde_json` keeps for itself is the first of the keys,
/// which are printed in the order of their characters.
pub open spec fn begins_with_raw_key(members: Map<Seq<char>, JsonTree>) -> bool {
    &&& members.contains_key(RAW_VALUE_KEY@)
    &&& forall|k: Seq<char>| #[trigger]
        members.contains_key(k) ==> lex_le(text_key(RAW_VALUE_KEY@), text_key(k))
}

/// Whether at most `n` arrays and objects are inside each other and no object
/// begins with the key that `serde_json` keeps for itself.
pub open spec fn readable(v: JsonTree, n: nat) -> bool
    decreases n,
{
    match v {
        JsonTree::Array(items) => n > 0 && forall|i: int|
            0 <= i < items.len() ==> readable(#[trigger] items[i], (n - 1) as nat),
        JsonTree::Object(members) => n > 0 && !begins_with_raw_key(members) && forall|
            k: Seq<char>,
        |
            members.contains_key(k) ==> readable(#[trigger] members[k], (n - 1) as nat),
        _ => true,
    }
}

/// Whether the two values are the same but for their numbers.
pub open spec fn alike(a: JsonTree, b: JsonTree, n: nat) -> bool
    decreases n,
{
    match (a, b) {
        (JsonTree::Number { .. }, JsonTree::Number { .. }) => true,
        (JsonTree::Array(x), JsonTree::Array(y)) => n > 0 && x.len() == y.len() && forall|i: int|
            0 <= i < x.len() ==> alike(#[trigger] x[i], y[i], (n - 1) as nat),
        (JsonTree::Object(x), JsonTree::Object(y)) => n > 0 && x.dom() == y.dom() && forall|
            k: Seq<char>,
        |
            x.contains_key(k) ==> alike(#[trigger] x[k], y[k], (n - 1) as nat),
        _ => a == b,
    }
}

/// Whether the text is read as a value that is `v` but for its numbers.
pub open spec fn reads_back(text: Seq<char>, v: JsonTree) -> bool {
    parsed_json(text) matches Ok(w) && alike(w, v, MAX_NESTING as nat)
}

/// The member `key` of an object; nothing where there is none or the value is
/// no object.
pub open spec fn member(v: JsonTree, key: Seq<char>) -> Option<JsonTree> {
    match v {
        JsonTree::Object(members) => if members.contains_key(key) {
            Some(members[key])
        } else {
            None
        },
        _ => None,
    }
}

/// The number that the value is, where it is a non-negative integer of at most
/// 64 bits.
pub open spec fn number_of(v: JsonTree) -> Option<u64> {
    match v {
        JsonTree::Number { unsigned, .. } => unsigned,
        _ => None,
    }
}

/// The text that the value is, where it is one.
pub open spec fn text_of(v: JsonTree) -> Option<Seq<char>> {
    match v {
        JsonTree::Text(s) => Some(s),
        _ => None,
    }
}

/// The truth value that the value is, where it is one.
pub open spec fn bool_of(v: JsonTree) -> Option<bool> {
    match v {
        JsonTree::Bool(b) => Some(b),
        _ => None,
    }
}

/// The items of the value, where it is an array.
pub open spec fn items_of(v: JsonTree) -> Option<Seq<JsonTree>> {
    match v {
        JsonTree::Array(items) => Some(items),
        _ => None,
    }
}

/// The tree of a non-negative integer.
pub open spec fn number_tree(n: u64) -> JsonTree {
    JsonTree::Number { text: decimal(n as nat), unsigned: Some(n) }
}

/// The trees of a list of values.
pub open spec fn trees(v: Seq<serde_json::Value>) -> Seq<JsonTree> {
    v.map_values(|x: serde_json::Value| json_view(x))
}

/// `serde_json::from_str` on a JSON value: the value that the text denotes, or
/// the message of the parse error.
#[verifier::external_body]
pub(crate) fn parse_json(text: &str) -> (r: Result<serde_json::Value, String>)
    ensures
        match r {
            Ok(v) => parsed_json(text@) == Ok::<JsonTree, Seq<char>>(json_view(v)),
            Err(e) => parsed_json(text@) == Err::<JsonTree, Seq<char>>(e@),
        },
{
    serde_json::from_str::<serde_json::Value>(text).map_err(|e| e.to_string())
}

/// `serde_json::to_string_pretty`: the indented text, or the message of the
/// error. The text of a value that is not nested too deeply and in which no object
/// begins with the key that `serde_json` keeps for itself, closed by a line break,
/// is read as that value, but for the last digits of its numbers. Of other values
/// nothing is said: the text of one that is nested more deeply is no longer parsed,
/// and an object that begins with that key is read as something else.
#[verifier::external_body]
pub(crate) fn pretty_json(v: &serde_json::Value) -> (r: Result<String, String>)
    ensures
        match r {
            Ok(s) => pretty_text(json_view(*v)) == Ok::<Seq<char>, Seq<char>>(s@) && (readable(
                json_view(*v),
                MAX_NESTING as nat,
            ) ==> reads_back(s@ + "\n"@, json_view(*v))),
            Err(e) => pretty_text(json_view(*v)) == Err::<Seq<char>, Seq<char>>(e@),
        },
{
    serde_json::to_string_pretty(v).map_err(|e| e.to_string())
}

/// `serde_json::Value` displayed: the text on one line.
#[verifier::external_body]
pub(crate) fn compact_json(v: &serde_json::Value) -> (s: String)
    ensures
        s@ == compact_text(json_view(*v)),
{
    v.to_string()
}

/// `serde_json::Value::get` with a key: the member of that key, nothing where
/// there is none or the value is no object.
#[verifier::external_body]
pub(crate) fn get_member<'a>(v: &'a serde_json::Value, key: &str) -> (r: Option<
    &'a serde_json::Value,
>)
    ensures
        match r {
            Some(m) => member(json_view(*v), key@) == Some(json_view(*m)),
            None => member(json_view(*v), key@) is None,
        },
{
    v.get(key)
}

/// `serde_json::Value::as_u64`: the value as a `u64`, where it is a
/// non-negative integer that fits.
#[verifier::external_body]
pub(crate) fn as_number(v: &serde_json::Value) -> (r: Option<u64>)
    ensures
        r == number_of(json_view(*v)),
{
    v.as_u64()
}

/// `serde_json::Value::as_str`: the text, where the value is a string.
#[verifier::external_body]
pub(crate) fn as_text(v: &serde_json::Value) -> (r: Option<&str>)
    ensures
        match r {
            Some(s) => text_of(json_view(*v)) == Some(s@),
            None => text_of(json_view(*v)) is None,
        },
{
    v.as_str()
}

/// `serde_json::Value::as_bool`: the truth value, where the value is one.
#[verifier::external_body]
pub(crate) fn as_truth(v: &serde_json::Value) -> (r: Option<bool>)
    ensures
        r == bool_of(json_view(*v)),
{
    v.as_bool()
}

/// `serde_json::Value::as_array`: the items in order, where the value is an
/// array.
#[verifier::external_body]
pub(crate) fn as_items(v: &serde_json::Value) -> (r: Option<&Vec<serde_json::Value>>)
    ensures
        match r {
            Some(items) => items_of(json_view(*v)) == Some(trees(items@)),
            None => items_of(json_view(*v)) is None,
        },
{
    v.as_array()
}

/// `serde_json::Value::as_object`: the members, where the value is an object.
#[verifier::external_body]
pub(crate) fn as_members(v: &serde_json::Value) -> (r: Option<
    &serde_json::Map<String, serde_json::Value>,
>)
    ensures
        match r {
            Some(m) => json_view(*v) == JsonTree::Object(json_members(*m)),
            None => !(json_view(*v) is Object),
        },
{
    v.as_object()
}

/// `==` on `serde_json::Value`: where one side holds texts and lists of texts
/// only, equality is equality of what the two values hold.
#[verifier::external_body]
pub(crate) fn equal_json(a: &serde_json::Value, b: &serde_json::Value) -> (r: bool)
    requires
        holds_texts_only(json_view(*b)),
    ensures
        r == (json_view(*a) == json_view(*b)),
{
    a == b
}

/// `serde_json::Value::String`: the JSON string of a text.
#[verifier::external_body]
pub(crate) fn json_text(s: String) -> (v: serde_json::Value)
    ensures
        json_view(v) == JsonTree::Text(s@),
{
    serde_json::Value::String(s)
}

/// `serde_json::Value::Bool`: the JSON truth value.
#[verifier::external_body]
pub(crate) fn json_bool(b: bool) -> (v: serde_json::Value)
    ensures
        json_view(v) == JsonTree::Bool(b),
{
    serde_json::Value::Bool(b)
}

/// `serde_json::Value::Null`: the JSON null.
#[verifier::external_body]
pub(crate) fn json_null() -> (v: serde_json::Value)
    ensures
        json_view(v) == JsonTree::Null,
{
    serde_json::Value::Null
}

/// `serde_json::Value::clone`: the same value.
#[verifier::external_body]
pub(crate) fn copy_json(v: &serde_json::Value) -> (copy: serde_json::Value)
    ensures
        json_view(copy) == json_view(*v),
{
    v.clone()
}

/// `serde_json::Value::from` on a `u64`: the JSON number, which prints as its
/// decimal digits.
#[verifier::external_body]
pub(crate) fn json_number(n: u64) -> (v: serde_json::Value)
    ensures
        json_view(v) == number_tree(n),
{
    serde_json::Value::from(n)
}

/// `serde_json::Value::Array`: the JSON array of the given values, in order.
#[verifier::external_body]
pub(crate) fn json_array(items: Vec<serde_json::Value>) -> (v: serde_json::Value)
    ensures
        json_view(v) == JsonTree::Array(trees(items@)),
{
    serde_json::Value::Array(items)
}

/// `serde_json::Value::Object`: the JSON object of the given members.
#[verifier::external_body]
pub(crate) fn json_object(m: serde_json::Map<String, serde_json::Value>) -> (v: serde_json::Value)
    ensures
        json_view(v) == JsonTree::Object(json_members(m)),
{
    serde_json::Value::Object(m)
}

/// No members at all.
pub open spec fn empty_members() -> Map<Seq<char>, JsonTree> {
    Map::empty()
}

/// `serde_json::Map::new`: no members.
#[verifier::external_body]
pub(crate) fn no_members() -> (m: serde_json::Map<String, serde_json::Value>)
    ensures
        json_members(m) == empty_members(),
{
    serde_json::Map::new()
}

/// `serde_json::Map::insert`: sets the member of the key, in place of any
/// earlier one.
#[verifier::external_body]
pub(crate) fn set_member(
    m: &mut serde_json::Map<String, serde_json::Value>,
    key: &str,
    v: serde_json::Value,
)
    ensures
        json_members(*final(m)) == json_members(*old(m)).insert(key@, json_view(v)),
{
    m.insert(key.to_string(), v);
}

/// `serde_json::Map::get`: the member of the key.
#[verifier::external_body]
pub(crate) fn find_member<'a>(
    m: &'a serde_json::Map<String, serde_json::Value>,
    key: &str,
) -> (r: Option<&'a serde_json::Value>)
    ensures
        match r {
            Some(v) => json_members(*m).contains_key(key@) && json_members(*m)[key@] == json_view(
                *v,
            ),
            None => !json_members(*m).contains_key(key@),
        },
{
    m.get(key)
}

/// `serde_json::Map::clone`: the same members.
#[verifier::external_body]
pub(crate) fn copy_members(m: &serde_json::Map<String, serde_json::Value>) -> (copy: serde_json::Map<
    String,
    serde_json::Value,
>)
    ensures
        json_members(copy) == json_members(*m),
{
    m.clone()
}

/// The number under `key`, or zero.
pub open spec fn number_at(v: JsonTree, key: Seq<char>) -> u64 {
    match member(v, key) {
        Some(m) => match number_of(m) {
            Some(n) => n,
            None => 0,
        },
        None => 0,
    }
}

/// The text under `key`, if there is one.
pub open spec fn text_at(v: JsonTree, key: Seq<char>) -> Option<Seq<char>> {
    match member(v, key) {
        Some(m) => text_of(m),
        None => None,
    }
}

/// The truth value under `key`, or `false`.
pub open spec fn bool_at(v: JsonTree, key: Seq<char>) -> bool {
    match member(v, key) {
        Some(m) => bool_of(m) == Some(true),
        None => false,
    }
}

/// The number under `key`, or zero.
pub fn read_number(v: &serde_json::Value, key: &str) -> (n: u64)
    ensures
        n == number_at(json_view(*v), key@),
{
    match get_member(v, key) {
        Some(m) => match as_number(m) {
            Some(n) => n,
            None => 0,
        },
        None => 0,
    }
}

/// The text under `key`, if there is one.
pub fn read_text<'a>(v: &'a serde_json::Value, key: &str) -> (r: Option<&'a str>)
    ensures
        match r {
            Some(s) => text_at(json_view(*v), key@) == Some(s@),
            None => text_at(json_view(*v), key@) is None,
        },
{
    match get_member(v, key) {
        Some(m) => as_text(m),
        None => None,
    }
}

/// The truth value under `key`, or `false`.
pub fn read_bool(v: &serde_json::Value, key: &str) -> (b: bool)
    ensures
        b == bool_at(json_view(*v), key@),
{
    match get_member(v, key) {
        Some(m) => match as_truth(m) {
            Some(b) => b,
            None => false,
        },
        None => false,
    }
}

/// The value that a text denotes, the empty object where it denotes none.
pub open spec fn parsed_or_empty(text: Seq<char>) -> JsonTree {
    match parsed_json(text) {
        Ok(v) => v,
        Err(_) => JsonTree::Object(empty_members()),
    }
}

/// The value that a text denotes, the empty object where it denotes none.
pub fn parse_or_empty(text: &str) -> (v: serde_json::Value)
    ensures
        json_view(v) == parsed_or_empty(text@),
{
    match parse_json(text) {
        Ok(v) => v,
        Err(_) => json_object(no_members()),
    }
}

} // verus!
