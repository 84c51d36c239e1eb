//! JSON text, written by `serde_json`.
//!
//! A document is rebuilt as a `serde_json::Value`, which `serde_json`
//! then writes. What `serde_json` does is taken on trust, through the
//! small functions at the head of this file; the rebuilding is verified
//! against them.

use crate::convert::spec_convert;
use crate::json::json_views;
use crate::json::lemma_json_views;
use crate::json::members_view;
use crate::json::Json;
use crate::json::JsonView;
use crate::json::Member;
use crate::record::record_document;
use crate::record::Record;
use crate::value::BusValue;
use vstd::prelude::*;
use vstd::string::StringExecFns;

verus! {

#[verifier::external_type_specification]
#[verifier::external_body]
pub struct ExSerdeValue(serde_json::Value);

/// The document that a `serde_json::Value` holds: its variant and
/// payload, an object being the map of its entries.
pub uninterp spec fn document_of(value: serde_json::Value) -> JsonView;

/// The text that `serde_json` writes for a document in its compact form,
/// given that its maps keep their entries in the order of the keys, as
/// they do unless `serde_json` is built to preserve insertion order.
pub uninterp spec fn compact_text(document: JsonView) -> Seq<char>;

/// `serde_json::Value::Null`: the value that holds null.
#[verifier::external_body]
fn json_null() -> (r: serde_json::Value)
    ensures
        document_of(r) == JsonView::Null,
{
    serde_json::Value::Null
}

/// `serde_json::Value::Bool`: the value that holds the given boolean.
#[verifier::external_body]
fn json_bool(b: bool) -> (r: serde_json::Value)
    ensures
        document_of(r) == JsonView::Bool(b),
{
    serde_json::Value::Bool(b)
}

/// `From<u64>` of `serde_json::Value`: the number that holds the given
/// integer exactly.
#[verifier::external_body]
fn json_unsigned(n: u64) -> (r: serde_json::Value)
    ensures
        document_of(r) == JsonView::Integer(n as int),
{
    serde_json::Value::from(n)
}

/// `From<i64>` of `serde_json::Value`: the number that holds the given
/// integer exactly.
#[verifier::external_body]
fn json_signed(n: i64) -> (r: serde_json::Value)
    ensures
        document_of(r) == JsonView::Integer(n as int),
{
    serde_json::Value::from(n)
}

/// `serde_json::Value::String`: the value that holds the given text.
#[verifier::external_body]
fn json_string(text: String) -> (r: serde_json::Value)
    ensures
        document_of(r) == JsonView::String(text@),
{
    serde_json::Value::String(text)
}

/// `serde_json::Value::Array`: the value that holds the given values, in
/// their order.
#[verifier::external_body]
fn json_array(items: Vec<serde_json::Value>) -> (r: serde_json::Value)
    ensures
        document_of(r) == JsonView::Array(
            Seq::new(items@.len(), |i: int| document_of(items@[i])),
        ),
{
    serde_json::Value::Array(items)
}

/// `serde_json::Map::new` inside `serde_json::Value::Object`: the object
/// without entries.
#[verifier::external_body]
fn json_empty_object() -> (r: serde_json::Value)
    ensures
        document_of(r) == JsonView::Object(Map::empty()),
{
    serde_json::Value::Object(serde_json::Map::new())
}

/// `serde_json::Map::insert` on the map of an object: afterwards the key
/// maps to the given value, whether or not the key was there before, and
/// every other key maps to what it did.
#[verifier::external_body]
fn json_object_insert(object: &mut serde_json::Value, key: String, value: serde_json::Value)
    requires
        document_of(*old(object)) is Object,
    ensures
        document_of(*final(object)) == JsonView::Object(
            document_of(*old(object))->Object_0.insert(key@, document_of(value)),
        ),
{
    if let serde_json::Value::Object(entries) = object {
        entries.insert(key, value);
    }
}

/// `to_string` of `serde_json::Value`, which writes the value in compact
/// form: the text depends on nothing but what the value holds.
#[verifier::external_body]
fn json_text(value: &serde_json::Value) -> (text: String)
    ensures
        text@ == compact_text(document_of(*value)),
{
    value.to_string()
}

/// Whether an integer is one that `serde_json` holds exactly: it lies
/// between the least 64-bit signed and the greatest 64-bit unsigned
/// integer.
pub open spec fn integer_fits(n: int) -> bool {
    i64::MIN <= n <= u64::MAX
}

impl Json {
    /// Whether the document can be handed to `serde_json` from here: it
    /// holds no double, and no integer that `serde_json` would not hold
    /// exactly. A double is held here by its bits alone; a document with
    /// a double is left to a caller that can turn the bits into a
    /// floating-point number.
    pub open spec fn writable(&self) -> bool
        decreases self,
    {
        match self {
            Json::Double(_) => false,
            Json::Integer(n) => integer_fits(*n as int),
            Json::Array(items) => forall|i: int|
                0 <= i < items@.len() ==> (#[trigger] items@[i]).writable(),
            Json::Object(members) => forall|i: int|
                0 <= i < members@.len() ==> (#[trigger] members@[i]).value.writable(),
            _ => true,
        }
    }
}

/// Rebuilds a document as a `serde_json::Value`, if it is writable.
pub fn to_serde(document: &Json) -> (r: Option<serde_json::Value>)
    ensures
        r is Some <==> document.writable(),
        r matches Some(value) ==> document_of(value) == document@,
    decreases document,
{
    match document {
        Json::Null => Some(json_null()),
        Json::Bool(b) => Some(json_bool(*b)),
        Json::Integer(n) => {
            if 0 <= *n && *n <= u64::MAX as i128 {
                Some(json_unsigned(*n as u64))
            } else if i64::MIN as i128 <= *n && *n < 0 {
                Some(json_signed(*n as i64))
            } else {
                None
            }
        },
        Json::Double(_) => None,
        Json::String(text) => Some(json_string(text.clone())),
        Json::Array(items) => array_to_serde(items),
        Json::Object(members) => object_to_serde(members),
    }
}

/// Rebuilds the array of the given documents, if each of them is
/// writable.
fn array_to_serde(items: &Vec<Json>) -> (r: Option<serde_json::Value>)
    ensures
        r is Some <==> forall|i: int| 0 <= i < items@.len() ==> (#[trigger] items@[i]).writable(),
        r matches Some(value) ==> document_of(value) == JsonView::Array(json_views(items@)),
    decreases items,
{
    let mut values: Vec<serde_json::Value> = Vec::new();
    let mut i: usize = 0;
    while i < items.len()
        invariant
            i <= items@.len(),
            values@.len() == i,
            forall|k: int| 0 <= k < i ==> (#[trigger] items@[k]).writable(),
            forall|k: int| 0 <= k < i ==> document_of(#[trigger] values@[k]) == items@[k].view(),
        decreases items@.len() - i,
    {
        match to_serde(&items[i]) {
            Some(value) => {
                values.push(value);
            },
            None => {
                return None;
            },
        }
        i += 1;
    }
    let array = json_array(values);
    proof {
        lemma_json_views(items@);
        assert(Seq::new(values@.len(), |i: int| document_of(values@[i])) =~= json_views(items@));
    }
    Some(array)
}

/// Rebuilds the object of the given members, if the value of each of
/// them is writable.
fn object_to_serde(members: &Vec<Member>) -> (r: Option<serde_json::Value>)
    ensures
        r is Some <==> forall|i: int|
            0 <= i < members@.len() ==> (#[trigger] members@[i]).value.writable(),
        r matches Some(value) ==> document_of(value) == JsonView::Object(members_view(members@)),
    decreases members,
{
    let mut object = json_empty_object();
    let mut i: usize = 0;
    proof {
        assert(members@.take(0) =~= Seq::empty());
    }
    while i < members.len()
        invariant
            i <= members@.len(),
            forall|k: int| 0 <= k < i ==> (#[trigger] members@[k]).value.writable(),
            document_of(object) == JsonView::Object(members_view(members@.take(i as int))),
        decreases members@.len() - i,
    {
        let member = &members[i];
        match to_serde(&member.value) {
            Some(value) => {
                json_object_insert(&mut object, member.key.clone(), value);
            },
            None => {
                return None;
            },
        }
        proof {
            let next = members@.take(i + 1);
            assert(next.drop_last() =~= members@.take(i as int));
            assert(next.last() == members@[i as int]);
        }
        i += 1;
    }
    proof {
        assert(members@.take(i as int) =~= members@);
    }
    Some(object)
}

/// Writes a document as JSON text in compact form, if it is writable.
pub fn to_text(document: &Json) -> (r: Option<String>)
    ensures
        r is Some <==> document.writable(),
        r matches Some(text) ==> text@ == compact_text(document@),
{
    match to_serde(document) {
        Some(value) => Some(json_text(&value)),
        None => None,
    }
}

/// Writes the JSON object of a record as text in compact form, if both
/// documents of the record are writable.
pub fn record_text(record: &Record) -> (r: Option<String>)
    ensures
        r is Some <==> record.data.writable() && record.signature.writable(),
        r matches Some(text) ==> text@ == compact_text(record_document(record@)),
{
    let data = to_serde(&record.data)?;
    let signature = to_serde(&record.signature)?;
    let signal = json_string(record.signal.clone());
    let mut object = json_empty_object();
    json_object_insert(&mut object, String::from_str("data"), data);
    json_object_insert(&mut object, String::from_str("signal"), signal);
    json_object_insert(&mut object, String::from_str("signature"), signature);
    Some(json_text(&object))
}

/// Values with the same content are written as the same text: what is
/// written for a value depends on nothing but the value. Where one of
/// them has no document, neither has the other, and for the same reason.
pub proof fn lemma_equal_values_same_text(a: BusValue, b: BusValue)
    requires
        a@ == b@,
    ensures
        match (spec_convert(a@), spec_convert(b@)) {
            (Ok(x), Ok(y)) => compact_text(x) == compact_text(y),
            (Err(e), Err(f)) => e == f,
            _ => false,
        },
{
}

} // verus!
