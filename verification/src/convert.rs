//! The conversion of bus values into JSON documents.

use crate::json::insert_member;
use crate::json::json_views;
use crate::json::keys_ascend;
use crate::json::lemma_members_view_keys;
use crate::json::members_view;
use crate::json::Json;
use crate::json::JsonView;
use crate::json::Member;
use crate::text::decimal;
use crate::text::decimal_string;
use crate::value::entry_views;
use crate::value::lemma_entry_views;
use crate::value::lemma_views;
use crate::value::views;
use crate::value::BusValue;
use crate::value::BusValueView;
use crate::value::Entries;
use crate::value::EntriesView;
use crate::value::Entry;
use crate::value::EntryView;
use vstd::prelude::*;
use vstd::string::StringExecFns;

verus! {

/// Why a value has no JSON document.
#[derive(Debug, PartialEq, Eq)]
pub enum ConvertError {
    /// Two entries of a mapping have keys with the same text, which this
    /// variant holds.
    KeyCollision(String),
    /// A key of a mapping is a double or a container, and has no text.
    KeyWithoutText,
    /// A mapping could not be read as pairs; the variant holds the
    /// reader's account of why.
    UnreadableMapping(String),
}

/// The mathematical content of a [`ConvertError`].
pub enum ConvertErrorView {
    KeyCollision(Seq<char>),
    KeyWithoutText,
    UnreadableMapping(Seq<char>),
}

impl ConvertError {
    /// The mathematical content of the failure.
    pub open spec fn view(&self) -> ConvertErrorView {
        match self {
            ConvertError::KeyCollision(key) => ConvertErrorView::KeyCollision(key@),
            ConvertError::KeyWithoutText => ConvertErrorView::KeyWithoutText,
            ConvertError::UnreadableMapping(cause) => ConvertErrorView::UnreadableMapping(cause@),
        }
    }
}

/// The account of a failure in words.
pub open spec fn error_text(e: ConvertErrorView) -> Seq<char> {
    match e {
        ConvertErrorView::KeyCollision(key) => "Dict has more than one key that reads: "@ + key,
        ConvertErrorView::KeyWithoutText => "Dict has a key that cannot be written as text"@,
        ConvertErrorView::UnreadableMapping(cause) => "Dict couldn't be read as key/value pairs: "@
            + cause,
    }
}

impl ConvertError {
    /// Writes the account of the failure in words.
    pub fn message(&self) -> (r: String)
        ensures
            r@ == error_text(self@),
    {
        match self {
            ConvertError::KeyCollision(key) => {
                let mut out = String::from_str("Dict has more than one key that reads: ");
                out.append(key.as_str());
                out
            },
            ConvertError::KeyWithoutText => String::from_str(
                "Dict has a key that cannot be written as text",
            ),
            ConvertError::UnreadableMapping(cause) => {
                let mut out = String::from_str("Dict couldn't be read as key/value pairs: ");
                out.append(cause.as_str());
                out
            },
        }
    }
}

/// Whether the bit pattern of a double stands for a finite number: its
/// exponent field is not all ones.
pub open spec fn bits_finite(bits: u64) -> bool {
    (bits >> 52) & 0x7ff != 0x7ff
}

/// The text under which a key of a mapping becomes the key of a JSON
/// object: the decimal numeral of an integer or of a handle's descriptor,
/// `true` or `false` for a boolean, the text itself of a string, an
/// object path or a signature. A variant has the text of what it wraps.
/// A double and a container have none.
pub open spec fn key_text(key: BusValueView) -> Option<Seq<char>>
    decreases key,
{
    match key {
        BusValueView::U8(n) => Some(decimal(n as int)),
        BusValueView::I16(n) => Some(decimal(n as int)),
        BusValueView::U16(n) => Some(decimal(n as int)),
        BusValueView::I32(n) => Some(decimal(n as int)),
        BusValueView::U32(n) => Some(decimal(n as int)),
        BusValueView::I64(n) => Some(decimal(n as int)),
        BusValueView::U64(n) => Some(decimal(n as int)),
        BusValueView::Fd(n) => Some(decimal(n as int)),
        BusValueView::Bool(b) => Some(
            if b {
                "true"@
            } else {
                "false"@
            },
        ),
        BusValueView::Str(s) => Some(s),
        BusValueView::Signature(s) => Some(s),
        BusValueView::ObjectPath(s) => Some(s),
        BusValueView::Variant(inner) => key_text(*inner),
        BusValueView::Double(_) => None,
        BusValueView::Array { .. } => None,
        BusValueView::Dict { .. } => None,
        BusValueView::Structure(_) => None,
    }
}

/// The JSON document of a value, or the reason why it has none.
///
/// Integers and handles become integers, booleans stay booleans, and
/// strings, object paths and signatures become strings. A finite double
/// stays that double; one that is not finite has no JSON number and
/// becomes null. A variant converts as what it wraps. Arrays and
/// structures become arrays of the documents of their items, in order. A
/// mapping becomes an object (see [`convert_entries`]).
pub open spec fn spec_convert(value: BusValueView) -> Result<JsonView, ConvertErrorView>
    decreases value,
{
    match value {
        BusValueView::U8(n) => Ok(JsonView::Integer(n as int)),
        BusValueView::I16(n) => Ok(JsonView::Integer(n as int)),
        BusValueView::U16(n) => Ok(JsonView::Integer(n as int)),
        BusValueView::I32(n) => Ok(JsonView::Integer(n as int)),
        BusValueView::U32(n) => Ok(JsonView::Integer(n as int)),
        BusValueView::I64(n) => Ok(JsonView::Integer(n as int)),
        BusValueView::U64(n) => Ok(JsonView::Integer(n as int)),
        BusValueView::Fd(n) => Ok(JsonView::Integer(n as int)),
        BusValueView::Double(bits) => Ok(
            if bits_finite(bits) {
                JsonView::Double(bits)
            } else {
                JsonView::Null
            },
        ),
        BusValueView::Bool(b) => Ok(JsonView::Bool(b)),
        BusValueView::Str(s) => Ok(JsonView::String(s)),
        BusValueView::Signature(s) => Ok(JsonView::String(s)),
        BusValueView::ObjectPath(s) => Ok(JsonView::String(s)),
        BusValueView::Variant(inner) => spec_convert(*inner),
        BusValueView::Array { items, .. } => match convert_items(items) {
            Ok(documents) => Ok(JsonView::Array(documents)),
            Err(e) => Err(e),
        },
        BusValueView::Structure(fields) => match convert_items(fields) {
            Ok(documents) => Ok(JsonView::Array(documents)),
            Err(e) => Err(e),
        },
        BusValueView::Dict { entries, .. } => match entries {
            EntriesView::Unreadable(cause) => Err(ConvertErrorView::UnreadableMapping(cause)),
            EntriesView::Pairs(pairs) => match convert_entries(pairs) {
                Ok(members) => Ok(JsonView::Object(members)),
                Err(e) => Err(e),
            },
        },
    }
}

/// The documents of a sequence of values, in order, or the failure of the
/// first value that has none.
pub open spec fn convert_items(items: Seq<BusValueView>) -> Result<Seq<JsonView>, ConvertErrorView>
    decreases items,
{
    if items.len() == 0 {
        Ok(Seq::empty())
    } else {
        match convert_items(items.drop_last()) {
            Err(e) => Err(e),
            Ok(documents) => match spec_convert(items.last()) {
                Err(e) => Err(e),
                Ok(document) => Ok(documents.push(document)),
            },
        }
    }
}

/// The members of the object of a mapping: each entry's key, as text (see
/// [`key_text`]), with the document of the entry's value. The entries are
/// taken in order, and the first that fails decides: its key has no
/// text, or its value has no document, or the text of its key is already
/// the key of an earlier entry.
pub open spec fn convert_entries(entries: Seq<EntryView>) -> Result<
    Map<Seq<char>, JsonView>,
    ConvertErrorView,
>
    decreases entries,
{
    if entries.len() == 0 {
        Ok(Map::empty())
    } else {
        match convert_entries(entries.drop_last()) {
            Err(e) => Err(e),
            Ok(members) => match key_text(entries.last().key) {
                None => Err(ConvertErrorView::KeyWithoutText),
                Some(key) => match spec_convert(entries.last().value) {
                    Err(e) => Err(e),
                    Ok(document) => if members.contains_key(key) {
                        Err(ConvertErrorView::KeyCollision(key))
                    } else {
                        Ok(members.insert(key, document))
                    },
                },
            },
        }
    }
}

/// Whether the bit pattern of a double stands for a finite number.
pub fn is_finite(bits: u64) -> (r: bool)
    ensures
        r == bits_finite(bits),
{
    (bits >> 52) & 0x7ff != 0x7ff
}

/// The text of a key of a mapping, if it has one.
pub fn key_string(key: &BusValue) -> (r: Option<String>)
    ensures
        match r {
            Some(text) => key_text(key@) == Some(text@),
            None => key_text(key@) is None,
        },
    decreases key,
{
    match key {
        BusValue::U8(n) => Some(decimal_string(*n as i128)),
        BusValue::I16(n) => Some(decimal_string(*n as i128)),
        BusValue::U16(n) => Some(decimal_string(*n as i128)),
        BusValue::I32(n) => Some(decimal_string(*n as i128)),
        BusValue::U32(n) => Some(decimal_string(*n as i128)),
        BusValue::I64(n) => Some(decimal_string(*n as i128)),
        BusValue::U64(n) => Some(decimal_string(*n as i128)),
        BusValue::Fd(n) => Some(decimal_string(*n as i128)),
        BusValue::Bool(b) => Some(
            if *b {
                String::from_str("true")
            } else {
                String::from_str("false")
            },
        ),
        BusValue::Str(s) => Some(s.clone()),
        BusValue::Signature(s) => Some(s.clone()),
        BusValue::ObjectPath(s) => Some(s.clone()),
        BusValue::Variant(inner) => key_string(inner),
        BusValue::Double(_) => None,
        BusValue::Array { .. } => None,
        BusValue::Dict { .. } => None,
        BusValue::Structure(_) => None,
    }
}

/// Once a front part of a sequence has failed, the sequence fails in the
/// same way.
pub proof fn lemma_convert_items_failed_front(items: Seq<BusValueView>, n: int)
    requires
        0 <= n <= items.len(),
        convert_items(items.take(n)) is Err,
    ensures
        convert_items(items) == convert_items(items.take(n)),
    decreases items.len(),
{
    if n == items.len() {
        assert(items.take(n) =~= items);
    } else {
        assert(items.drop_last().take(n) =~= items.take(n));
        lemma_convert_items_failed_front(items.drop_last(), n);
    }
}

/// Once a front part of the entries of a mapping has failed, the mapping
/// fails in the same way.
pub proof fn lemma_convert_entries_failed_front(entries: Seq<EntryView>, n: int)
    requires
        0 <= n <= entries.len(),
        convert_entries(entries.take(n)) is Err,
    ensures
        convert_entries(entries) == convert_entries(entries.take(n)),
    decreases entries.len(),
{
    if n == entries.len() {
        assert(entries.take(n) =~= entries);
    } else {
        assert(entries.drop_last().take(n) =~= entries.take(n));
        lemma_convert_entries_failed_front(entries.drop_last(), n);
    }
}

/// Converts a value into its JSON document.
///
/// The document is well formed. Only a mapping can fail, or a value that
/// holds one: where two of its keys have the same text, where a key has
/// no text, and where the mapping could not be read.
pub fn convert(value: &BusValue) -> (r: Result<Json, ConvertError>)
    ensures
        spec_convert(value@) == (match r {
            Ok(document) => Ok(document@),
            Err(e) => Err(e@),
        }),
        r matches Ok(document) ==> document.wf(),
    decreases value,
{
    match value {
        BusValue::U8(n) => Ok(Json::Integer(*n as i128)),
        BusValue::I16(n) => Ok(Json::Integer(*n as i128)),
        BusValue::U16(n) => Ok(Json::Integer(*n as i128)),
        BusValue::I32(n) => Ok(Json::Integer(*n as i128)),
        BusValue::U32(n) => Ok(Json::Integer(*n as i128)),
        BusValue::I64(n) => Ok(Json::Integer(*n as i128)),
        BusValue::U64(n) => Ok(Json::Integer(*n as i128)),
        BusValue::Fd(n) => Ok(Json::Integer(*n as i128)),
        BusValue::Double(bits) => {
            if is_finite(*bits) {
                Ok(Json::Double(*bits))
            } else {
                Ok(Json::Null)
            }
        },
        BusValue::Bool(b) => Ok(Json::Bool(*b)),
        BusValue::Str(s) => Ok(Json::String(s.clone())),
        BusValue::Signature(s) => Ok(Json::String(s.clone())),
        BusValue::ObjectPath(s) => Ok(Json::String(s.clone())),
        BusValue::Variant(inner) => convert(inner),
        BusValue::Array { items, .. } => match convert_all(items) {
            Ok(documents) => Ok(Json::Array(documents)),
            Err(e) => Err(e),
        },
        BusValue::Structure(fields) => match convert_all(fields) {
            Ok(documents) => Ok(Json::Array(documents)),
            Err(e) => Err(e),
        },
        BusValue::Dict { entries, .. } => match entries {
            Entries::Unreadable(cause) => Err(ConvertError::UnreadableMapping(cause.clone())),
            Entries::Pairs(pairs) => match convert_members(pairs) {
                Ok(members) => Ok(Json::Object(members)),
                Err(e) => Err(e),
            },
        },
    }
}

/// Converts the values of a sequence, in order, and stops at the first
/// that has no document.
pub fn convert_all(items: &Vec<BusValue>) -> (r: Result<Vec<Json>, ConvertError>)
    ensures
        convert_items(views(items@)) == (match r {
            Ok(documents) => Ok(json_views(documents@)),
            Err(e) => Err(e@),
        }),
        r matches Ok(documents) ==> forall|i: int|
            0 <= i < documents@.len() ==> (#[trigger] documents@[i]).wf(),
    decreases items,
{
    let mut documents: Vec<Json> = Vec::new();
    let mut i: usize = 0;
    proof {
        lemma_views(items@);
        assert(views(items@).take(0) =~= Seq::empty());
    }
    while i < items.len()
        invariant
            i <= items@.len(),
            views(items@).len() == items@.len(),
            forall|k: int| 0 <= k < items@.len() ==> (#[trigger] views(items@)[k]) == items@[k].view(),
            forall|k: int| 0 <= k < documents@.len() ==> (#[trigger] documents@[k]).wf(),
            convert_items(views(items@).take(i as int)) == Ok::<Seq<JsonView>, ConvertErrorView>(
                json_views(documents@),
            ),
        decreases items@.len() - i,
    {
        let ghost front = views(items@).take(i as int);
        let ghost next = views(items@).take(i + 1);
        proof {
            assert(next.drop_last() =~= front);
            assert(next.last() == items@[i as int].view());
        }
        match convert(&items[i]) {
            Err(e) => {
                proof {
                    lemma_convert_items_failed_front(views(items@), i + 1);
                }
                return Err(e);
            },
            Ok(document) => {
                let ghost before = documents@;
                documents.push(document);
                proof {
                    assert(documents@.drop_last() =~= before);
                }
            },
        }
        i += 1;
    }
    proof {
        assert(views(items@).take(i as int) =~= views(items@));
    }
    Ok(documents)
}

/// Converts the entries of a mapping into the members of an object, kept
/// in the order of their keys, and stops at the first entry that fails.
pub fn convert_members(entries: &Vec<Entry>) -> (r: Result<Vec<Member>, ConvertError>)
    ensures
        convert_entries(entry_views(entries@)) == (match r {
            Ok(members) => Ok(members_view(members@)),
            Err(e) => Err(e@),
        }),
        r matches Ok(members) ==> {
            &&& keys_ascend(members@)
            &&& forall|i: int| 0 <= i < members@.len() ==> (#[trigger] members@[i]).value.wf()
        },
    decreases entries,
{
    let mut members: Vec<Member> = Vec::new();
    let mut i: usize = 0;
    proof {
        lemma_entry_views(entries@);
        assert(entry_views(entries@).take(0) =~= Seq::empty());
    }
    while i < entries.len()
        invariant
            i <= entries@.len(),
            entry_views(entries@).len() == entries@.len(),
            forall|k: int|
                0 <= k < entries@.len() ==> (#[trigger] entry_views(entries@)[k]) == (EntryView {
                    key: entries@[k].key.view(),
                    value: entries@[k].value.view(),
                }),
            keys_ascend(members@),
            forall|k: int| 0 <= k < members@.len() ==> (#[trigger] members@[k]).value.wf(),
            convert_entries(entry_views(entries@).take(i as int)) == Ok::<
                Map<Seq<char>, JsonView>,
                ConvertErrorView,
            >(members_view(members@)),
        decreases entries@.len() - i,
    {
        let ghost front = entry_views(entries@).take(i as int);
        let ghost next = entry_views(entries@).take(i + 1);
        proof {
            assert(next.drop_last() =~= front);
            assert(next.last().key == entries@[i as int].key.view());
            assert(next.last().value == entries@[i as int].value.view());
        }
        let entry = &entries[i];
        let key = match key_string(&entry.key) {
            Some(key) => key,
            None => {
                proof {
                    lemma_convert_entries_failed_front(entry_views(entries@), i + 1);
                }
                return Err(ConvertError::KeyWithoutText);
            },
        };
        let document = match convert(&entry.value) {
            Ok(document) => document,
            Err(e) => {
                proof {
                    lemma_convert_entries_failed_front(entry_views(entries@), i + 1);
                }
                return Err(e);
            },
        };
        let ghost before = members@;
        match insert_member(&mut members, Member { key, value: document }) {
            Ok(_) => {
                proof {
                    lemma_members_view_keys(before, key@);
                }
            },
            Err(back) => {
                proof {
                    lemma_members_view_keys(before, key@);
                    lemma_convert_entries_failed_front(entry_views(entries@), i + 1);
                }
                return Err(ConvertError::KeyCollision(back.key));
            },
        }
        i += 1;
    }
    proof {
        assert(entry_views(entries@).take(i as int) =~= entry_views(entries@));
    }
    Ok(members)
}

} // verus!
