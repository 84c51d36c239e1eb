//! The values that a bus message carries.

use vstd::prelude::*;

verus! {

/// A value read off the bus: a closed set of cases, each with its payload.
///
/// A double is held by its IEEE-754 bit pattern. An array and a mapping
/// carry the type signatures of their items, which are part of what was
/// read: an empty container has a type nevertheless.
#[derive(Debug, PartialEq, Eq)]
pub enum BusValue {
    U8(u8),
    Bool(bool),
    I16(i16),
    U16(u16),
    I32(i32),
    U32(u32),
    I64(i64),
    U64(u64),
    Double(u64),
    Str(String),
    Signature(String),
    ObjectPath(String),
    /// A value whose type is only known one level down.
    Variant(Box<BusValue>),
    Array { element_signature: String, items: Vec<BusValue> },
    Dict { key_signature: String, value_signature: String, entries: Entries },
    Structure(Vec<BusValue>),
    /// A resource handle, by the number of its descriptor.
    Fd(i32),
}

/// One key of a mapping with the value it maps to.
#[derive(Debug, PartialEq, Eq)]
pub struct Entry {
    pub key: BusValue,
    pub value: BusValue,
}

/// What was read of a mapping's contents.
#[derive(Debug, PartialEq, Eq)]
pub enum Entries {
    /// The entries, in the order in which they were read.
    Pairs(Vec<Entry>),
    /// The mapping could not be read as pairs; the field holds the
    /// reader's account of why.
    Unreadable(String),
}

/// The mathematical content of a [`BusValue`].
pub enum BusValueView {
    U8(u8),
    Bool(bool),
    I16(i16),
    U16(u16),
    I32(i32),
    U32(u32),
    I64(i64),
    U64(u64),
    Double(u64),
    Str(Seq<char>),
    Signature(Seq<char>),
    ObjectPath(Seq<char>),
    Variant(Box<BusValueView>),
    Array { element_signature: Seq<char>, items: Seq<BusValueView> },
    Dict {
        key_signature: Seq<char>,
        value_signature: Seq<char>,
        entries: EntriesView,
    },
    Structure(Seq<BusValueView>),
    Fd(i32),
}

/// The mathematical content of an [`Entry`].
pub struct EntryView {
    pub key: BusValueView,
    pub value: BusValueView,
}

/// The mathematical content of [`Entries`].
pub enum EntriesView {
    Pairs(Seq<EntryView>),
    Unreadable(Seq<char>),
}

/// The views of a sequence of values, in order.
pub open spec fn views(items: Seq<BusValue>) -> Seq<BusValueView>
    decreases items,
{
    if items.len() == 0 {
        Seq::empty()
    } else {
        views(items.drop_last()).push(items.last().view())
    }
}

/// The views of the entries of a mapping, in order.
pub open spec fn entry_views(entries: Seq<Entry>) -> Seq<EntryView>
    decreases entries,
{
    if entries.len() == 0 {
        Seq::empty()
    } else {
        entry_views(entries.drop_last()).push(
            EntryView { key: entries.last().key.view(), value: entries.last().value.view() },
        )
    }
}

impl BusValue {
    /// The mathematical content of the value.
    pub open spec fn view(&self) -> BusValueView
        decreases self,
    {
        match self {
            BusValue::U8(n) => BusValueView::U8(*n),
            BusValue::Bool(b) => BusValueView::Bool(*b),
            BusValue::I16(n) => BusValueView::I16(*n),
            BusValue::U16(n) => BusValueView::U16(*n),
            BusValue::I32(n) => BusValueView::I32(*n),
            BusValue::U32(n) => BusValueView::U32(*n),
            BusValue::I64(n) => BusValueView::I64(*n),
            BusValue::U64(n) => BusValueView::U64(*n),
            BusValue::Double(bits) => BusValueView::Double(*bits),
            BusValue::Str(s) => BusValueView::Str(s@),
            BusValue::Signature(s) => BusValueView::Signature(s@),
            BusValue::ObjectPath(s) => BusValueView::ObjectPath(s@),
            BusValue::Variant(inner) => BusValueView::Variant(Box::new((**inner).view())),
            BusValue::Array { element_signature, items } => BusValueView::Array {
                element_signature: element_signature@,
                items: views(items@),
            },
            BusValue::Dict { key_signature, value_signature, entries } => BusValueView::Dict {
                key_signature: key_signature@,
                value_signature: value_signature@,
                entries: match entries {
                    Entries::Pairs(pairs) => EntriesView::Pairs(entry_views(pairs@)),
                    Entries::Unreadable(cause) => EntriesView::Unreadable(cause@),
                },
            },
            BusValue::Structure(fields) => BusValueView::Structure(views(fields@)),
            BusValue::Fd(n) => BusValueView::Fd(*n),
        }
    }
}

/// The views of a sequence of values stand at the places of the values.
pub proof fn lemma_views(items: Seq<BusValue>)
    ensures
        views(items).len() == items.len(),
        forall|i: int| 0 <= i < items.len() ==> (#[trigger] views(items)[i]) == items[i].view(),
    decreases items.len(),
{
    if items.len() > 0 {
        lemma_views(items.drop_last());
    }
}

/// The views of the entries of a mapping stand at the places of the
/// entries.
pub proof fn lemma_entry_views(entries: Seq<Entry>)
    ensures
        entry_views(entries).len() == entries.len(),
        forall|i: int|
            0 <= i < entries.len() ==> (#[trigger] entry_views(entries)[i]) == (EntryView {
                key: entries[i].key.view(),
                value: entries[i].value.view(),
            }),
    decreases entries.len(),
{
    if entries.len() > 0 {
        lemma_entry_views(entries.drop_last());
    }
}

} // verus!
