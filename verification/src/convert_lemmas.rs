//! What holds of the conversion, for every value.

use crate::convert::convert_entries;
use crate::convert::convert_items;
use crate::convert::key_text;
use crate::convert::lemma_convert_entries_failed_front;
use crate::convert::lemma_convert_items_failed_front;
use crate::convert::spec_convert;
use crate::convert::ConvertErrorView;
use crate::json::JsonView;
use crate::text::lemma_decimal_injective;
use crate::value::BusValue;
use crate::value::BusValueView;
use crate::value::EntriesView;
use crate::value::EntryView;
use vstd::prelude::*;

verus! {

/// Where every value of a sequence has a document, the sequence has the
/// documents of its values, each at the place of its value.
pub proof fn lemma_convert_items_each(items: Seq<BusValueView>)
    requires
        forall|i: int| 0 <= i < items.len() ==> (#[trigger] spec_convert(items[i])) is Ok,
    ensures
        convert_items(items) is Ok,
        convert_items(items)->Ok_0.len() == items.len(),
        forall|i: int|
            0 <= i < items.len() ==> #[trigger] spec_convert(items[i]) == Ok::<
                JsonView,
                ConvertErrorView,
            >(convert_items(items)->Ok_0[i]),
    decreases items.len(),
{
    if items.len() > 0 {
        let front = items.drop_last();
        assert forall|i: int| 0 <= i < front.len() implies (#[trigger] spec_convert(front[i])) is Ok by {
            assert(front[i] == items[i]);
        }
        lemma_convert_items_each(front);
        assert(spec_convert(items[items.len() - 1]) is Ok);
        assert forall|i: int| 0 <= i < items.len() implies #[trigger] spec_convert(items[i]) == Ok::<
            JsonView,
            ConvertErrorView,
        >(convert_items(items)->Ok_0[i]) by {
            if i < front.len() {
                assert(front[i] == items[i]);
            }
        }
    }
}

/// Where a sequence has documents, every value of it has one.
pub proof fn lemma_convert_items_all(items: Seq<BusValueView>)
    requires
        convert_items(items) is Ok,
    ensures
        forall|i: int| 0 <= i < items.len() ==> (#[trigger] spec_convert(items[i])) is Ok,
    decreases items.len(),
{
    if items.len() > 0 {
        let front = items.drop_last();
        lemma_convert_items_all(front);
        assert forall|i: int| 0 <= i < items.len() implies (#[trigger] spec_convert(items[i])) is Ok by {
            if i < front.len() {
                assert(front[i] == items[i]);
                assert(spec_convert(front[i]) is Ok);
            } else {
                assert(items[i] == items.last());
            }
        }
    }
}

/// Where a value of a sequence has no document and every value before it
/// has one, the sequence fails as that value does.
pub proof fn lemma_convert_items_first_failure(items: Seq<BusValueView>, n: int)
    requires
        0 <= n < items.len(),
        forall|i: int| 0 <= i < n ==> (#[trigger] spec_convert(items[i])) is Ok,
        spec_convert(items[n]) is Err,
    ensures
        convert_items(items) == Err::<Seq<JsonView>, ConvertErrorView>(spec_convert(items[n])->Err_0),
{
    let front = items.take(n);
    assert forall|i: int| 0 <= i < front.len() implies (#[trigger] spec_convert(front[i])) is Ok by {
        assert(front[i] == items[i]);
    }
    lemma_convert_items_each(front);
    let upto = items.take(n + 1);
    assert(upto.drop_last() =~= front);
    assert(upto.last() == items[n]);
    lemma_convert_items_failed_front(items, n + 1);
}

/// A structure becomes an array that has, at the place of each field, the
/// document of that field, whatever the types of the fields, provided
/// that every field has a document.
pub proof fn lemma_structure_keeps_positions(fields: Seq<BusValueView>)
    requires
        forall|i: int| 0 <= i < fields.len() ==> (#[trigger] spec_convert(fields[i])) is Ok,
    ensures
        spec_convert(BusValueView::Structure(fields)) matches Ok(JsonView::Array(documents)) && {
            &&& documents.len() == fields.len()
            &&& forall|i: int|
                0 <= i < fields.len() ==> #[trigger] spec_convert(fields[i]) == Ok::<
                    JsonView,
                    ConvertErrorView,
                >(documents[i])
        },
{
    lemma_convert_items_each(fields);
}

/// An array becomes an array of the same length that has the documents of
/// the items in the order of the items, provided that every item has a
/// document.
pub proof fn lemma_array_keeps_order(element_signature: Seq<char>, items: Seq<BusValueView>)
    requires
        forall|i: int| 0 <= i < items.len() ==> (#[trigger] spec_convert(items[i])) is Ok,
    ensures
        spec_convert(BusValueView::Array { element_signature, items }) matches Ok(
            JsonView::Array(documents),
        ) && {
            &&& documents.len() == items.len()
            &&& forall|i: int|
                0 <= i < items.len() ==> #[trigger] spec_convert(items[i]) == Ok::<
                    JsonView,
                    ConvertErrorView,
                >(documents[i])
        },
{
    lemma_convert_items_each(items);
}

/// A variant is invisible: it has the document of the value it wraps, and
/// fails where that value fails.
pub proof fn lemma_variant_is_transparent(inner: BusValueView)
    ensures
        spec_convert(BusValueView::Variant(Box::new(inner))) == spec_convert(inner),
{
}

/// Values with the same content have the same document, or fail in the
/// same way: the conversion depends on nothing but the value.
pub proof fn lemma_convert_is_a_function(a: BusValue, b: BusValue)
    requires
        a@ == b@,
    ensures
        spec_convert(a@) == spec_convert(b@),
{
}

/// The members of a converted mapping have the texts of the keys of its
/// entries as their keys.
pub proof fn lemma_convert_entries_keys(entries: Seq<EntryView>, i: int)
    requires
        0 <= i < entries.len(),
        convert_entries(entries) is Ok,
    ensures
        key_text(entries[i].key) is Some,
        convert_entries(entries)->Ok_0.contains_key(key_text(entries[i].key)->Some_0),
    decreases entries.len(),
{
    if i < entries.len() - 1 {
        let front = entries.drop_last();
        assert(front[i] == entries[i]);
        lemma_convert_entries_keys(front, i);
    }
}

/// A mapping in which two entries have keys with the same text has no
/// document: neither entry is dropped in silence.
pub proof fn lemma_colliding_keys_fail(entries: Seq<EntryView>, i: int, j: int)
    requires
        0 <= i < j < entries.len(),
        key_text(entries[i].key) is Some,
        key_text(entries[i].key) == key_text(entries[j].key),
    ensures
        convert_entries(entries) is Err,
{
    let upto = entries.take(j + 1);
    let front = entries.take(j);
    assert(upto.drop_last() =~= front);
    assert(upto.last() == entries[j]);
    if convert_entries(front) is Ok {
        assert(front[i] == entries[i]);
        lemma_convert_entries_keys(front, i);
    }
    assert(convert_entries(upto) is Err);
    lemma_convert_entries_failed_front(entries, j + 1);
}

/// Where every key of a mapping has a text and every value a document,
/// the mapping can only fail by a collision of keys.
pub proof fn lemma_only_collisions_fail(entries: Seq<EntryView>)
    requires
        forall|i: int| 0 <= i < entries.len() ==> key_text(#[trigger] entries[i].key) is Some,
        forall|i: int| 0 <= i < entries.len() ==> spec_convert(#[trigger] entries[i].value) is Ok,
    ensures
        convert_entries(entries) is Err ==> convert_entries(entries)->Err_0 is KeyCollision,
    decreases entries.len(),
{
    if entries.len() > 0 {
        let front = entries.drop_last();
        assert forall|i: int| 0 <= i < front.len() implies key_text(#[trigger] front[i].key) is Some by {
            assert(front[i] == entries[i]);
        }
        assert forall|i: int| 0 <= i < front.len() implies spec_convert(
            #[trigger] front[i].value,
        ) is Ok by {
            assert(front[i] == entries[i]);
        }
        lemma_only_collisions_fail(front);
        assert(key_text(entries[entries.len() - 1].key) is Some);
        assert(spec_convert(entries[entries.len() - 1].value) is Ok);
    }
}

/// A mapping in which two entries have keys with the same text, every key
/// has a text and every value a document, fails with a collision of keys.
pub proof fn lemma_collision_is_reported(
    key_signature: Seq<char>,
    value_signature: Seq<char>,
    entries: Seq<EntryView>,
    i: int,
    j: int,
)
    requires
        0 <= i < j < entries.len(),
        key_text(entries[i].key) == key_text(entries[j].key),
        forall|k: int| 0 <= k < entries.len() ==> key_text(#[trigger] entries[k].key) is Some,
        forall|k: int| 0 <= k < entries.len() ==> spec_convert(#[trigger] entries[k].value) is Ok,
    ensures
        spec_convert(
            BusValueView::Dict { key_signature, value_signature, entries: EntriesView::Pairs(entries) },
        ) matches Err(ConvertErrorView::KeyCollision(_)),
{
    lemma_colliding_keys_fail(entries, i, j);
    lemma_only_collisions_fail(entries);
}

/// Whether the entries of a mapping can all be taken into one object:
/// every key has a text, no two keys have the same text, and every value
/// has a document.
pub open spec fn entries_fit(entries: Seq<EntryView>) -> bool {
    &&& forall|i: int| 0 <= i < entries.len() ==> key_text(#[trigger] entries[i].key) is Some
    &&& forall|i: int| 0 <= i < entries.len() ==> spec_convert(#[trigger] entries[i].value) is Ok
    &&& forall|i: int, j: int|
        0 <= i < j < entries.len() ==> key_text(#[trigger] entries[i].key) != key_text(
            #[trigger] entries[j].key,
        )
}

/// Where the entries of a mapping fit into one object, the mapping has
/// an object with one member for each entry: the text of the entry's key
/// with the document of the entry's value. No entry is dropped.
pub proof fn lemma_convert_entries_each(entries: Seq<EntryView>)
    requires
        entries_fit(entries),
    ensures
        convert_entries(entries) is Ok,
        forall|key: Seq<char>| #[trigger]
            convert_entries(entries)->Ok_0.contains_key(key) <==> exists|i: int|
                0 <= i < entries.len() && key_text(#[trigger] entries[i].key) == Some(key),
        forall|i: int|
            0 <= i < entries.len() ==> spec_convert(#[trigger] entries[i].value) == Ok::<
                JsonView,
                ConvertErrorView,
            >(convert_entries(entries)->Ok_0[key_text(entries[i].key)->Some_0]),
    decreases entries.len(),
{
    if entries.len() > 0 {
        let front = entries.drop_last();
        let last = entries.last();
        assert(last == entries[entries.len() - 1]);
        assert forall|i: int| 0 <= i < front.len() implies key_text(#[trigger] front[i].key) is Some by {
            assert(front[i] == entries[i]);
        }
        assert forall|i: int| 0 <= i < front.len() implies spec_convert(
            #[trigger] front[i].value,
        ) is Ok by {
            assert(front[i] == entries[i]);
        }
        assert forall|i: int, j: int| 0 <= i < j < front.len() implies key_text(
            #[trigger] front[i].key,
        ) != key_text(#[trigger] front[j].key) by {
            assert(front[i] == entries[i]);
            assert(front[j] == entries[j]);
        }
        lemma_convert_entries_each(front);
        let members = convert_entries(front)->Ok_0;
        let key = key_text(last.key)->Some_0;
        assert(key_text(entries[entries.len() - 1].key) is Some);
        assert(spec_convert(entries[entries.len() - 1].value) is Ok);
        assert(!members.contains_key(key)) by {
            if members.contains_key(key) {
                let i = choose|i: int|
                    0 <= i < front.len() && key_text(#[trigger] front[i].key) == Some(key);
                assert(front[i] == entries[i]);
                assert(key_text(entries[i].key) != key_text(entries[entries.len() - 1].key));
            }
        }
        let all = convert_entries(entries)->Ok_0;
        assert(all == members.insert(key, spec_convert(last.value)->Ok_0));
        assert forall|k: Seq<char>| #[trigger] all.contains_key(k) <==> exists|i: int|
            0 <= i < entries.len() && key_text(#[trigger] entries[i].key) == Some(k) by {
            if all.contains_key(k) {
                if k == key {
                    assert(key_text(entries[entries.len() - 1].key) == Some(k));
                } else {
                    assert(members.contains_key(k));
                    let i = choose|i: int|
                        0 <= i < front.len() && key_text(#[trigger] front[i].key) == Some(k);
                    assert(front[i] == entries[i]);
                    assert(key_text(entries[i].key) == Some(k));
                }
            }
            if exists|i: int| 0 <= i < entries.len() && key_text(#[trigger] entries[i].key) == Some(k) {
                let i = choose|i: int|
                    0 <= i < entries.len() && key_text(#[trigger] entries[i].key) == Some(k);
                if i < front.len() {
                    assert(front[i] == entries[i]);
                    assert(key_text(front[i].key) == Some(k));
                    assert(members.contains_key(k));
                }
            }
        }
        assert forall|i: int| 0 <= i < entries.len() implies spec_convert(
            #[trigger] entries[i].value,
        ) == Ok::<JsonView, ConvertErrorView>(all[key_text(entries[i].key)->Some_0]) by {
            if i < front.len() {
                assert(front[i] == entries[i]);
                assert(key_text(entries[i].key) != key_text(entries[entries.len() - 1].key));
                assert(spec_convert(front[i].value) == Ok::<JsonView, ConvertErrorView>(
                    members[key_text(front[i].key)->Some_0],
                ));
            }
        }
    }
}

/// Whether two values are of one and the same simple type: integers of
/// one width and sign, handles, booleans, strings, object paths or
/// signatures.
pub open spec fn of_one_simple_type(a: BusValueView, b: BusValueView) -> bool {
    match (a, b) {
        (BusValueView::U8(_), BusValueView::U8(_)) => true,
        (BusValueView::I16(_), BusValueView::I16(_)) => true,
        (BusValueView::U16(_), BusValueView::U16(_)) => true,
        (BusValueView::I32(_), BusValueView::I32(_)) => true,
        (BusValueView::U32(_), BusValueView::U32(_)) => true,
        (BusValueView::I64(_), BusValueView::I64(_)) => true,
        (BusValueView::U64(_), BusValueView::U64(_)) => true,
        (BusValueView::Fd(_), BusValueView::Fd(_)) => true,
        (BusValueView::Bool(_), BusValueView::Bool(_)) => true,
        (BusValueView::Str(_), BusValueView::Str(_)) => true,
        (BusValueView::ObjectPath(_), BusValueView::ObjectPath(_)) => true,
        (BusValueView::Signature(_), BusValueView::Signature(_)) => true,
        _ => false,
    }
}

/// The text of a key tells the keys of one simple type apart: two such
/// keys with the same text are the same key. So keys collide only where
/// they are of different types, as the integer 1 and the string `1`, or
/// where one key occurs twice.
pub proof fn lemma_key_text_tells_apart(a: BusValueView, b: BusValueView)
    requires
        of_one_simple_type(a, b),
        key_text(a) == key_text(b),
    ensures
        a == b,
{
    match (a, b) {
        (BusValueView::U8(x), BusValueView::U8(y)) => lemma_decimal_injective(x as int, y as int),
        (BusValueView::I16(x), BusValueView::I16(y)) => lemma_decimal_injective(x as int, y as int),
        (BusValueView::U16(x), BusValueView::U16(y)) => lemma_decimal_injective(x as int, y as int),
        (BusValueView::I32(x), BusValueView::I32(y)) => lemma_decimal_injective(x as int, y as int),
        (BusValueView::U32(x), BusValueView::U32(y)) => lemma_decimal_injective(x as int, y as int),
        (BusValueView::I64(x), BusValueView::I64(y)) => lemma_decimal_injective(x as int, y as int),
        (BusValueView::U64(x), BusValueView::U64(y)) => lemma_decimal_injective(x as int, y as int),
        (BusValueView::Fd(x), BusValueView::Fd(y)) => lemma_decimal_injective(x as int, y as int),
        (BusValueView::Bool(_), BusValueView::Bool(_)) => {
            reveal_strlit("true");
            reveal_strlit("false");
            assert("true"@.len() != "false"@.len());
        },
        _ => {},
    }
}

/// Whether a value holds no mapping, at any depth.
pub open spec fn mapping_free(value: BusValueView) -> bool
    decreases value,
{
    match value {
        BusValueView::Dict { .. } => false,
        BusValueView::Variant(inner) => mapping_free(*inner),
        BusValueView::Array { items, .. } => forall|i: int|
            0 <= i < items.len() ==> mapping_free(#[trigger] items[i]),
        BusValueView::Structure(fields) => forall|i: int|
            0 <= i < fields.len() ==> mapping_free(#[trigger] fields[i]),
        _ => true,
    }
}

/// Only mappings fail: a value that holds no mapping has a document.
pub proof fn lemma_only_mappings_fail(value: BusValueView)
    requires
        mapping_free(value),
    ensures
        spec_convert(value) is Ok,
    decreases value,
{
    match value {
        BusValueView::Variant(inner) => {
            lemma_only_mappings_fail(*inner);
        },
        BusValueView::Array { items, .. } => {
            assert forall|i: int| 0 <= i < items.len() implies (#[trigger] spec_convert(items[i])) is Ok by {
                lemma_only_mappings_fail(items[i]);
            }
            lemma_convert_items_each(items);
        },
        BusValueView::Structure(fields) => {
            assert forall|i: int| 0 <= i < fields.len() implies (#[trigger] spec_convert(
                fields[i],
            )) is Ok by {
                lemma_only_mappings_fail(fields[i]);
            }
            lemma_convert_items_each(fields);
        },
        _ => {},
    }
}

/// The order of the entries of a mapping does not show in its object:
/// two mappings with the same entries, in whatever order, have the same
/// object.
pub proof fn lemma_entry_order_is_irrelevant(a: Seq<EntryView>, b: Seq<EntryView>)
    requires
        entries_fit(a),
        entries_fit(b),
        forall|i: int| 0 <= i < a.len() ==> b.contains(#[trigger] a[i]),
        forall|j: int| 0 <= j < b.len() ==> a.contains(#[trigger] b[j]),
    ensures
        convert_entries(a) is Ok,
        convert_entries(a) == convert_entries(b),
{
    lemma_convert_entries_each(a);
    lemma_convert_entries_each(b);
    let x = convert_entries(a)->Ok_0;
    let y = convert_entries(b)->Ok_0;
    assert forall|key: Seq<char>| x.contains_key(key) implies y.contains_key(key) && x[key]
        == y[key] by {
        let i = choose|i: int| 0 <= i < a.len() && key_text(#[trigger] a[i].key) == Some(key);
        assert(b.contains(a[i]));
        let j = choose|j: int| 0 <= j < b.len() && b[j] == a[i];
        assert(key_text(b[j].key) == Some(key));
        assert(spec_convert(a[i].value) == Ok::<JsonView, ConvertErrorView>(x[key]));
        assert(spec_convert(b[j].value) == Ok::<JsonView, ConvertErrorView>(y[key]));
    }
    assert forall|key: Seq<char>| y.contains_key(key) implies x.contains_key(key) by {
        let j = choose|j: int| 0 <= j < b.len() && key_text(#[trigger] b[j].key) == Some(key);
        assert(a.contains(b[j]));
        let i = choose|i: int| 0 <= i < a.len() && a[i] == b[j];
        assert(key_text(a[i].key) == Some(key));
    }
    assert(x =~= y);
}

} // verus!
