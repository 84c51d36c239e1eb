//! Type signatures: the text that tells the type of a value.

use crate::json::Json;
use crate::json::JsonView;
use crate::value::lemma_views;
use crate::value::views;
use crate::value::BusValue;
use crate::value::BusValueView;
use vstd::prelude::*;
use vstd::string::StringExecFns;

verus! {

/// The type signature of a value.
///
/// Each simple type has a letter of its own. The signature of an array
/// is `a` before the signature of its items; that of a mapping is `a{`,
/// the signatures of its keys and of its values, and `}`; that of a
/// structure is the signatures of its fields in order, in round brackets.
/// A variant is `v`, whatever it wraps.
pub open spec fn signature_text(value: BusValueView) -> Seq<char>
    decreases value,
{
    match value {
        BusValueView::U8(_) => "y"@,
        BusValueView::Bool(_) => "b"@,
        BusValueView::I16(_) => "n"@,
        BusValueView::U16(_) => "q"@,
        BusValueView::I32(_) => "i"@,
        BusValueView::U32(_) => "u"@,
        BusValueView::I64(_) => "x"@,
        BusValueView::U64(_) => "t"@,
        BusValueView::Double(_) => "d"@,
        BusValueView::Str(_) => "s"@,
        BusValueView::Signature(_) => "g"@,
        BusValueView::ObjectPath(_) => "o"@,
        BusValueView::Variant(_) => "v"@,
        BusValueView::Fd(_) => "h"@,
        BusValueView::Array { element_signature, .. } => "a"@ + element_signature,
        BusValueView::Dict { key_signature, value_signature, .. } => mapping_signature(
            key_signature,
            value_signature,
        ),
        BusValueView::Structure(fields) => "("@ + signatures_text(fields) + ")"@,
    }
}

/// The signature of a mapping whose keys and values have the given
/// signatures.
pub open spec fn mapping_signature(key: Seq<char>, value: Seq<char>) -> Seq<char> {
    "a{"@ + key + value + "}"@
}

/// The signatures of a sequence of values, one after the other.
pub open spec fn signatures_text(items: Seq<BusValueView>) -> Seq<char>
    decreases items,
{
    if items.len() == 0 {
        Seq::empty()
    } else {
        signatures_text(items.drop_last()) + signature_text(items.last())
    }
}

/// Writes the type signature of a value.
pub fn signature_string(value: &BusValue) -> (r: String)
    ensures
        r@ == signature_text(value@),
    decreases value,
{
    match value {
        BusValue::U8(_) => String::from_str("y"),
        BusValue::Bool(_) => String::from_str("b"),
        BusValue::I16(_) => String::from_str("n"),
        BusValue::U16(_) => String::from_str("q"),
        BusValue::I32(_) => String::from_str("i"),
        BusValue::U32(_) => String::from_str("u"),
        BusValue::I64(_) => String::from_str("x"),
        BusValue::U64(_) => String::from_str("t"),
        BusValue::Double(_) => String::from_str("d"),
        BusValue::Str(_) => String::from_str("s"),
        BusValue::Signature(_) => String::from_str("g"),
        BusValue::ObjectPath(_) => String::from_str("o"),
        BusValue::Variant(_) => String::from_str("v"),
        BusValue::Fd(_) => String::from_str("h"),
        BusValue::Array { element_signature, .. } => {
            let mut out = String::from_str("a");
            out.append(element_signature.as_str());
            out
        },
        BusValue::Dict { key_signature, value_signature, .. } => {
            let mut out = String::from_str("a{");
            out.append(key_signature.as_str());
            out.append(value_signature.as_str());
            out.append("}");
            out
        },
        BusValue::Structure(fields) => structure_signature(fields),
    }
}

/// Writes the type signature of the structure that has the given fields.
pub fn structure_signature(fields: &Vec<BusValue>) -> (r: String)
    ensures
        r@ == signature_text(BusValueView::Structure(views(fields@))),
    decreases fields,
{
    let mut out = String::from_str("(");
    let mut i: usize = 0;
    proof {
        lemma_views(fields@);
        assert(views(fields@).take(0) =~= Seq::empty());
        assert(out@ =~= "("@ + signatures_text(views(fields@).take(0)));
    }
    while i < fields.len()
        invariant
            i <= fields@.len(),
            views(fields@).len() == fields@.len(),
            forall|k: int| 0 <= k < fields@.len() ==> (#[trigger] views(fields@)[k]) == fields@[k].view(),
            out@ == "("@ + signatures_text(views(fields@).take(i as int)),
        decreases fields@.len() - i,
    {
        let one = signature_string(&fields[i]);
        out.append(one.as_str());
        proof {
            let next = views(fields@).take(i + 1);
            assert(next.drop_last() =~= views(fields@).take(i as int));
            assert(next.last() == fields@[i as int].view());
            assert(out@ =~= "("@ + signatures_text(next));
        }
        i += 1;
    }
    proof {
        assert(views(fields@).take(i as int) =~= views(fields@));
    }
    out.append(")");
    out
}

/// The type signature of a value as a JSON document: a string that holds
/// the signature.
pub fn signature_of(value: &BusValue) -> (r: Json)
    ensures
        r@ == JsonView::String(signature_text(value@)),
        r.wf(),
{
    Json::String(signature_string(value))
}

/// Splits the signature of a mapping into the signature of its keys,
/// which is one letter, and the signature of its values. A text that is
/// not the signature of a mapping with a key of one letter has no such
/// parts.
pub fn split_mapping_signature(signature: &str) -> (r: Option<(String, String)>)
    ensures
        r matches Some((key, value)) ==> key@.len() == 1 && mapping_signature(key@, value@)
            == signature@,
        r is None ==> forall|key: Seq<char>, value: Seq<char>|
            key.len() == 1 ==> #[trigger] mapping_signature(key, value) != signature@,
{
    proof {
        reveal_strlit("a{");
        reveal_strlit("}");
    }
    let length = signature.unicode_len();
    if length >= 4 && signature.get_char(0) == 'a' && signature.get_char(1) == '{'
        && signature.get_char(length - 1) == '}' {
        let key = signature.substring_char(2, 3);
        let value = signature.substring_char(3, length - 1);
        proof {
            assert(mapping_signature(key@, value@) =~= signature@);
        }
        Some((String::from_str(key), String::from_str(value)))
    } else {
        proof {
            assert forall|key: Seq<char>, value: Seq<char>| key.len() == 1 implies #[trigger] mapping_signature(
                key,
                value,
            ) != signature@ by {
                let whole = mapping_signature(key, value);
                assert(whole.len() == 4 + value.len());
                assert(whole[0] == 'a');
                assert(whole[1] == '{');
                assert(whole[whole.len() - 1] == '}');
            }
        }
        None
    }
}

} // verus!
