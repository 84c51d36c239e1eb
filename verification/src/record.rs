//! The record that is made of each signal.

use crate::convert::convert;
use crate::convert::spec_convert;
use crate::convert::ConvertError;
use crate::convert::ConvertErrorView;
use crate::convert_lemmas::lemma_convert_items_all;
use crate::convert_lemmas::lemma_convert_items_each;
use crate::json::has_key;
use crate::json::insert_member;
use crate::json::keys_ascend;
use crate::json::Json;
use crate::json::JsonView;
use crate::json::Member;
use crate::signature::signature_of;
use crate::signature::signature_text;
use crate::value::views;
use crate::value::BusValue;
use crate::value::BusValueView;
use vstd::prelude::*;
use vstd::string::StringExecFns;

verus! {

/// What is reported of one signal: the name of its member, its arguments
/// as a JSON array, and the type signature of the arguments.
#[derive(Debug, PartialEq, Eq)]
pub struct Record {
    pub signal: String,
    pub data: Json,
    pub signature: Json,
}

/// The mathematical content of a [`Record`].
pub struct RecordView {
    pub signal: Seq<char>,
    pub data: JsonView,
    pub signature: JsonView,
}

/// The record of a signal with the given member name and arguments.
///
/// The arguments are taken together as one structure. `data` is the
/// document of that structure, an array with one item for each argument,
/// and `signature` is its type signature, as a string. `signal` is the
/// member name, or the empty string where the signal has none. Where
/// the structure has no document, there is no record.
pub open spec fn spec_record(member: Option<Seq<char>>, arguments: Seq<BusValueView>) -> Result<
    RecordView,
    ConvertErrorView,
> {
    match spec_convert(BusValueView::Structure(arguments)) {
        Ok(data) => Ok(
            RecordView {
                signal: match member {
                    Some(name) => name,
                    None => Seq::empty(),
                },
                data,
                signature: JsonView::String(signature_text(BusValueView::Structure(arguments))),
            },
        ),
        Err(e) => Err(e),
    }
}

/// The JSON object of a record: its three fields under the keys `signal`,
/// `data` and `signature`.
pub open spec fn record_document(record: RecordView) -> JsonView {
    JsonView::Object(
        Map::empty().insert("data"@, record.data).insert(
            "signal"@,
            JsonView::String(record.signal),
        ).insert("signature"@, record.signature),
    )
}

impl Record {
    /// The mathematical content of the record.
    pub open spec fn view(&self) -> RecordView {
        RecordView { signal: self.signal@, data: self.data@, signature: self.signature@ }
    }

    /// Well-formedness: both documents of the record are well formed.
    pub open spec fn wf(&self) -> bool {
        self.data.wf() && self.signature.wf()
    }

    /// Makes the JSON object of the record, with its three members in the
    /// order of their keys.
    pub fn into_json(self) -> (r: Json)
        ensures
            r@ == record_document(self@),
            r matches Json::Object(members) && members@.len() == 3 && keys_ascend(members@),
            self.wf() ==> r.wf(),
    {
        proof {
            reveal_strlit("data");
            reveal_strlit("signal");
            reveal_strlit("signature");
        }
        let mut members: Vec<Member> = Vec::new();
        let data = Member { key: String::from_str("data"), value: self.data };
        let signal = Member { key: String::from_str("signal"), value: Json::String(self.signal) };
        let signature = Member { key: String::from_str("signature"), value: self.signature };
        let _ = insert_member(&mut members, data);
        let ghost one = members@;
        assert(!has_key(one, signal.key@)) by {
            assert("data"@.len() != "signal"@.len());
        }
        let _ = insert_member(&mut members, signal);
        let ghost two = members@;
        assert(!has_key(two, signature.key@)) by {
            assert("data"@.len() != "signature"@.len());
            assert("signal"@.len() != "signature"@.len());
            assert(forall|i: int| 0 <= i < two.len() ==> two[i] == data || two[i] == signal);
        }
        let _ = insert_member(&mut members, signature);
        proof {
            if self.wf() {
                assert forall|i: int| 0 <= i < members@.len() implies (#[trigger] members@[i]).value.wf() by {
                    assert(members@[i] == data || members@[i] == signal || members@[i] == signature);
                }
            }
        }
        Json::Object(members)
    }
}

/// Makes the record of a signal from its member name, if it has one, and
/// its arguments.
pub fn build_record(member: Option<String>, arguments: Vec<BusValue>) -> (r: Result<
    Record,
    ConvertError,
>)
    ensures
        spec_record(
            match member {
                Some(name) => Some(name@),
                None => None,
            },
            views(arguments@),
        ) == (match r {
            Ok(record) => Ok(record@),
            Err(e) => Err(e@),
        }),
        r matches Ok(record) ==> record.wf(),
{
    let body = BusValue::Structure(arguments);
    let data = match convert(&body) {
        Ok(data) => data,
        Err(e) => {
            return Err(e);
        },
    };
    let signature = signature_of(&body);
    let signal = match member {
        Some(name) => name,
        None => String::new(),
    };
    Ok(Record { signal, data, signature })
}

/// The record of a signal has the member name as its signal, or the
/// empty text where the signal has none; its data is an array with the
/// document of each argument at the place of the argument; and its
/// signature is a string.
pub proof fn lemma_record_fields(member: Option<Seq<char>>, arguments: Seq<BusValueView>)
    requires
        spec_record(member, arguments) is Ok,
    ensures
        ({
            let record = spec_record(member, arguments)->Ok_0;
            &&& member matches Some(name) ==> record.signal == name
            &&& member is None ==> record.signal.len() == 0
            &&& record.signature is String
            &&& record.data matches JsonView::Array(documents) && {
                &&& documents.len() == arguments.len()
                &&& forall|i: int|
                    0 <= i < arguments.len() ==> #[trigger] spec_convert(arguments[i]) == Ok::<
                        JsonView,
                        ConvertErrorView,
                    >(documents[i])
            }
        }),
{
    lemma_convert_items_all(arguments);
    lemma_convert_items_each(arguments);
}

} // verus!
