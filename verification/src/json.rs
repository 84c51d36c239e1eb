//! JSON documents as trees.

use crate::text::key_less;
use crate::text::key_lt;
use crate::text::lemma_key_lt_irreflexive;
use crate::text::lemma_key_lt_total;
use crate::text::lemma_key_lt_transitive;
use vstd::prelude::*;

verus! {

/// A JSON document.
///
/// An integer is held exactly. A double is held by its IEEE-754 bit
/// pattern. The members of an object are kept in the order of their keys
/// (see [`key_lt`]), so that two well-formed documents with the same
/// content are held in the same way (see
/// [`lemma_wf_document_is_unique`]).
#[derive(Debug, PartialEq, Eq)]
pub enum Json {
    Null,
    Bool(bool),
    Integer(i128),
    Double(u64),
    String(String),
    Array(Vec<Json>),
    Object(Vec<Member>),
}

/// One member of a JSON object.
#[derive(Debug, PartialEq, Eq)]
pub struct Member {
    pub key: String,
    pub value: Json,
}

/// The mathematical content of a [`Json`] document. An object is a finite
/// map from keys to documents: the order of its members is no part of it.
pub enum JsonView {
    Null,
    Bool(bool),
    Integer(int),
    Double(u64),
    String(Seq<char>),
    Array(Seq<JsonView>),
    Object(Map<Seq<char>, JsonView>),
}

/// A document as it is held: an object is the sequence of its members,
/// in their order.
pub enum JsonShape {
    Null,
    Bool(bool),
    Integer(int),
    Double(u64),
    String(Seq<char>),
    Array(Seq<JsonShape>),
    Object(Seq<(Seq<char>, JsonShape)>),
}

/// The shapes of a sequence of documents, in order.
pub open spec fn json_shapes(items: Seq<Json>) -> Seq<JsonShape>
    decreases items,
{
    if items.len() == 0 {
        Seq::empty()
    } else {
        json_shapes(items.drop_last()).push(items.last().shape())
    }
}

/// The keys of a sequence of members with the shapes of their values, in
/// order.
pub open spec fn member_shapes(members: Seq<Member>) -> Seq<(Seq<char>, JsonShape)>
    decreases members,
{
    if members.len() == 0 {
        Seq::empty()
    } else {
        member_shapes(members.drop_last()).push((members.last().key@, members.last().value.shape()))
    }
}

/// The views of a sequence of documents, in order.
pub open spec fn json_views(items: Seq<Json>) -> Seq<JsonView>
    decreases items,
{
    if items.len() == 0 {
        Seq::empty()
    } else {
        json_views(items.drop_last()).push(items.last().view())
    }
}

/// The map that a sequence of members stands for. Where a key occurs
/// more than once, the last occurrence counts.
pub open spec fn members_view(members: Seq<Member>) -> Map<Seq<char>, JsonView>
    decreases members,
{
    if members.len() == 0 {
        Map::empty()
    } else {
        members_view(members.drop_last()).insert(members.last().key@, members.last().value.view())
    }
}

/// Whether the keys of a sequence of members strictly ascend.
pub open spec fn keys_ascend(members: Seq<Member>) -> bool {
    forall|i: int, j: int|
        0 <= i < j < members.len() ==> key_lt(#[trigger] members[i].key@, #[trigger] members[j].key@)
}

impl Json {
    /// The mathematical content of the document.
    pub open spec fn view(&self) -> JsonView
        decreases self,
    {
        match self {
            Json::Null => JsonView::Null,
            Json::Bool(b) => JsonView::Bool(*b),
            Json::Integer(n) => JsonView::Integer(*n as int),
            Json::Double(bits) => JsonView::Double(*bits),
            Json::String(s) => JsonView::String(s@),
            Json::Array(items) => JsonView::Array(json_views(items@)),
            Json::Object(members) => JsonView::Object(members_view(members@)),
        }
    }

    /// The document as it is held, with the members of each object in
    /// their order.
    pub open spec fn shape(&self) -> JsonShape
        decreases self,
    {
        match self {
            Json::Null => JsonShape::Null,
            Json::Bool(b) => JsonShape::Bool(*b),
            Json::Integer(n) => JsonShape::Integer(*n as int),
            Json::Double(bits) => JsonShape::Double(*bits),
            Json::String(s) => JsonShape::String(s@),
            Json::Array(items) => JsonShape::Array(json_shapes(items@)),
            Json::Object(members) => JsonShape::Object(member_shapes(members@)),
        }
    }

    /// Well-formedness: in every object of the document the keys strictly
    /// ascend, so no key occurs twice.
    pub open spec fn wf(&self) -> bool
        decreases self,
    {
        match self {
            Json::Array(items) => forall|i: int| 0 <= i < items@.len() ==> (#[trigger] items@[i]).wf(),
            Json::Object(members) => {
                &&& keys_ascend(members@)
                &&& forall|i: int| 0 <= i < members@.len() ==> (#[trigger] members@[i]).value.wf()
            },
            _ => true,
        }
    }
}

/// The views of a sequence of documents stand at the places of the
/// documents.
pub proof fn lemma_json_views(items: Seq<Json>)
    ensures
        json_views(items).len() == items.len(),
        forall|i: int| 0 <= i < items.len() ==> (#[trigger] json_views(items)[i]) == items[i].view(),
    decreases items.len(),
{
    if items.len() > 0 {
        lemma_json_views(items.drop_last());
    }
}

/// The shapes of a sequence of documents stand at the places of the
/// documents.
pub proof fn lemma_json_shapes(items: Seq<Json>)
    ensures
        json_shapes(items).len() == items.len(),
        forall|i: int| 0 <= i < items.len() ==> (#[trigger] json_shapes(items)[i]) == items[i].shape(),
    decreases items.len(),
{
    if items.len() > 0 {
        lemma_json_shapes(items.drop_last());
    }
}

/// The shapes of a sequence of members stand at the places of the
/// members.
pub proof fn lemma_member_shapes(members: Seq<Member>)
    ensures
        member_shapes(members).len() == members.len(),
        forall|i: int|
            0 <= i < members.len() ==> (#[trigger] member_shapes(members)[i]) == (
                members[i].key@,
                members[i].value.shape(),
            ),
    decreases members.len(),
{
    if members.len() > 0 {
        lemma_member_shapes(members.drop_last());
    }
}

/// Whether some member of the sequence has the key.
pub open spec fn has_key(members: Seq<Member>, key: Seq<char>) -> bool {
    exists|i: int| 0 <= i < members.len() && #[trigger] members[i].key@ == key
}

/// The keys of the map of a sequence of members are the keys of the
/// members.
pub proof fn lemma_members_view_keys(members: Seq<Member>, key: Seq<char>)
    ensures
        members_view(members).contains_key(key) <==> has_key(members, key),
    decreases members.len(),
{
    if members.len() > 0 {
        let front = members.drop_last();
        lemma_members_view_keys(front, key);
        if has_key(members, key) {
            let i = choose|i: int| 0 <= i < members.len() && #[trigger] members[i].key@ == key;
            if i < members.len() - 1 {
                assert(front[i].key@ == key);
            }
        }
        if has_key(front, key) {
            let i = choose|i: int| 0 <= i < front.len() && #[trigger] front[i].key@ == key;
            assert(members[i].key@ == key);
        }
        if members.last().key@ == key {
            assert(members[members.len() - 1].key@ == key);
        }
    }
}

/// A member with a new key may be put at any place of the sequence: the
/// map gains that member and is otherwise the same.
pub proof fn lemma_members_view_insert(members: Seq<Member>, at: int, member: Member)
    requires
        0 <= at <= members.len(),
        !has_key(members, member.key@),
    ensures
        members_view(members.insert(at, member)) == members_view(members).insert(
            member.key@,
            member.value.view(),
        ),
    decreases members.len(),
{
    let grown = members.insert(at, member);
    if at == members.len() {
        assert(grown.drop_last() =~= members);
    } else {
        let front = members.drop_last();
        let last = members.last();
        assert(grown.drop_last() =~= front.insert(at, member));
        assert(grown.last() == last);
        assert(!has_key(front, member.key@)) by {
            if has_key(front, member.key@) {
                let i = choose|i: int| 0 <= i < front.len() && #[trigger] front[i].key@ == member.key@;
                assert(members[i].key@ == member.key@);
            }
        }
        lemma_members_view_insert(front, at, member);
        assert(last.key@ != member.key@) by {
            assert(members[members.len() - 1].key@ == last.key@);
        }
        assert(members_view(front).insert(member.key@, member.value.view()).insert(
            last.key@,
            last.value.view(),
        ) =~= members_view(front).insert(last.key@, last.value.view()).insert(
            member.key@,
            member.value.view(),
        ));
    }
}

/// Where the keys ascend, the map takes each key to the value of the
/// member that has it.
pub proof fn lemma_members_view_value(members: Seq<Member>, i: int)
    requires
        keys_ascend(members),
        0 <= i < members.len(),
    ensures
        members_view(members).contains_key(members[i].key@),
        members_view(members)[members[i].key@] == members[i].value.view(),
    decreases members.len(),
{
    if i < members.len() - 1 {
        let front = members.drop_last();
        assert(keys_ascend(front));
        lemma_members_view_value(front, i);
        assert(front[i] == members[i]);
        assert(key_lt(members[i].key@, members[members.len() - 1].key@));
        lemma_key_lt_irreflexive(members[i].key@);
    }
}

/// Two sequences of members whose keys ascend and that stand for the same
/// map have the same keys at the same places, with values of the same
/// content.
pub proof fn lemma_ascending_members_agree(a: Seq<Member>, b: Seq<Member>)
    requires
        keys_ascend(a),
        keys_ascend(b),
        members_view(a) == members_view(b),
    ensures
        a.len() == b.len(),
        forall|i: int| 0 <= i < a.len() ==> (#[trigger] a[i]).key@ == b[i].key@,
        forall|i: int| 0 <= i < a.len() ==> (#[trigger] a[i]).value.view() == b[i].value.view(),
    decreases a.len(),
{
    if a.len() == 0 {
        if b.len() > 0 {
            assert(members_view(b).contains_key(b.last().key@));
        }
    } else if b.len() == 0 {
        assert(members_view(a).contains_key(a.last().key@));
    } else {
        let x = a.last();
        let y = b.last();
        let front_a = a.drop_last();
        let front_b = b.drop_last();
        assert(x == a[a.len() - 1]);
        assert(y == b[b.len() - 1]);
        lemma_last_key_is_greatest(a, y.key@);
        lemma_last_key_is_greatest(b, x.key@);
        assert(members_view(a).contains_key(y.key@));
        assert(members_view(b).contains_key(x.key@));
        if x.key@ != y.key@ {
            lemma_key_lt_transitive(x.key@, y.key@, x.key@);
            lemma_key_lt_irreflexive(x.key@);
        }
        assert(members_view(a)[x.key@] == x.value.view());
        assert(members_view(b)[y.key@] == y.value.view());
        lemma_last_key_is_greatest(a, x.key@);
        lemma_last_key_is_greatest(b, y.key@);
        lemma_key_lt_irreflexive(x.key@);
        lemma_members_view_keys(front_a, x.key@);
        lemma_members_view_keys(front_b, y.key@);
        assert(!has_key(front_a, x.key@)) by {
            if has_key(front_a, x.key@) {
                let i = choose|i: int| 0 <= i < front_a.len() && #[trigger] front_a[i].key@ == x.key@;
                assert(a[i].key@ == x.key@);
                assert(key_lt(a[i].key@, a[a.len() - 1].key@));
            }
        }
        assert(!has_key(front_b, y.key@)) by {
            if has_key(front_b, y.key@) {
                let i = choose|i: int| 0 <= i < front_b.len() && #[trigger] front_b[i].key@ == y.key@;
                assert(b[i].key@ == y.key@);
                assert(key_lt(b[i].key@, b[b.len() - 1].key@));
            }
        }
        assert(members_view(front_a) =~= members_view(a).remove(x.key@));
        assert(members_view(front_b) =~= members_view(b).remove(y.key@));
        assert(keys_ascend(front_a));
        assert(keys_ascend(front_b));
        lemma_ascending_members_agree(front_a, front_b);
        assert forall|i: int| 0 <= i < a.len() implies (#[trigger] a[i]).key@ == b[i].key@ by {
            if i < a.len() - 1 {
                assert(front_a[i] == a[i] && front_b[i] == b[i]);
            }
        }
        assert forall|i: int| 0 <= i < a.len() implies (#[trigger] a[i]).value.view()
            == b[i].value.view() by {
            if i < a.len() - 1 {
                assert(front_a[i] == a[i] && front_b[i] == b[i]);
            }
        }
    }
}

/// Among members whose keys ascend, a key that some member has is the
/// key of the last member or comes before it.
proof fn lemma_last_key_is_greatest(members: Seq<Member>, key: Seq<char>)
    requires
        keys_ascend(members),
        members.len() > 0,
    ensures
        members_view(members).contains_key(key) ==> key == members.last().key@ || key_lt(
            key,
            members.last().key@,
        ),
{
    lemma_members_view_keys(members, key);
    if has_key(members, key) {
        let i = choose|i: int| 0 <= i < members.len() && #[trigger] members[i].key@ == key;
        if i < members.len() - 1 {
            assert(key_lt(members[i].key@, members[members.len() - 1].key@));
        }
    }
}

/// A well-formed document is the only one with its content: two
/// well-formed documents with the same content are held in the same way,
/// member for member.
pub proof fn lemma_wf_document_is_unique(a: Json, b: Json)
    requires
        a.wf(),
        b.wf(),
        a@ == b@,
    ensures
        a.shape() == b.shape(),
    decreases a,
{
    match (a, b) {
        (Json::Array(xs), Json::Array(ys)) => {
            lemma_json_views(xs@);
            lemma_json_views(ys@);
            lemma_json_shapes(xs@);
            lemma_json_shapes(ys@);
            assert forall|i: int| 0 <= i < xs@.len() implies xs@[i].shape() == ys@[i].shape() by {
                assert(json_views(xs@)[i] == json_views(ys@)[i]);
                lemma_wf_document_is_unique(xs@[i], ys@[i]);
            }
            assert(json_shapes(xs@) =~= json_shapes(ys@));
        },
        (Json::Object(ma), Json::Object(mb)) => {
            lemma_ascending_members_agree(ma@, mb@);
            lemma_member_shapes(ma@);
            lemma_member_shapes(mb@);
            assert forall|i: int| 0 <= i < ma@.len() implies ma@[i].value.shape()
                == mb@[i].value.shape() by {
                lemma_wf_document_is_unique(ma@[i].value, mb@[i].value);
            }
            assert(member_shapes(ma@) =~= member_shapes(mb@));
        },
        _ => {},
    }
}

/// The index of the first member whose key does not come before `key`,
/// or the number of members where every key comes before it.
pub fn lower_bound(members: &Vec<Member>, key: &str) -> (at: usize)
    ensures
        at <= members@.len(),
        forall|i: int| 0 <= i < at ==> key_lt(#[trigger] members@[i].key@, key@),
        at < members@.len() ==> !key_lt(members@[at as int].key@, key@),
{
    let mut at: usize = 0;
    while at < members.len()
        invariant
            at <= members@.len(),
            forall|i: int| 0 <= i < at ==> key_lt(#[trigger] members@[i].key@, key@),
        decreases members@.len() - at,
    {
        if !key_less(members[at].key.as_str(), key) {
            return at;
        }
        at += 1;
    }
    at
}

/// Puts a member into a sequence whose keys ascend, at the place that its
/// key gives it, unless the key is already there: then the sequence stays
/// as it is and the member comes back.
pub fn insert_member(members: &mut Vec<Member>, member: Member) -> (r: Result<usize, Member>)
    requires
        keys_ascend(old(members)@),
    ensures
        match r {
            Ok(at) => {
                &&& !has_key(old(members)@, member.key@)
                &&& at <= old(members)@.len()
                &&& final(members)@ == old(members)@.insert(at as int, member)
                &&& keys_ascend(final(members)@)
                &&& members_view(final(members)@) == members_view(old(members)@).insert(
                    member.key@,
                    member.value.view(),
                )
            },
            Err(back) => {
                &&& has_key(old(members)@, member.key@)
                &&& back == member
                &&& final(members)@ == old(members)@
            },
        },
{
    let at = lower_bound(members, member.key.as_str());
    let ghost before = members@;
    if at < members.len() && members[at].key == member.key {
        return Err(member);
    }
    proof {
        let key = member.key@;
        assert forall|j: int| at <= j < before.len() implies key_lt(key, #[trigger] before[j].key@) by {
            if j == at {
                lemma_key_lt_total(key, before[j].key@);
            } else {
                assert(key_lt(before[at as int].key@, before[j].key@));
                lemma_key_lt_total(key, before[at as int].key@);
                lemma_key_lt_transitive(key, before[at as int].key@, before[j].key@);
            }
        }
        assert(!has_key(before, key)) by {
            if has_key(before, key) {
                let i = choose|i: int| 0 <= i < before.len() && #[trigger] before[i].key@ == key;
                lemma_key_lt_irreflexive(key);
            }
        }
        lemma_members_view_insert(before, at as int, member);
        let after = before.insert(at as int, member);
        assert forall|i: int, j: int| 0 <= i < j < after.len() implies key_lt(
            #[trigger] after[i].key@,
            #[trigger] after[j].key@,
        ) by {
            if j < at {
                assert(after[i] == before[i] && after[j] == before[j]);
            } else if j == at {
                assert(after[i] == before[i]);
            } else if i < at {
                assert(after[i] == before[i] && after[j] == before[j - 1]);
                if j - 1 == i {
                } else {
                    assert(key_lt(before[i].key@, before[j - 1].key@));
                }
            } else if i == at {
                assert(after[j] == before[j - 1]);
            } else {
                assert(after[i] == before[i - 1] && after[j] == before[j - 1]);
            }
        }
    }
    members.insert(at, member);
    Ok(at)
}

} // verus!
