//! Structured values: the data that templates are rendered against.

use vstd::prelude::*;
use crate::text::{lex_lt, lemma_lex_lt_irreflexive, lemma_lex_lt_transitive, lemma_lex_lt_total, str_lt};

verus! {

/// A structured value as the proofs see it.
///
/// Text is a sequence of characters, a list is a sequence of values and a
/// mapping is a sequence of (key, value) pairs.
pub enum Json {
    Null,
    Bool(bool),
    Number(Seq<char>),
    Text(Seq<char>),
    Array(Seq<Json>),
    Object(Seq<(Seq<char>, Json)>),
}

/// A structured value: null, a boolean, a number held as its decimal text,
/// a string, an ordered list of values, or a mapping from keys to values.
///
/// A mapping keeps its members ordered by key, each key once; see
/// [`Json::wf`] and [`JsonValue::object`].
#[derive(Debug, PartialEq, Eq)]
pub enum JsonValue {
    Null,
    Bool(bool),
    Number(String),
    Text(String),
    Array(Vec<JsonValue>),
    Object(Vec<(String, JsonValue)>),
}

/// The members of a mapping as the proofs see them.
pub open spec fn members_view(members: Seq<(String, JsonValue)>) -> Seq<(Seq<char>, Json)> {
    Seq::new(members.len(), |i: int| (members[i].0@, members[i].1@))
}

/// The items of a list as the proofs see them.
pub open spec fn items_view(items: Seq<JsonValue>) -> Seq<Json> {
    Seq::new(items.len(), |i: int| items[i]@)
}

impl View for JsonValue {
    type V = Json;

    open spec fn view(&self) -> Json
        decreases self,
    {
        match self {
            JsonValue::Null => Json::Null,
            JsonValue::Bool(b) => Json::Bool(*b),
            JsonValue::Number(n) => Json::Number(n@),
            JsonValue::Text(s) => Json::Text(s@),
            JsonValue::Array(items) => Json::Array(
                Seq::new(
                    items@.len(),
                    |i: int|
                        if 0 <= i < items@.len() {
                            items@[i]@
                        } else {
                            Json::Null
                        },
                ),
            ),
            JsonValue::Object(members) => Json::Object(
                Seq::new(
                    members@.len(),
                    |i: int|
                        (
                            members@[i].0@,
                            if 0 <= i < members@.len() {
                                members@[i].1@
                            } else {
                                Json::Null
                            },
                        ),
                ),
            ),
        }
    }
}

/// The keys of `members` strictly increase, so no key occurs twice.
pub open spec fn sorted_keys<V>(members: Seq<(Seq<char>, V)>) -> bool {
    forall|i: int, j: int| 0 <= i < j < members.len() ==> lex_lt(#[trigger] members[i].0, #[trigger] members[j].0)
}

/// Some member of `members` has the key `key`.
pub open spec fn has_key(members: Seq<(Seq<char>, Json)>, key: Seq<char>) -> bool {
    exists|i: int| 0 <= i < members.len() && #[trigger] members[i].0 == key
}

/// The value that `members` holds under `key`, if any.
pub open spec fn lookup(members: Seq<(Seq<char>, Json)>, key: Seq<char>) -> Option<Json> {
    if has_key(members, key) {
        let i = choose|i: int| 0 <= i < members.len() && #[trigger] members[i].0 == key;
        Some(members[i].1)
    } else {
        None
    }
}

/// The map after each pair of `pairs` was put into `base`, first to last.
pub open spec fn inserted_all(base: Map<Seq<char>, Json>, pairs: Seq<(Seq<char>, Json)>) -> Map<
    Seq<char>,
    Json,
>
    decreases pairs.len(),
{
    if pairs.len() == 0 {
        base
    } else {
        inserted_all(base, pairs.drop_last()).insert(pairs.last().0, pairs.last().1)
    }
}

/// The members as a map from key to value.
pub open spec fn as_map(members: Seq<(Seq<char>, Json)>) -> Map<Seq<char>, Json> {
    Map::new(|k: Seq<char>| has_key(members, k), |k: Seq<char>| lookup(members, k).unwrap())
}

impl Json {
    /// Every mapping inside this value has strictly increasing keys.
    pub open spec fn wf(self) -> bool
        decreases self,
    {
        match self {
            Json::Array(items) => forall|i: int| 0 <= i < items.len() ==> (#[trigger] items[i]).wf(),
            Json::Object(members) => sorted_keys(members) && forall|i: int|
                0 <= i < members.len() ==> (#[trigger] members[i]).1.wf(),
            _ => true,
        }
    }

    /// The member under `key` where this value is a mapping that has one.
    pub open spec fn field(self, key: Seq<char>) -> Option<Json> {
        match self {
            Json::Object(members) => lookup(members, key),
            _ => None,
        }
    }

    /// The item at `index` where this value is a list that long.
    pub open spec fn item(self, index: int) -> Option<Json> {
        match self {
            Json::Array(items) => if 0 <= index < items.len() {
                Some(items[index])
            } else {
                None
            },
            _ => None,
        }
    }

    /// This value is a list or a mapping.
    pub open spec fn is_composite(self) -> bool {
        self is Array || self is Object
    }
}

/// With strictly increasing keys, the member at position `i` is the one
/// that `lookup` finds for its key.
pub proof fn lemma_lookup_at(members: Seq<(Seq<char>, Json)>, i: int)
    requires
        sorted_keys(members),
        0 <= i < members.len(),
    ensures
        has_key(members, members[i].0),
        lookup(members, members[i].0) == Some(members[i].1),
{
    let key = members[i].0;
    assert(has_key(members, key));
    let j = choose|j: int| 0 <= j < members.len() && #[trigger] members[j].0 == key;
    lemma_lex_lt_irreflexive(key);
    if j < i {
        assert(lex_lt(members[j].0, members[i].0));
    } else if i < j {
        assert(lex_lt(members[i].0, members[j].0));
    }
}

/// How many members have a key before `key`.
pub open spec fn rank<V>(members: Seq<(Seq<char>, V)>, key: Seq<char>) -> int
    decreases members.len(),
{
    if members.len() == 0 {
        0
    } else {
        rank(members.drop_last(), key) + if lex_lt(members.last().0, key) {
            1int
        } else {
            0int
        }
    }
}

/// The members after `value` was put under `key`: in place of the member
/// of that key if there is one, else at the place that keeps the keys in
/// order.
pub open spec fn put<V>(members: Seq<(Seq<char>, V)>, key: Seq<char>, value: V) -> Seq<
    (Seq<char>, V),
> {
    let p = rank(members, key);
    if 0 <= p < members.len() && members[p].0 == key {
        members.update(p, (key, value))
    } else if 0 <= p <= members.len() {
        members.insert(p, (key, value))
    } else {
        members
    }
}

/// The members after each pair of `pairs` was put, first to last, starting
/// from none.
pub open spec fn put_all<V>(pairs: Seq<(Seq<char>, V)>) -> Seq<(Seq<char>, V)>
    decreases pairs.len(),
{
    if pairs.len() == 0 {
        Seq::empty()
    } else {
        put(put_all(pairs.drop_last()), pairs.last().0, pairs.last().1)
    }
}

/// The mapping that holds `pairs`, a later pair replacing an earlier one
/// of the same key.
pub open spec fn object_of(pairs: Seq<(Seq<char>, Json)>) -> Json {
    Json::Object(put_all(pairs))
}

/// Where the keys before position `p` come before `key` and the others do
/// not, `p` is the rank of `key`.
pub proof fn lemma_rank<V>(members: Seq<(Seq<char>, V)>, key: Seq<char>, p: int)
    requires
        0 <= p <= members.len(),
        forall|i: int| 0 <= i < p ==> lex_lt((#[trigger] members[i]).0, key),
        forall|i: int| p <= i < members.len() ==> !lex_lt((#[trigger] members[i]).0, key),
    ensures
        rank(members, key) == p,
    decreases members.len(),
{
    if members.len() > 0 {
        let rest = members.drop_last();
        if p == members.len() {
            assert(lex_lt(members[members.len() - 1].0, key));
            assert forall|i: int| 0 <= i < p - 1 implies lex_lt((#[trigger] rest[i]).0, key) by {
                assert(rest[i] == members[i]);
            }
            lemma_rank(rest, key, p - 1);
        } else {
            assert(!lex_lt(members[members.len() - 1].0, key));
            assert forall|i: int| 0 <= i < p implies lex_lt((#[trigger] rest[i]).0, key) by {
                assert(rest[i] == members[i]);
            }
            assert forall|i: int| p <= i < rest.len() implies !lex_lt(
                (#[trigger] rest[i]).0,
                key,
            ) by {
                assert(rest[i] == members[i]);
            }
            lemma_rank(rest, key, p);
        }
    }
}

/// Where the keys strictly increase, the rank of a key is the place
/// where it stands or would stand: the keys before come before it and
/// the others do not.
pub proof fn lemma_rank_bounds<V>(members: Seq<(Seq<char>, V)>, key: Seq<char>)
    requires
        sorted_keys(members),
    ensures
        0 <= rank(members, key) <= members.len(),
        forall|i: int| 0 <= i < rank(members, key) ==> lex_lt((#[trigger] members[i]).0, key),
        forall|i: int|
            rank(members, key) <= i < members.len() ==> !lex_lt((#[trigger] members[i]).0, key),
    decreases members.len(),
{
    if members.len() > 0 {
        let rest = members.drop_last();
        let last = members.last();
        assert forall|i: int, j: int| 0 <= i < j < rest.len() implies lex_lt(
            #[trigger] rest[i].0,
            #[trigger] rest[j].0,
        ) by {
            assert(rest[i] == members[i] && rest[j] == members[j]);
        }
        lemma_rank_bounds(rest, key);
        if lex_lt(last.0, key) {
            assert forall|i: int| 0 <= i < rest.len() implies lex_lt((#[trigger] rest[i]).0, key) by {
                assert(rest[i] == members[i]);
                assert(lex_lt(members[i].0, members[members.len() - 1].0));
                lemma_lex_lt_transitive(members[i].0, last.0, key);
            }
            assert(rank(rest, key) == rest.len());
            assert forall|i: int| 0 <= i < rank(members, key) implies lex_lt(
                (#[trigger] members[i]).0,
                key,
            ) by {
                if i < rest.len() {
                    assert(rest[i] == members[i]);
                }
            }
        } else {
            assert forall|i: int| 0 <= i < rank(members, key) implies lex_lt(
                (#[trigger] members[i]).0,
                key,
            ) by {
                assert(rest[i] == members[i]);
            }
            assert forall|i: int| rank(members, key) <= i < members.len() implies !lex_lt(
                (#[trigger] members[i]).0,
                key,
            ) by {
                if i < rest.len() {
                    assert(rest[i] == members[i]);
                }
            }
        }
    }
}

/// Putting a value under a key keeps the keys strictly increasing.
pub proof fn lemma_put_sorted<V>(members: Seq<(Seq<char>, V)>, key: Seq<char>, value: V)
    requires
        sorted_keys(members),
    ensures
        sorted_keys(put(members, key, value)),
{
    lemma_rank_bounds(members, key);
    let p = rank(members, key);
    let after = put(members, key, value);
    if p < members.len() && members[p].0 == key {
        assert forall|i: int, j: int| 0 <= i < j < after.len() implies lex_lt(
            #[trigger] after[i].0,
            #[trigger] after[j].0,
        ) by {
            assert(lex_lt(members[i].0, members[j].0));
        }
    } else {
        assert forall|i: int, j: int| 0 <= i < j < after.len() implies lex_lt(
            #[trigger] after[i].0,
            #[trigger] after[j].0,
        ) by {
            if j < p {
                assert(lex_lt(members[i].0, members[j].0));
            } else if j == p {
                assert(lex_lt(members[i].0, key));
            } else if i == p {
                // after[j] is the member at j - 1, which is at or after p
                assert(!lex_lt(members[p].0, key));
                lemma_lex_lt_total(key, members[p].0);
                if j - 1 > p {
                    assert(lex_lt(members[p].0, members[j - 1].0));
                    lemma_lex_lt_transitive(key, members[p].0, members[j - 1].0);
                }
            } else if i < p {
                assert(lex_lt(members[i].0, members[j - 1].0));
            } else {
                assert(lex_lt(members[i - 1].0, members[j - 1].0));
            }
        }
    }
}

/// Every member has a well-formed value and the keys strictly increase.
pub open spec fn members_wf(members: Seq<(Seq<char>, Json)>) -> bool {
    sorted_keys(members) && forall|i: int| 0 <= i < members.len() ==> (#[trigger] members[i]).1.wf()
}

/// Every item is well formed.
pub open spec fn items_wf(items: Seq<Json>) -> bool {
    forall|i: int| 0 <= i < items.len() ==> (#[trigger] items[i]).wf()
}

/// What `lookup` finds is the value of a member with that key.
pub proof fn lemma_lookup_some(members: Seq<(Seq<char>, Json)>, key: Seq<char>)
    requires
        lookup(members, key) is Some,
    ensures
        exists|i: int|
            0 <= i < members.len() && (#[trigger] members[i]).0 == key && lookup(members, key)
                == Some(members[i].1),
{
}

/// The parts of a well-formed value are well formed.
pub proof fn lemma_wf_parts(value: Json)
    requires
        value.wf(),
    ensures
        value matches Json::Array(items) ==> items_wf(items),
        value matches Json::Object(members) ==> members_wf(members),
{
}

/// A key that no member has is not found.
pub proof fn lemma_lookup_none(members: Seq<(Seq<char>, Json)>, key: Seq<char>)
    requires
        forall|i: int| 0 <= i < members.len() ==> (#[trigger] members[i]).0 != key,
    ensures
        !has_key(members, key),
        lookup(members, key) is None,
{
}

/// Position of the first member whose key is not before `key`, found by
/// halving the range in which it can stand.
pub fn lower_bound(members: &Vec<(String, JsonValue)>, key: &str) -> (p: usize)
    requires
        sorted_keys(members_view(members@)),
    ensures
        p <= members.len(),
        forall|i: int| 0 <= i < p ==> lex_lt(#[trigger] members@[i].0@, key@),
        forall|i: int| p <= i < members.len() ==> !lex_lt(#[trigger] members@[i].0@, key@),
{
    let ghost mv = members_view(members@);
    let mut low: usize = 0;
    let mut high: usize = members.len();
    while low < high
        invariant
            low <= high <= members.len(),
            mv == members_view(members@),
            sorted_keys(mv),
            forall|i: int| 0 <= i < low ==> lex_lt(#[trigger] members@[i].0@, key@),
            forall|i: int| high <= i < members.len() ==> !lex_lt(#[trigger] members@[i].0@, key@),
        decreases high - low,
    {
        let middle = low + (high - low) / 2;
        if str_lt(members[middle].0.as_str(), key) {
            proof {
                assert forall|i: int| 0 <= i < middle + 1 implies lex_lt(
                    #[trigger] members@[i].0@,
                    key@,
                ) by {
                    if i < middle {
                        assert(lex_lt(mv[i].0, mv[middle as int].0));
                        lemma_lex_lt_transitive(members@[i].0@, members@[middle as int].0@, key@);
                    }
                }
            }
            low = middle + 1;
        } else {
            proof {
                assert forall|i: int| middle <= i < members.len() implies !lex_lt(
                    #[trigger] members@[i].0@,
                    key@,
                ) by {
                    if i > middle && lex_lt(members@[i].0@, key@) {
                        assert(lex_lt(mv[middle as int].0, mv[i].0));
                        lemma_lex_lt_transitive(members@[middle as int].0@, members@[i].0@, key@);
                    }
                }
            }
            high = middle;
        }
    }
    low
}

/// The value that the members hold under `key`, if any.
pub fn member<'a>(members: &'a Vec<(String, JsonValue)>, key: &str) -> (r: Option<&'a JsonValue>)
    requires
        sorted_keys(members_view(members@)),
    ensures
        match r {
            Some(v) => lookup(members_view(members@), key@) == Some(v@),
            None => lookup(members_view(members@), key@) is None,
        },
        members_wf(members_view(members@)) && r is Some ==> r.unwrap()@.wf(),
{
    let p = lower_bound(members, key);
    let ghost mv = members_view(members@);
    if p < members.len() && !str_lt(key, members[p].0.as_str()) {
        proof {
            lemma_lex_lt_total(key@, mv[p as int].0);
            lemma_lookup_at(mv, p as int);
            if members_wf(mv) {
                assert(mv[p as int].1.wf());
            }
        }
        Some(&members[p].1)
    } else {
        proof {
            assert forall|i: int| 0 <= i < mv.len() implies (#[trigger] mv[i]).0 != key@ by {
                lemma_lex_lt_irreflexive(key@);
                if i > p {
                    assert(lex_lt(mv[p as int].0, mv[i].0));
                    if mv[i].0 == key@ {
                        lemma_lex_lt_transitive(key@, mv[p as int].0, mv[i].0);
                    }
                } else if i < p {
                    assert(lex_lt(members@[i].0@, key@));
                }
            }
            lemma_lookup_none(mv, key@);
        }
        None
    }
}

/// Putting a value under a key is inserting it into the map, for keys
/// that strictly increase. The key was there exactly if it stands at its
/// rank.
pub proof fn lemma_put_map(members: Seq<(Seq<char>, Json)>, key: Seq<char>, value: Json)
    requires
        sorted_keys(members),
    ensures
        as_map(put(members, key, value)) == as_map(members).insert(key, value),
        has_key(members, key) <==> (rank(members, key) < members.len() && members[rank(
            members,
            key,
        )].0 == key),
{
    lemma_rank_bounds(members, key);
    lemma_put_sorted(members, key, value);
    lemma_lex_lt_irreflexive(key);
    let p = rank(members, key);
    let replaced = p < members.len() && members[p].0 == key;
    let after = put(members, key, value);
    // where each old position went, and where each new position came from
    let to = |i: int| if replaced || i < p { i } else { i + 1 };
    let from = |i: int| if replaced || i < p { i } else { i - 1 };
    assert(after[p] == (key, value));
    assert forall|i: int| 0 <= i < members.len() && members[i].0 == key implies i == p by {
        if i < p {
            assert(lex_lt(members[i].0, key));
        } else if i > p {
            assert(lex_lt(members[p].0, members[i].0));
            assert(!lex_lt(members[p].0, key));
            lemma_lex_lt_total(key, members[p].0);
            if lex_lt(key, members[p].0) {
                lemma_lex_lt_transitive(key, members[p].0, members[i].0);
            }
        }
    }
    if has_key(members, key) {
        let i = choose|i: int| 0 <= i < members.len() && #[trigger] members[i].0 == key;
        assert(i == p);
    }
    if replaced {
        assert(members[p].0 == key);
    }
    let before_map = as_map(members);
    let after_map = as_map(after);
    assert forall|q: Seq<char>| #[trigger]
        after_map.dom().contains(q) == before_map.insert(key, value).dom().contains(q) by {
        if has_key(after, q) {
            let i = choose|i: int| 0 <= i < after.len() && #[trigger] after[i].0 == q;
            if i != p {
                assert(members[from(i)].0 == q);
            }
        }
        if has_key(members, q) {
            let i = choose|i: int| 0 <= i < members.len() && #[trigger] members[i].0 == q;
            if replaced && i == p {
                assert(after[p].0 == q);
            } else {
                assert(after[to(i)].0 == q);
            }
        }
        if q == key {
            assert(after[p].0 == q);
        }
    }
    assert forall|q: Seq<char>| after_map.dom().contains(q) implies #[trigger] after_map[q]
        == before_map.insert(key, value)[q] by {
        let i = choose|i: int| 0 <= i < after.len() && #[trigger] after[i].0 == q;
        lemma_lookup_at(after, i);
        if i != p {
            assert(members[from(i)] == after[i]);
            lemma_lookup_at(members, from(i));
            assert(q != key) by {
                if i < p {
                    assert(lex_lt(after[i].0, after[p].0));
                } else {
                    assert(lex_lt(after[p].0, after[i].0));
                }
            }
        }
    }
    assert(after_map =~= before_map.insert(key, value));
}

/// Puts `value` under `key`, in place of the value that was there if the
/// key was present. Says whether it was.
pub fn insert_member(members: &mut Vec<(String, JsonValue)>, key: String, value: JsonValue) -> (existed:
    bool)
    requires
        members_wf(members_view(old(members)@)),
        value@.wf(),
    ensures
        members_wf(members_view(final(members)@)),
        as_map(members_view(final(members)@)) == as_map(members_view(old(members)@)).insert(
            key@,
            value@,
        ),
        existed == has_key(members_view(old(members)@), key@),
        members_view(final(members)@) == put(members_view(old(members)@), key@, value@),
{
    let p = lower_bound(members, key.as_str());
    let ghost before = members_view(members@);
    let ghost k = key@;
    let ghost v = value@;
    proof {
        assert forall|i: int| 0 <= i < p implies lex_lt((#[trigger] before[i]).0, k) by {
            assert(lex_lt(members@[i].0@, k));
        }
        assert forall|i: int| p <= i < before.len() implies !lex_lt((#[trigger] before[i]).0, k) by {
            assert(!lex_lt(members@[i].0@, k));
        }
        lemma_rank(before, k, p as int);
        lemma_put_sorted(before, k, v);
        lemma_put_map(before, k, v);
    }
    let existed = p < members.len() && !str_lt(key.as_str(), members[p].0.as_str());
    proof {
        if p < members.len() {
            assert(before[p as int].0 == members@[p as int].0@);
            lemma_lex_lt_total(k, before[p as int].0);
            lemma_lex_lt_irreflexive(k);
        }
    }
    if existed {
        members.set(p, (key, value));
    } else {
        members.insert(p, (key, value));
    }
    proof {
        let after = members_view(members@);
        assert(after =~= put(before, k, v));
        assert forall|i: int| 0 <= i < after.len() implies (#[trigger] after[i]).1.wf() by {
            if i != p {
                let j = if existed || i < p {
                    i
                } else {
                    i - 1
                };
                assert(after[i] == before[j]);
                assert(before[j].1.wf());
            }
        }
    }
    existed
}

/// Keys that increase from each member to the next strictly increase
/// over all.
pub proof fn lemma_steps_sorted<V>(members: Seq<(Seq<char>, V)>)
    requires
        forall|j: int| 0 < j < members.len() ==> lex_lt(members[j - 1].0, #[trigger] members[j].0),
    ensures
        sorted_keys(members),
{
    assert forall|i: int, j: int| 0 <= i < j < members.len() implies lex_lt(
        #[trigger] members[i].0,
        #[trigger] members[j].0,
    ) by {
        lemma_steps_between(members, i, j);
    }
}

proof fn lemma_steps_between<V>(members: Seq<(Seq<char>, V)>, i: int, j: int)
    requires
        forall|k: int| 0 < k < members.len() ==> lex_lt(members[k - 1].0, #[trigger] members[k].0),
        0 <= i < j < members.len(),
    ensures
        lex_lt(members[i].0, members[j].0),
    decreases j - i,
{
    if j > i + 1 {
        lemma_steps_between(members, i, j - 1);
        lemma_lex_lt_transitive(members[i].0, members[j - 1].0, members[j].0);
    }
}

/// A mapping's view is the view of its members.
pub proof fn lemma_view_object(members: Vec<(String, JsonValue)>)
    ensures
        JsonValue::Object(members)@ == Json::Object(members_view(members@)),
{
    assert(JsonValue::Object(members)@->Object_0 =~= members_view(members@));
}

/// A list's view is the view of its items.
pub proof fn lemma_view_array(items: Vec<JsonValue>)
    ensures
        JsonValue::Array(items)@ == Json::Array(items_view(items@)),
{
    assert(JsonValue::Array(items)@->Array_0 =~= items_view(items@));
}

impl JsonValue {
    /// The member under `key` where this value is a mapping that has one.
    pub fn field(&self, key: &str) -> (r: Option<&JsonValue>)
        requires
            self@.wf(),
        ensures
            match r {
                Some(v) => self@.field(key@) == Some(v@) && v@.wf(),
                None => self@.field(key@) is None,
            },
    {
        match self {
            JsonValue::Object(members) => {
                proof {
                    lemma_view_object(*members);
                }
                let r = member(members, key);
                proof {
                    if r is Some {
                        let mv = members_view(members@);
                        let i = choose|i: int| 0 <= i < mv.len() && #[trigger] mv[i].0 == key@;
                        assert(mv[i].1.wf());
                    }
                }
                r
            },
            _ => None,
        }
    }

    /// The item at `index` where this value is a list that long.
    pub fn item(&self, index: usize) -> (r: Option<&JsonValue>)
        requires
            self@.wf(),
        ensures
            match r {
                Some(v) => self@.item(index as int) == Some(v@) && v@.wf(),
                None => self@.item(index as int) is None,
            },
    {
        match self {
            JsonValue::Array(items) => {
                proof {
                    lemma_view_array(*items);
                }
                if index < items.len() {
                    proof {
                        assert(items_view(items@)[index as int].wf());
                    }
                    Some(&items[index])
                } else {
                    None
                }
            },
            _ => None,
        }
    }

    /// Whether this value is a mapping.
    pub fn is_object(&self) -> (r: bool)
        ensures
            r == (self@ is Object),
    {
        match self {
            JsonValue::Object(_) => true,
            _ => false,
        }
    }

    /// Whether this value is a list.
    pub fn is_array(&self) -> (r: bool)
        ensures
            r == (self@ is Array),
    {
        match self {
            JsonValue::Array(_) => true,
            _ => false,
        }
    }

    /// Whether every mapping inside this value keeps its members ordered
    /// by key, each key once.
    pub fn is_well_formed(&self) -> (r: bool)
        ensures
            r == self@.wf(),
        decreases self,
    {
        match self {
            JsonValue::Array(items) => {
                proof {
                    lemma_view_array(*items);
                }
                let mut i: usize = 0;
                while i < items.len()
                    invariant
                        i <= items.len(),
                        self matches JsonValue::Array(v) && v == items,
                        self@ == Json::Array(items_view(items@)),
                        forall|j: int| 0 <= j < i ==> (#[trigger] items@[j])@.wf(),
                    decreases items.len() - i,
                {
                    if !items[i].is_well_formed() {
                        proof {
                            assert(items_view(items@)[i as int] == items@[i as int]@);
                            if self@.wf() {
                                lemma_wf_parts(self@);
                                assert(items_view(items@)[i as int].wf());
                            }
                        }
                        return false;
                    }
                    i += 1;
                }
                proof {
                    assert forall|j: int| 0 <= j < items_view(items@).len() implies (
                    #[trigger] items_view(items@)[j]).wf() by {
                        assert(items@[j]@.wf());
                    }
                }
                true
            },
            JsonValue::Object(members) => {
                proof {
                    lemma_view_object(*members);
                }
                let ghost mv = members_view(members@);
                let mut i: usize = 0;
                while i < members.len()
                    invariant
                        i <= members.len(),
                        mv == members_view(members@),
                        self matches JsonValue::Object(v) && v == members,
                        self@ == Json::Object(mv),
                        forall|j: int| 0 <= j < i ==> (#[trigger] mv[j]).1.wf(),
                        forall|j: int| 0 < j < i ==> lex_lt(mv[j - 1].0, #[trigger] mv[j].0),
                    decreases members.len() - i,
                {
                    assert(mv[i as int] == (members@[i as int].0@, members@[i as int].1@));
                    if !members[i].1.is_well_formed() {
                        proof {
                            if self@.wf() {
                                lemma_wf_parts(self@);
                                assert(mv[i as int].1.wf());
                            }
                        }
                        return false;
                    }
                    if i > 0 {
                        assert(mv[i - 1] == (members@[i - 1].0@, members@[i - 1].1@));
                        if !str_lt(members[i - 1].0.as_str(), members[i].0.as_str()) {
                            proof {
                                if self@.wf() {
                                    lemma_wf_parts(self@);
                                    assert(lex_lt(mv[i - 1].0, mv[i as int].0));
                                }
                            }
                            return false;
                        }
                    }
                    i += 1;
                }
                proof {
                    lemma_steps_sorted(mv);
                }
                true
            },
            _ => true,
        }
    }

    /// A text value with the characters of `s`.
    pub fn text(s: &str) -> (r: JsonValue)
        ensures
            r@ == Json::Text(s@),
    {
        JsonValue::Text(s.to_owned())
    }

    /// A number, given as its text.
    pub fn number(text: &str) -> (r: JsonValue)
        ensures
            r@ == Json::Number(text@),
    {
        JsonValue::Number(text.to_owned())
    }

    /// The empty mapping.
    pub fn empty_object() -> (r: JsonValue)
        ensures
            r@ == Json::Object(Seq::empty()),
            r@.wf(),
    {
        let members: Vec<(String, JsonValue)> = Vec::new();
        proof {
            lemma_view_object(members);
            assert(members_view(members@) =~= Seq::empty());
        }
        JsonValue::Object(members)
    }

    /// The mapping that holds `members`, a later member replacing an
    /// earlier one of the same key.
    pub fn object(members: Vec<(String, JsonValue)>) -> (r: JsonValue)
        requires
            forall|i: int| 0 <= i < members.len() ==> (#[trigger] members@[i]).1@.wf(),
        ensures
            r@.wf(),
            r@ == object_of(members_view(members@)),
            as_map(r@->Object_0) == inserted_all(Map::empty(), members_view(members@)),
    {
        let mut sorted: Vec<(String, JsonValue)> = Vec::new();
        let mut i: usize = 0;
        proof {
            assert(as_map(members_view(sorted@)) =~= Map::empty());
            assert(members_view(members@).take(0) =~= Seq::empty());
            assert(members_view(sorted@) =~= Seq::empty());
        }
        while i < members.len()
            invariant
                i <= members.len(),
                forall|j: int| 0 <= j < members.len() ==> (#[trigger] members@[j]).1@.wf(),
                members_wf(members_view(sorted@)),
                members_view(sorted@) == put_all(members_view(members@).take(i as int)),
                as_map(members_view(sorted@)) == inserted_all(
                    Map::empty(),
                    members_view(members@).take(i as int),
                ),
            decreases members.len() - i,
        {
            let key = members[i].0.clone();
            let value = members[i].1.clone();
            proof {
                let all = members_view(members@);
                assert(all.take(i + 1).drop_last() =~= all.take(i as int));
                assert(all.take(i + 1).last() == (key@, value@));
            }
            insert_member(&mut sorted, key, value);
            i += 1;
        }
        proof {
            assert(members_view(members@).take(i as int) =~= members_view(members@));
            lemma_view_object(sorted);
        }
        JsonValue::Object(sorted)
    }

    /// The list that holds `items`.
    pub fn array(items: Vec<JsonValue>) -> (r: JsonValue)
        ensures
            r@ == Json::Array(items_view(items@)),
    {
        proof {
            lemma_view_array(items);
        }
        JsonValue::Array(items)
    }
}

/// A copy of `pairs`.
pub fn copy_pairs(pairs: &Vec<(String, JsonValue)>) -> (r: Vec<(String, JsonValue)>)
    ensures
        members_view(r@) == members_view(pairs@),
{
    let mut r: Vec<(String, JsonValue)> = Vec::new();
    let mut i: usize = 0;
    while i < pairs.len()
        invariant
            i <= pairs.len(),
            r.len() == i,
            forall|j: int|
                0 <= j < i ==> (#[trigger] r@[j]).0@ == pairs@[j].0@ && r@[j].1@ == pairs@[j].1@,
        decreases pairs.len() - i,
    {
        r.push((pairs[i].0.clone(), pairs[i].1.clone()));
        i += 1;
    }
    proof {
        assert(members_view(r@) =~= members_view(pairs@));
    }
    r
}

impl Clone for JsonValue {
    /// A copy that holds the same value.
    #[verifier::loop_isolation(false)]
    fn clone(&self) -> (r: JsonValue)
        ensures
            r@ == self@,
        decreases self,
    {
        match self {
            JsonValue::Null => JsonValue::Null,
            JsonValue::Bool(b) => JsonValue::Bool(*b),
            JsonValue::Number(n) => JsonValue::Number(n.clone()),
            JsonValue::Text(s) => JsonValue::Text(s.clone()),
            JsonValue::Array(items) => {
                let mut copy: Vec<JsonValue> = Vec::new();
                let mut i: usize = 0;
                while i < items.len()
                    invariant
                        i <= items.len(),
                        copy.len() == i,
                        forall|j: int| 0 <= j < i ==> (#[trigger] copy@[j])@ == items@[j]@,
                    decreases items.len() - i,
                {
                    copy.push(items[i].clone());
                    i += 1;
                }
                let r = JsonValue::Array(copy);
                assert(r@->Array_0 =~= self@->Array_0);
                r
            },
            JsonValue::Object(members) => {
                let mut copy: Vec<(String, JsonValue)> = Vec::new();
                let mut i: usize = 0;
                while i < members.len()
                    invariant
                        i <= members.len(),
                        copy.len() == i,
                        forall|j: int|
                            0 <= j < i ==> (#[trigger] copy@[j]).0@ == members@[j].0@ && copy@[j].1@
                                == members@[j].1@,
                    decreases members.len() - i,
                {
                    copy.push((members[i].0.clone(), members[i].1.clone()));
                    i += 1;
                }
                let r = JsonValue::Object(copy);
                assert forall|j: int| 0 <= j < members.len() implies r@->Object_0[j]
                    == self@->Object_0[j] by {
                    assert(copy@[j].0@ == members@[j].0@);
                }
                assert(r@->Object_0 =~= self@->Object_0);
                r
            },
        }
    }
}

} // verus!
