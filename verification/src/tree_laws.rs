//! What holds of the tree of a store: a value stands where its path
//! leads, and stays there while what is planted later is planted
//! elsewhere.

use vstd::prelude::*;
use crate::nesting::{planted, tree_of, with_entries};
use crate::path::{segment_of, step, walk, Segment};
use crate::text::split_on;
use crate::variable_context::resolve;
use crate::value::{
    as_map, has_key, lemma_lookup_at, lemma_put_map, lemma_put_sorted, lemma_rank_bounds, lookup,
    members_wf, put, rank, sorted_keys, Json,
};

verus! {

/// After a value was put under a key, the key leads to the value and
/// every other key leads to what it led to.
pub proof fn lemma_lookup_put(
    members: Seq<(Seq<char>, Json)>,
    key: Seq<char>,
    value: Json,
    other: Seq<char>,
)
    requires
        sorted_keys(members),
    ensures
        lookup(put(members, key, value), key) == Some(value),
        other != key ==> lookup(put(members, key, value), other) == lookup(members, other),
{
    lemma_put_map(members, key, value);
    let after = put(members, key, value);
    assert(as_map(after).dom().contains(key));
    assert(as_map(after)[key] == value);
    if other != key {
        assert(as_map(after).dom().contains(other) == as_map(members).dom().contains(other));
        if has_key(members, other) {
            assert(as_map(after)[other] == as_map(members)[other]);
        }
    }
}

/// Planting a well-formed value in a well-formed tree gives a
/// well-formed tree.
pub proof fn lemma_planted_wf(current: Json, parts: Seq<Seq<char>>, from: int, value: Json)
    requires
        current.wf(),
        value.wf(),
    ensures
        planted(current, parts, from, value) matches Some(tree) ==> tree.wf(),
    decreases parts.len() - from,
{
    if 0 <= from < parts.len() {
        if let Json::Object(members) = current {
            match segment_of(parts[from]) {
                Segment::Field(name) => {
                    let below = match lookup(members, name) {
                        Some(v) => v,
                        None => Json::Object(Seq::empty()),
                    };
                    lemma_found_wf(members, name);
                    lemma_planted_wf(below, parts, from + 1, value);
                    if let Some(next) = planted(below, parts, from + 1, value) {
                        lemma_put_wf(members, name, next);
                    }
                },
                Segment::Item(name, index) => {
                    if let Some(Json::Array(items)) = lookup(members, name) {
                        if index < items.len() {
                            lemma_found_wf(members, name);
                            assert(items[index as int].wf());
                            lemma_planted_wf(items[index as int], parts, from + 1, value);
                            if let Some(next) = planted(items[index as int], parts, from + 1, value) {
                                let grown = Json::Array(items.update(index as int, next));
                                assert forall|i: int| 0 <= i < items.len() implies (
                                #[trigger] items.update(index as int, next)[i]).wf() by {
                                    if i != index {
                                        assert(items[i].wf());
                                    }
                                }
                                lemma_put_wf(members, name, grown);
                            }
                        }
                    }
                },
                Segment::Malformed => {},
            }
        }
    }
}

/// What well-formed members hold under a key is well formed.
pub proof fn lemma_found_wf(members: Seq<(Seq<char>, Json)>, key: Seq<char>)
    requires
        members_wf(members),
    ensures
        lookup(members, key) matches Some(v) ==> v.wf(),
{
    if has_key(members, key) {
        let i = choose|i: int| 0 <= i < members.len() && #[trigger] members[i].0 == key;
        assert(members[i].1.wf());
    }
}

/// Putting a well-formed value among well-formed members keeps them well
/// formed.
proof fn lemma_put_wf(members: Seq<(Seq<char>, Json)>, key: Seq<char>, value: Json)
    requires
        members_wf(members),
        value.wf(),
    ensures
        members_wf(put(members, key, value)),
{
    lemma_put_sorted(members, key, value);
    let p = rank(members, key);
    let after = put(members, key, value);
    assert forall|i: int| 0 <= i < after.len() implies (#[trigger] after[i]).1.wf() by {
        if 0 <= p < members.len() && members[p].0 == key {
            if i != p {
                assert(after[i] == members[i]);
            }
        } else if 0 <= p <= members.len() {
            if i < p {
                assert(after[i] == members[i]);
            } else if i > p {
                assert(after[i] == members[i - 1]);
            }
        }
    }
}

/// A value that was planted stands where its path leads: going down the
/// tree by the parts of the path reaches it.
pub proof fn lemma_planted_is_reached(
    current: Json,
    parts: Seq<Seq<char>>,
    from: int,
    value: Json,
)
    requires
        current.wf(),
        0 <= from,
        planted(current, parts, from, value) is Some,
    ensures
        walk(planted(current, parts, from, value).unwrap(), parts, from) == Some(value),
    decreases parts.len() - from,
{
    if from < parts.len() {
        let members = current->Object_0;
        let tree = planted(current, parts, from, value).unwrap();
        match segment_of(parts[from]) {
            Segment::Field(name) => {
                let below = match lookup(members, name) {
                    Some(v) => v,
                    None => Json::Object(Seq::empty()),
                };
                let next = planted(below, parts, from + 1, value).unwrap();
                lemma_found_wf(members, name);
                lemma_planted_is_reached(below, parts, from + 1, value);
                lemma_lookup_put(members, name, next, name);
                assert(step(tree, parts[from]) == Some(next));
            },
            Segment::Item(name, index) => {
                let items = lookup(members, name).unwrap()->Array_0;
                let next = planted(items[index as int], parts, from + 1, value).unwrap();
                lemma_found_wf(members, name);
                assert(items[index as int].wf());
                lemma_planted_is_reached(items[index as int], parts, from + 1, value);
                lemma_lookup_put(
                    members,
                    name,
                    Json::Array(items.update(index as int, next)),
                    name,
                );
                assert(step(tree, parts[from]) == Some(next));
            },
            Segment::Malformed => {},
        }
    }
}

/// Two parts lead to different places from where they start: to members
/// of different names, or to different items of one list.
pub open spec fn part_ways(a: Segment, b: Segment) -> bool {
    match (a, b) {
        (Segment::Field(x), Segment::Field(y)) => x != y,
        (Segment::Field(x), Segment::Item(y, _)) => x != y,
        (Segment::Item(x, _), Segment::Field(y)) => x != y,
        (Segment::Item(x, i), Segment::Item(y, j)) => x != y || i != j,
        _ => false,
    }
}

/// Two paths go the same way up to the part at position `k`, and part
/// ways there.
pub open spec fn diverging_at(p: Seq<Seq<char>>, q: Seq<Seq<char>>, k: int) -> bool {
    &&& 0 <= k < p.len()
    &&& k < q.len()
    &&& part_ways(segment_of(p[k]), segment_of(q[k]))
    &&& forall|j: int| 0 <= j < k ==> segment_of(#[trigger] p[j]) == segment_of(q[j])
}

/// Two paths part ways somewhere: neither leads to or through the place
/// that the other leads to.
pub open spec fn diverging(p: Seq<Seq<char>>, q: Seq<Seq<char>>) -> bool {
    exists|k: int| diverging_at(p, q, k)
}

/// What the parts of `p` lead to is not touched by planting at a path
/// that parts ways with `p`.
pub proof fn lemma_planted_elsewhere(
    current: Json,
    p: Seq<Seq<char>>,
    q: Seq<Seq<char>>,
    from: int,
    k: int,
    value: Json,
)
    requires
        current.wf(),
        0 <= from <= k,
        diverging_at(p, q, k),
        planted(current, q, from, value) is Some,
    ensures
        walk(planted(current, q, from, value).unwrap(), p, from) == walk(current, p, from),
    decreases k - from,
{
    let members = current->Object_0;
    let tree = planted(current, q, from, value).unwrap();
    let there = segment_of(q[from]);
    let here = segment_of(p[from]);
    if from == k {
        match there {
            Segment::Field(name) => {
                let below = match lookup(members, name) {
                    Some(v) => v,
                    None => Json::Object(Seq::empty()),
                };
                let next = planted(below, q, from + 1, value).unwrap();
                match here {
                    Segment::Field(other) => {
                        lemma_lookup_put(members, name, next, other);
                    },
                    Segment::Item(other, _) => {
                        lemma_lookup_put(members, name, next, other);
                    },
                    Segment::Malformed => {},
                }
                assert(step(tree, p[from]) == step(current, p[from]));
            },
            Segment::Item(name, index) => {
                let items = lookup(members, name).unwrap()->Array_0;
                let next = planted(items[index as int], q, from + 1, value).unwrap();
                let grown = Json::Array(items.update(index as int, next));
                match here {
                    Segment::Field(other) => {
                        lemma_lookup_put(members, name, grown, other);
                    },
                    Segment::Item(other, at) => {
                        lemma_lookup_put(members, name, grown, other);
                    },
                    Segment::Malformed => {},
                }
                assert(step(tree, p[from]) == step(current, p[from]));
            },
            Segment::Malformed => {},
        }
    } else {
        assert(segment_of(p[from]) == segment_of(q[from]));
        match there {
            Segment::Field(name) => {
                let below = match lookup(members, name) {
                    Some(v) => v,
                    None => Json::Object(Seq::empty()),
                };
                let next = planted(below, q, from + 1, value).unwrap();
                lemma_found_wf(members, name);
                lemma_planted_elsewhere(below, p, q, from + 1, k, value);
                lemma_lookup_put(members, name, next, name);
                assert(step(tree, p[from]) == Some(next));
                if lookup(members, name) is None {
                    // nothing stands below a mapping without members
                    assert(step(below, p[from + 1]) is None);
                }
            },
            Segment::Item(name, index) => {
                let items = lookup(members, name).unwrap()->Array_0;
                let next = planted(items[index as int], q, from + 1, value).unwrap();
                let grown = Json::Array(items.update(index as int, next));
                lemma_found_wf(members, name);
                assert(items[index as int].wf());
                lemma_planted_elsewhere(items[index as int], p, q, from + 1, k, value);
                lemma_lookup_put(members, name, grown, name);
                assert(step(tree, p[from]) == Some(next));
            },
            Segment::Malformed => {},
        }
    }
}

/// The parts of the path of the entry at position `i`.
pub open spec fn parts_at(entries: Seq<(Seq<char>, Json)>, i: int) -> Seq<Seq<char>> {
    split_on(entries[i].0, seq!['.'])
}

/// The entry at position `j` is planted when its turn comes: its path
/// leads somewhere in the tree as it then is.
pub open spec fn planted_in_turn(entries: Seq<(Seq<char>, Json)>, j: int) -> bool {
    planted(
        with_entries(Json::Object(entries), entries, j as nat),
        parts_at(entries, j),
        0,
        entries[j].1,
    ) is Some
}

/// The trees on the way to the tree of a store are well formed.
pub proof fn lemma_with_entries_wf(entries: Seq<(Seq<char>, Json)>, n: nat)
    requires
        members_wf(entries),
    ensures
        with_entries(Json::Object(entries), entries, n).wf(),
    decreases n,
{
    if n != 0 && n <= entries.len() {
        lemma_with_entries_wf(entries, (n - 1) as nat);
        assert(entries[n - 1].1.wf());
        lemma_planted_wf(
            with_entries(Json::Object(entries), entries, (n - 1) as nat),
            parts_at(entries, n - 1),
            0,
            entries[n - 1].1,
        );
    }
}

/// The tree holds a value of the store where its path leads, as far as
/// the first `n` entries are planted: the entry at position `i` was
/// planted in its turn, and each entry planted after it parts ways with
/// it.
proof fn lemma_reached_so_far(entries: Seq<(Seq<char>, Json)>, i: int, n: nat)
    requires
        members_wf(entries),
        0 <= i < n <= entries.len(),
        planted_in_turn(entries, i),
        forall|j: int|
            i < j < entries.len() && #[trigger] planted_in_turn(entries, j) ==> diverging(
                parts_at(entries, i),
                parts_at(entries, j),
            ),
    ensures
        walk(with_entries(Json::Object(entries), entries, n), parts_at(entries, i), 0) == Some(
            entries[i].1,
        ),
    decreases n,
{
    let root = Json::Object(entries);
    let before = with_entries(root, entries, (n - 1) as nat);
    lemma_with_entries_wf(entries, (n - 1) as nat);
    if n == i + 1 {
        lemma_planted_is_reached(before, parts_at(entries, i), 0, entries[i].1);
    } else {
        lemma_reached_so_far(entries, i, (n - 1) as nat);
        let j = n - 1;
        if planted_in_turn(entries, j) {
            let k = choose|k: int| diverging_at(parts_at(entries, i), parts_at(entries, j), k);
            lemma_planted_elsewhere(
                before,
                parts_at(entries, i),
                parts_at(entries, j),
                0,
                k,
                entries[j].1,
            );
        }
    }
}

/// The tree of a store holds a value of the store where its path leads:
/// going down the tree by the parts of the path reaches the value. This
/// holds of every entry that was planted in its turn, provided that each
/// entry planted after it parts ways with it.
pub proof fn lemma_tree_reaches(entries: Seq<(Seq<char>, Json)>, i: int)
    requires
        members_wf(entries),
        0 <= i < entries.len(),
        planted_in_turn(entries, i),
        forall|j: int|
            i < j < entries.len() && #[trigger] planted_in_turn(entries, j) ==> diverging(
                parts_at(entries, i),
                parts_at(entries, j),
            ),
    ensures
        walk(tree_of(entries), parts_at(entries, i), 0) == Some(entries[i].1),
{
    lemma_reached_so_far(entries, i, entries.len());
}

/// Putting under a key the value that stands there changes nothing.
proof fn lemma_put_same(members: Seq<(Seq<char>, Json)>, key: Seq<char>)
    requires
        sorted_keys(members),
        lookup(members, key) is Some,
    ensures
        put(members, key, lookup(members, key).unwrap()) == members,
{
    lemma_put_map(members, key, lookup(members, key).unwrap());
    lemma_rank_bounds(members, key);
    let p = rank(members, key);
    assert(has_key(members, key));
    lemma_lookup_at(members, p);
    assert(put(members, key, lookup(members, key).unwrap()) =~= members);
}

/// Planting a value where it already stands changes nothing.
pub proof fn lemma_planted_in_place(current: Json, parts: Seq<Seq<char>>, from: int, value: Json)
    requires
        current.wf(),
        0 <= from,
        walk(current, parts, from) == Some(value),
    ensures
        planted(current, parts, from, value) == Some(current),
    decreases parts.len() - from,
{
    if from < parts.len() {
        let members = current->Object_0;
        match segment_of(parts[from]) {
            Segment::Field(name) => {
                let below = lookup(members, name).unwrap();
                lemma_found_wf(members, name);
                lemma_planted_in_place(below, parts, from + 1, value);
                lemma_put_same(members, name);
            },
            Segment::Item(name, index) => {
                let items = lookup(members, name).unwrap()->Array_0;
                lemma_found_wf(members, name);
                assert(items[index as int].wf());
                lemma_planted_in_place(items[index as int], parts, from + 1, value);
                assert(items.update(index as int, items[index as int]) =~= items);
                lemma_put_same(members, name);
            },
            Segment::Malformed => {},
        }
    }
}

/// Every value of the store already stands where its path leads from
/// the store as one mapping.
pub open spec fn settled(entries: Seq<(Seq<char>, Json)>) -> bool {
    forall|i: int|
        0 <= i < entries.len() ==> walk(Json::Object(entries), #[trigger] parts_at(entries, i), 0)
            == Some(entries[i].1)
}

/// Where every value already stands where its path leads, planting the
/// first `n` entries changes nothing.
proof fn lemma_settled_so_far(entries: Seq<(Seq<char>, Json)>, n: nat)
    requires
        members_wf(entries),
        settled(entries),
        n <= entries.len(),
    ensures
        with_entries(Json::Object(entries), entries, n) == Json::Object(entries),
    decreases n,
{
    if n > 0 {
        lemma_settled_so_far(entries, (n - 1) as nat);
        assert(walk(Json::Object(entries), parts_at(entries, n - 1), 0) == Some(entries[n - 1].1));
        lemma_planted_in_place(
            Json::Object(entries),
            parts_at(entries, n - 1),
            0,
            entries[n - 1].1,
        );
    }
}

/// A store in which every value already stands where its path leads is
/// its own tree: templates are rendered against the store as one
/// mapping.
pub proof fn lemma_settled_tree(entries: Seq<(Seq<char>, Json)>)
    requires
        members_wf(entries),
        settled(entries),
    ensures
        tree_of(entries) == Json::Object(entries),
{
    lemma_settled_so_far(entries, entries.len());
}

/// Rendering reads what the store resolves: going down the tree by the
/// parts of a path of the store reaches what the store resolves the
/// path to. This holds of every entry that was planted in its turn,
/// provided that each entry planted after it parts ways with it.
pub proof fn lemma_tree_resolves(entries: Seq<(Seq<char>, Json)>, i: int)
    requires
        members_wf(entries),
        0 <= i < entries.len(),
        planted_in_turn(entries, i),
        forall|j: int|
            i < j < entries.len() && #[trigger] planted_in_turn(entries, j) ==> diverging(
                parts_at(entries, i),
                parts_at(entries, j),
            ),
    ensures
        walk(tree_of(entries), parts_at(entries, i), 0) == resolve(
            Json::Object(entries),
            entries[i].0,
        ),
{
    lemma_tree_reaches(entries, i);
    lemma_lookup_at(entries, i);
}

/// In a store in which every value already stands where its path leads,
/// rendering reads what the store resolves, whatever the path: going
/// down the tree by the parts of a path reaches what the store resolves
/// the path to.
pub proof fn lemma_settled_resolves(entries: Seq<(Seq<char>, Json)>, path: Seq<char>)
    requires
        members_wf(entries),
        settled(entries),
    ensures
        walk(tree_of(entries), split_on(path, seq!['.']), 0) == resolve(
            Json::Object(entries),
            path,
        ),
{
    lemma_settled_tree(entries);
    let root = Json::Object(entries);
    if has_key(entries, path) {
        let i = choose|i: int| 0 <= i < entries.len() && #[trigger] entries[i].0 == path;
        lemma_lookup_at(entries, i);
        assert(parts_at(entries, i) == split_on(path, seq!['.']));
        assert(walk(root, parts_at(entries, i), 0) == Some(entries[i].1));
        assert(root.field(path) == Some(entries[i].1));
    } else {
        assert(root.field(path) is None);
    }
}

} // verus!
