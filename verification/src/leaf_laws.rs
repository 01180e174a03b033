//! What holds of the leaves of a store whose paths are plain names
//! joined by dots: a leaf that was planted in the tree of the store stays
//! where its path leads, whatever else the store holds.

use vstd::prelude::*;
use crate::navigation::{dotted, lemma_no_bracket_found, lemma_split_on_dotted, no_dot};
use crate::nesting::{planted, tree_of, with_entries};
use crate::path::{segment_of, step, walk, Segment};
use crate::text::{
    find_from, lemma_find_from, lemma_lex_lt_irreflexive, lemma_lex_lt_transitive, lex_lt,
    split_from, split_on,
};
use crate::tree_laws::{
    diverging_at, lemma_found_wf, lemma_lookup_put, lemma_planted_elsewhere,
    lemma_planted_is_reached, lemma_with_entries_wf, part_ways, parts_at, planted_in_turn,
};
use crate::value::{has_key, lemma_lookup_at, lemma_wf_parts, lookup, members_wf, put, Json};
use crate::variable_context::resolve;

verus! {

/// A plain name: without dot and opening bracket.
pub open spec fn plain_name(name: Seq<char>) -> bool {
    forall|i: int| 0 <= i < name.len() ==> name[i] != '.' && name[i] != '['
}

/// Every one of the names is plain.
pub open spec fn plain_names(names: Seq<Seq<char>>) -> bool {
    forall|i: int| 0 <= i < names.len() ==> plain_name(#[trigger] names[i])
}

/// The parts of `q` lead to the place that the parts of `p` lead to, or
/// to a place on the way there.
pub open spec fn leads_above(q: Seq<Seq<char>>, p: Seq<Seq<char>>) -> bool {
    q.len() <= p.len() && forall|j: int|
        0 <= j < q.len() ==> segment_of(#[trigger] q[j]) == segment_of(p[j])
}

/// A plain name asks for the member of that name.
proof fn lemma_plain_name_is_field(name: Seq<char>)
    requires
        plain_name(name),
    ensures
        segment_of(name) == Segment::Field(name),
        no_dot(name),
{
    lemma_no_bracket_found(name, 0);
}

/// A text comes before every text that it opens and that is longer.
proof fn lemma_prefix_comes_first(a: Seq<char>, c: Seq<char>)
    requires
        c.len() > 0,
    ensures
        lex_lt(a, a + c),
    decreases a.len(),
{
    if a.len() > 0 {
        assert((a + c).drop_first() =~= a.drop_first() + c);
        lemma_prefix_comes_first(a.drop_first(), c);
    } else {
        assert(a + c =~= c);
    }
}

/// Names joined by dots are the first of them joined, a dot, and the
/// others joined.
proof fn lemma_dotted_parts(names: Seq<Seq<char>>, m: int)
    requires
        0 < m < names.len(),
    ensures
        dotted(names) == dotted(names.take(m)) + seq!['.'] + dotted(names.skip(m)),
    decreases m,
{
    let rest = names.drop_first();
    if m == 1 {
        assert(names.take(1) =~= seq![names[0]]);
        assert(names.skip(1) =~= rest);
    } else {
        lemma_dotted_parts(rest, m - 1);
        let head = names.take(m);
        assert(head.drop_first() =~= rest.take(m - 1));
        assert(rest.skip(m - 1) =~= names.skip(m));
        assert(head[0] == names[0]);
        assert(dotted(names) =~= names[0] + seq!['.'] + (dotted(rest.take(m - 1)) + seq!['.']
            + dotted(rest.skip(m - 1))));
        assert(dotted(head) =~= names[0] + seq!['.'] + dotted(rest.take(m - 1)));
    }
}

/// There is at least one piece.
proof fn lemma_split_from_len(s: Seq<char>, from: int)
    requires
        0 <= from <= s.len(),
    ensures
        split_from(s, seq!['.'], from).len() >= 1,
    decreases s.len() - from,
{
    let dot = seq!['.'];
    lemma_find_from(s, dot, from);
    match find_from(s, dot, from) {
        Some(at) => {
            if from <= at && at + dot.len() <= s.len() {
                lemma_split_from_len(s, at + 1);
            }
        },
        None => {},
    }
}

/// The pieces that the dots separate from position `from` on, joined by
/// dots, are the text from `from` on.
proof fn lemma_dotted_split_from(s: Seq<char>, from: int)
    requires
        0 <= from <= s.len(),
    ensures
        dotted(split_from(s, seq!['.'], from)) == s.subrange(from, s.len() as int),
    decreases s.len() - from,
{
    let dot = seq!['.'];
    lemma_find_from(s, dot, from);
    match find_from(s, dot, from) {
        Some(at) => {
            assert(s.subrange(at, at + 1) == dot);
            assert(s.subrange(at, at + 1)[0] == s[at]);
            let first = s.subrange(from, at);
            let rest = split_from(s, dot, at + 1);
            lemma_split_from_len(s, at + 1);
            lemma_dotted_split_from(s, at + 1);
            let all = seq![first] + rest;
            assert(all.drop_first() =~= rest);
            assert(all[0] == first);
            assert(dotted(all) == first + dot + dotted(rest));
            assert(first + dot + s.subrange(at + 1, s.len() as int) =~= s.subrange(
                from,
                s.len() as int,
            ));
        },
        None => {},
    }
}

/// The pieces that the dots of a text separate, joined by dots, are the
/// text.
pub proof fn lemma_dotted_split(s: Seq<char>)
    ensures
        dotted(split_on(s, seq!['.'])) == s,
        split_on(s, seq!['.']).len() >= 1,
{
    lemma_dotted_split_from(s, 0);
    lemma_split_from_len(s, 0);
    assert(s.subrange(0, s.len() as int) =~= s);
}

/// A leaf that the parts of `p`, all names of members, lead to stays
/// where it is when a value is planted where the parts of `q` lead,
/// unless these lead to the place of the leaf or to a place on the way
/// there.
proof fn lemma_leaf_stays(
    tree: Json,
    p: Seq<Seq<char>>,
    q: Seq<Seq<char>>,
    from: int,
    leaf: Json,
    value: Json,
)
    requires
        tree.wf(),
        0 <= from,
        forall|j: int| 0 <= j < p.len() ==> segment_of(#[trigger] p[j]) is Field,
        !leaf.is_composite(),
        walk(tree, p, from) == Some(leaf),
        planted(tree, q, from, value) is Some,
        !leads_above(q, p),
        forall|j: int|
            0 <= j < from ==> j < q.len() && j < p.len() && segment_of(#[trigger] q[j])
                == segment_of(p[j]),
    ensures
        walk(planted(tree, q, from, value).unwrap(), p, from) == Some(leaf),
    decreases p.len() - from,
{
    if from >= q.len() || from >= p.len() {
        // the parts of `q` would end at the place of the leaf or above
        if from >= q.len() {
            if from > 0 {
                assert(segment_of(q[from - 1]) == segment_of(p[from - 1]));
            }
            assert(leads_above(q, p));
        } else {
            assert(tree == leaf);
        }
    } else {
        let members = tree->Object_0;
        let after = planted(tree, q, from, value).unwrap();
        let here = segment_of(p[from]);
        let there = segment_of(q[from]);
        let name = here->Field_0;
        if part_ways(here, there) {
            assert(diverging_at(p, q, from)) by {
                assert forall|j: int| 0 <= j < from implies segment_of(#[trigger] p[j])
                    == segment_of(q[j]) by {
                    assert(segment_of(q[j]) == segment_of(p[j]));
                }
            }
            lemma_planted_elsewhere(tree, p, q, from, from, value);
        } else {
            match there {
                Segment::Field(other) => {
                    let below = lookup(members, name).unwrap();
                    let next = planted(below, q, from + 1, value).unwrap();
                    lemma_wf_parts(tree);
                    lemma_found_wf(members, name);
                    lemma_leaf_stays(below, p, q, from + 1, leaf, value);
                    lemma_lookup_put(members, name, next, name);
                    assert(step(after, p[from]) == Some(next));
                },
                Segment::Item(other, index) => {
                    // the parts of `p` would lead through a list by a name
                    let list = lookup(members, name).unwrap();
                    assert(list is Array);
                    if from + 1 < p.len() {
                        assert(segment_of(p[from + 1]) is Field);
                        assert(step(list, p[from + 1]) is None);
                    }
                },
                Segment::Malformed => {},
            }
        }
    }
}

/// An entry that comes after the entry under names joined by dots does
/// not lead to the place that the names lead to, nor to a place on the
/// way there.
proof fn lemma_later_leads_elsewhere(
    entries: Seq<(Seq<char>, Json)>,
    i: int,
    j: int,
    names: Seq<Seq<char>>,
)
    requires
        members_wf(entries),
        0 <= i < j < entries.len(),
        names.len() > 0,
        plain_names(names),
        entries[i].0 == dotted(names),
    ensures
        !leads_above(parts_at(entries, j), names),
{
    let q = parts_at(entries, j);
    let key = entries[j].0;
    lemma_dotted_split(key);
    assert(lex_lt(entries[i].0, entries[j].0));
    if leads_above(q, names) {
        let m = q.len() as int;
        assert forall|k: int| 0 <= k < m implies q[k] == names[k] by {
            lemma_plain_name_is_field(names[k]);
            assert(segment_of(q[k]) == segment_of(names[k]));
        }
        assert(q =~= names.take(m));
        if m == names.len() {
            assert(names.take(m) =~= names);
            lemma_lex_lt_irreflexive(key);
        } else {
            lemma_dotted_parts(names, m);
            assert(names.skip(m).len() > 0);
            let tail = seq!['.'] + dotted(names.skip(m));
            assert(dotted(names) =~= key + tail);
            lemma_prefix_comes_first(key, tail);
            lemma_lex_lt_transitive(key, entries[i].0, key);
            lemma_lex_lt_irreflexive(key);
        }
    }
}

/// The leaf stays where the names lead while the first `n` entries are
/// planted.
proof fn lemma_leaf_so_far(entries: Seq<(Seq<char>, Json)>, i: int, names: Seq<Seq<char>>, n: nat)
    requires
        members_wf(entries),
        0 <= i < n <= entries.len(),
        names.len() > 0,
        plain_names(names),
        entries[i].0 == dotted(names),
        !entries[i].1.is_composite(),
        planted_in_turn(entries, i),
    ensures
        walk(with_entries(Json::Object(entries), entries, n), names, 0) == Some(entries[i].1),
    decreases n,
{
    let root = Json::Object(entries);
    let before = with_entries(root, entries, (n - 1) as nat);
    lemma_with_entries_wf(entries, (n - 1) as nat);
    assert forall|k: int| 0 <= k < names.len() implies no_dot(#[trigger] names[k]) by {
        lemma_plain_name_is_field(names[k]);
    }
    lemma_split_on_dotted(names);
    if n == i + 1 {
        lemma_planted_is_reached(before, parts_at(entries, i), 0, entries[i].1);
    } else {
        lemma_leaf_so_far(entries, i, names, (n - 1) as nat);
        let j = n - 1;
        if planted_in_turn(entries, j) {
            lemma_later_leads_elsewhere(entries, i, j, names);
            assert forall|k: int| 0 <= k < names.len() implies segment_of(#[trigger] names[k])
                is Field by {
                lemma_plain_name_is_field(names[k]);
            }
            lemma_leaf_stays(before, names, parts_at(entries, j), 0, entries[i].1, entries[j].1);
        }
    }
}

/// The law of the leaves. Let a store hold a value that is neither list
/// nor mapping under plain names joined by dots, and let that value be
/// planted when its turn comes. Then, whatever else the store holds,
/// going down the tree of the store by the names reaches that value,
/// which is what the store resolves the path to: a template that names
/// the path is rendered with the value that the store holds under it.
pub proof fn lemma_leaf_is_reached(entries: Seq<(Seq<char>, Json)>, i: int, names: Seq<Seq<char>>)
    requires
        members_wf(entries),
        0 <= i < entries.len(),
        names.len() > 0,
        plain_names(names),
        entries[i].0 == dotted(names),
        !entries[i].1.is_composite(),
        planted_in_turn(entries, i),
    ensures
        walk(tree_of(entries), names, 0) == Some(entries[i].1),
        resolve(Json::Object(entries), dotted(names)) == Some(entries[i].1),
{
    lemma_leaf_so_far(entries, i, names, entries.len());
    lemma_lookup_at(entries, i);
}

/// The way to the place that the names from position `from` on lead to
/// is open: on the way there stand mappings, or nothing yet.
pub open spec fn way_open(tree: Json, names: Seq<Seq<char>>, from: int) -> bool
    decreases names.len() - from,
{
    if from < 0 || from >= names.len() {
        true
    } else {
        tree is Object && match lookup(tree->Object_0, names[from]) {
            None => true,
            Some(below) => from + 1 == names.len() || way_open(below, names, from + 1),
        }
    }
}

/// The parts of `q` end at the place that the first `m` of the names
/// lead to.
pub open spec fn ends_at(q: Seq<Seq<char>>, names: Seq<Seq<char>>, m: int) -> bool {
    q.len() == m && m <= names.len() && forall|j: int|
        0 <= j < m ==> segment_of(#[trigger] q[j]) == segment_of(names[j])
}

/// Where the way is open, a value can be planted at the end of it.
proof fn lemma_open_way_plants(tree: Json, names: Seq<Seq<char>>, from: int, value: Json)
    requires
        0 <= from,
        plain_names(names),
        way_open(tree, names, from),
    ensures
        planted(tree, names, from, value) is Some,
    decreases names.len() - from,
{
    if from < names.len() {
        lemma_plain_name_is_field(names[from]);
        let members = tree->Object_0;
        match lookup(members, names[from]) {
            None => {
                let fresh = Json::Object(Seq::empty());
                assert(lookup(Seq::<(Seq<char>, Json)>::empty(), names[from + 1]) is None) by {
                    assert(!has_key(Seq::<(Seq<char>, Json)>::empty(), names[from + 1]));
                }
                assert(way_open(fresh, names, from + 1));
                lemma_open_way_plants(fresh, names, from + 1, value);
            },
            Some(below) => {
                if from + 1 < names.len() {
                    lemma_open_way_plants(below, names, from + 1, value);
                }
            },
        }
    }
}

/// The way stays open when a value is planted where the parts of `q`
/// lead, unless these end at a place on the way.
proof fn lemma_way_stays_open(
    tree: Json,
    names: Seq<Seq<char>>,
    q: Seq<Seq<char>>,
    from: int,
    value: Json,
)
    requires
        tree.wf(),
        0 <= from,
        plain_names(names),
        way_open(tree, names, from),
        planted(tree, q, from, value) is Some,
        from < q.len(),
        forall|m: int| 0 < m < names.len() ==> !ends_at(q, names, m),
        forall|j: int|
            0 <= j < from ==> j < names.len() && segment_of(#[trigger] q[j]) == segment_of(
                names[j],
            ),
    ensures
        way_open(planted(tree, q, from, value).unwrap(), names, from),
    decreases names.len() - from,
{
    if from < names.len() {
        lemma_plain_name_is_field(names[from]);
        lemma_wf_parts(tree);
        let members = tree->Object_0;
        let after = planted(tree, q, from, value).unwrap();
        let name = names[from];
        match segment_of(q[from]) {
            Segment::Field(other) => {
                let below = match lookup(members, other) {
                    Some(v) => v,
                    None => Json::Object(Seq::empty()),
                };
                let next = planted(below, q, from + 1, value).unwrap();
                lemma_lookup_put(members, other, next, name);
                assert(after == Json::Object(put(members, other, next)));
                if other == name {
                    assert(lookup(after->Object_0, name) == Some(next));
                    if from + 1 < names.len() {
                        if from + 1 >= q.len() {
                            // the parts of `q` would end on the way
                            assert(ends_at(q, names, from + 1)) by {
                                assert forall|j: int| 0 <= j < from + 1 implies segment_of(
                                    #[trigger] q[j],
                                ) == segment_of(names[j]) by {}
                            }
                        } else {
                            lemma_found_wf(members, other);
                            if lookup(members, other) is None {
                                assert(lookup(
                                    Seq::<(Seq<char>, Json)>::empty(),
                                    names[from + 1],
                                ) is None) by {
                                    assert(!has_key(
                                        Seq::<(Seq<char>, Json)>::empty(),
                                        names[from + 1],
                                    ));
                                }
                            }
                            assert(way_open(below, names, from + 1));
                            lemma_way_stays_open(below, names, q, from + 1, value);
                            assert(way_open(next, names, from + 1));
                        }
                    }
                } else {
                    assert(lookup(after->Object_0, name) == lookup(members, name));
                }
            },
            Segment::Item(other, index) => {
                let items = lookup(members, other).unwrap()->Array_0;
                let next = planted(items[index as int], q, from + 1, value).unwrap();
                let grown = Json::Array(items.update(index as int, next));
                lemma_lookup_put(members, other, grown, name);
                assert(after == Json::Object(put(members, other, grown)));
                if other == name {
                    assert(lookup(after->Object_0, name) == Some(grown));
                    if from + 1 < names.len() {
                        assert(!way_open(lookup(members, name).unwrap(), names, from + 1));
                    }
                } else {
                    assert(lookup(after->Object_0, name) == lookup(members, name));
                }
            },
            Segment::Malformed => {},
        }
    }
}

/// No place on the way to where the names lead is the place of an entry
/// of the store: the store holds nothing under the first names joined by
/// dots, however many of them are taken, short of all.
pub open spec fn nothing_on_the_way(entries: Seq<(Seq<char>, Json)>, names: Seq<Seq<char>>) -> bool {
    forall|m: int| 0 < m < names.len() ==> !has_key(entries, #[trigger] dotted(names.take(m)))
}

/// An entry of a store that holds nothing on the way does not end at a
/// place on the way.
proof fn lemma_ends_elsewhere(
    entries: Seq<(Seq<char>, Json)>,
    j: int,
    names: Seq<Seq<char>>,
    m: int,
)
    requires
        0 <= j < entries.len(),
        0 < m < names.len(),
        plain_names(names),
        nothing_on_the_way(entries, names),
    ensures
        !ends_at(parts_at(entries, j), names, m),
{
    let q = parts_at(entries, j);
    if ends_at(q, names, m) {
        lemma_dotted_split(entries[j].0);
        assert forall|k: int| 0 <= k < m implies q[k] == names[k] by {
            lemma_plain_name_is_field(names[k]);
            assert(segment_of(q[k]) == segment_of(names[k]));
        }
        assert(q =~= names.take(m));
        assert(entries[j].0 == dotted(names.take(m)));
        assert(has_key(entries, dotted(names.take(m))));
    }
}

/// The way to where the names lead is open while the first `n` entries
/// of a store that holds nothing on the way are planted.
proof fn lemma_way_open_so_far(entries: Seq<(Seq<char>, Json)>, names: Seq<Seq<char>>, n: nat)
    requires
        members_wf(entries),
        n <= entries.len(),
        names.len() > 0,
        plain_names(names),
        nothing_on_the_way(entries, names),
    ensures
        way_open(with_entries(Json::Object(entries), entries, n), names, 0),
    decreases n,
{
    let root = Json::Object(entries);
    if n == 0 {
        if names.len() > 1 {
            assert(names.take(1) =~= seq![names[0]]);
            assert(dotted(names.take(1)) == names[0]);
            assert(!has_key(entries, names[0]));
        }
    } else {
        let before = with_entries(root, entries, (n - 1) as nat);
        let j = n - 1;
        lemma_way_open_so_far(entries, names, (n - 1) as nat);
        lemma_with_entries_wf(entries, (n - 1) as nat);
        if planted_in_turn(entries, j) {
            lemma_dotted_split(entries[j].0);
            assert forall|m: int| 0 < m < names.len() implies !ends_at(
                parts_at(entries, j),
                names,
                m,
            ) by {
                lemma_ends_elsewhere(entries, j, names, m);
            }
            lemma_way_stays_open(before, names, parts_at(entries, j), 0, entries[j].1);
        }
    }
}

/// The law of the leaves for a store that holds nothing on the way. Let
/// a store hold a value that is neither list nor mapping under plain
/// names joined by dots, and nothing under the first of these names
/// joined by dots, however many of them are taken, short of all. Then
/// going down the tree of the store by the names reaches that value,
/// which is what the store resolves the path to: a template that names
/// the path is rendered with the value that the store holds under it,
/// whatever else the store holds.
pub proof fn lemma_leaf_is_rendered(entries: Seq<(Seq<char>, Json)>, i: int, names: Seq<Seq<char>>)
    requires
        members_wf(entries),
        0 <= i < entries.len(),
        names.len() > 0,
        plain_names(names),
        entries[i].0 == dotted(names),
        !entries[i].1.is_composite(),
        nothing_on_the_way(entries, names),
    ensures
        walk(tree_of(entries), names, 0) == Some(entries[i].1),
        resolve(Json::Object(entries), dotted(names)) == Some(entries[i].1),
{
    lemma_way_open_so_far(entries, names, i as nat);
    assert forall|k: int| 0 <= k < names.len() implies no_dot(#[trigger] names[k]) by {
        lemma_plain_name_is_field(names[k]);
    }
    lemma_split_on_dotted(names);
    lemma_open_way_plants(
        with_entries(Json::Object(entries), entries, i as nat),
        names,
        0,
        entries[i].1,
    );
    lemma_leaf_is_reached(entries, i, names);
}

} // verus!
