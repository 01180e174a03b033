//! The variable space as one tree. A store holds its values under path
//! strings; a template reaches a value by going down from the root, part
//! by part. So each value of the store is planted in the tree where its
//! path leads: `blueprint.name` becomes the member `name` of the member
//! `blueprint`, whether or not the store holds `blueprint` itself.

use vstd::prelude::*;
use crate::path::{lemma_item_beyond, read_part, segment_of, PathPart, Segment};
use crate::text::{
    chars_of, lemma_lex_lt_irreflexive, lemma_lex_lt_total, lemma_lex_lt_transitive, lex_lt,
    parts_view, split_on, split_text, str_lt,
};
use crate::value::{
    insert_member, items_view, lemma_lookup_at, lemma_lookup_none, lemma_put_sorted, lemma_rank,
    lemma_view_array, lemma_view_object, lemma_wf_parts, lookup, lower_bound, members_view, put,
    rank, sorted_keys, Json, JsonValue,
};
use crate::variable_context::VariableContext;

verus! {

/// `current` with `value` planted where the parts from position `from` on
/// lead. A part that names a member leads to that member, which is made
/// if it is not there; a part that names an item of a list leads to that
/// item, which must be there. Nothing can be planted below a value that
/// is no mapping, nor where a part is malformed.
pub open spec fn planted(current: Json, parts: Seq<Seq<char>>, from: int, value: Json) -> Option<
    Json,
>
    decreases parts.len() - from,
{
    if from < 0 || from >= parts.len() {
        Some(value)
    } else {
        match current {
            Json::Object(members) => match segment_of(parts[from]) {
                Segment::Field(name) => {
                    let below = match lookup(members, name) {
                        Some(v) => v,
                        None => Json::Object(Seq::empty()),
                    };
                    match planted(below, parts, from + 1, value) {
                        Some(next) => Some(Json::Object(put(members, name, next))),
                        None => None,
                    }
                },
                Segment::Item(name, index) => match lookup(members, name) {
                    Some(Json::Array(items)) => if index < items.len() {
                        match planted(items[index as int], parts, from + 1, value) {
                            Some(next) => Some(
                                Json::Object(
                                    put(members, name, Json::Array(items.update(index as int, next))),
                                ),
                            ),
                            None => None,
                        }
                    } else {
                        None
                    },
                    _ => None,
                },
                Segment::Malformed => None,
            },
            _ => None,
        }
    }
}

/// `tree` after one entry of a store was planted in it, or as it was
/// where the path of the entry leads nowhere.
pub open spec fn with_entry(tree: Json, path: Seq<char>, value: Json) -> Json {
    match planted(tree, split_on(path, seq!['.']), 0, value) {
        Some(next) => next,
        None => tree,
    }
}

/// `tree` after the first `n` of the entries were planted in it, in
/// their order.
pub open spec fn with_entries(tree: Json, entries: Seq<(Seq<char>, Json)>, n: nat) -> Json
    decreases n,
{
    if n == 0 || n > entries.len() {
        tree
    } else {
        with_entry(
            with_entries(tree, entries, (n - 1) as nat),
            entries[n - 1].0,
            entries[n - 1].1,
        )
    }
}

/// The tree of a store: the mapping from its paths to its values, with
/// each value also planted where its path leads. The entries are planted
/// in the order of their paths, so a value planted under a longer path
/// stands inside the value planted under a shorter one.
pub open spec fn tree_of(entries: Seq<(Seq<char>, Json)>) -> Json {
    with_entries(Json::Object(entries), entries, entries.len())
}

/// Where the members hold `key`: its rank, and whether it stands there.
fn place_of(members: &Vec<(String, JsonValue)>, key: &str) -> (r: (usize, bool))
    requires
        sorted_keys(members_view(members@)),
    ensures
        r.0 <= members.len(),
        r.0 == rank(members_view(members@), key@),
        r.1 ==> r.0 < members.len() && members@[r.0 as int].0@ == key@ && lookup(
            members_view(members@),
            key@,
        ) == Some(members@[r.0 as int].1@),
        !r.1 ==> lookup(members_view(members@), key@) is None,
{
    let p = lower_bound(members, key);
    let ghost mv = members_view(members@);
    proof {
        assert forall|i: int| 0 <= i < p implies lex_lt((#[trigger] mv[i]).0, key@) by {
            assert(lex_lt(members@[i].0@, key@));
        }
        assert forall|i: int| p <= i < mv.len() implies !lex_lt((#[trigger] mv[i]).0, key@) by {
            assert(!lex_lt(members@[i].0@, key@));
        }
        lemma_rank(mv, key@, p as int);
    }
    if p < members.len() && !str_lt(key, members[p].0.as_str()) {
        proof {
            lemma_lex_lt_total(key@, mv[p as int].0);
            lemma_lookup_at(mv, p as int);
        }
        (p, true)
    } else {
        proof {
            assert forall|i: int| 0 <= i < mv.len() implies (#[trigger] mv[i]).0 != key@ by {
                lemma_lex_lt_irreflexive(key@);
                if i > p {
                    assert(lex_lt(mv[p as int].0, mv[i].0));
                    if mv[i].0 == key@ {
                        lemma_lex_lt_transitive(key@, mv[p as int].0, mv[i].0);
                    }
                } else if i < p {
                    assert(lex_lt(members@[i].0@, key@));
                }
            }
            lemma_lookup_none(mv, key@);
        }
        (p, false)
    }
}

/// Plants `value` in `current` where the parts from position `from` on
/// lead, and says whether it could. Where it could not, `current` comes
/// back as it was.
pub fn plant(current: JsonValue, parts: &Vec<Vec<char>>, from: usize, value: JsonValue) -> (r: (
    JsonValue,
    bool,
))
    requires
        current@.wf(),
        value@.wf(),
        from <= parts.len(),
    ensures
        r.0@.wf(),
        match planted(current@, parts_view(parts@), from as int, value@) {
            Some(tree) => r.1 && r.0@ == tree,
            None => !r.1 && r.0@ == current@,
        },
    decreases parts.len() - from,
{
    if from >= parts.len() {
        return (value, true);
    }
    let ghost whole = current@;
    let ghost texts = parts_view(parts@);
    assert(texts[from as int] == parts@[from as int]@);
    match current {
        JsonValue::Object(members) => {
            let mut members = members;
            proof {
                lemma_view_object(members);
                lemma_wf_parts(whole);
            }
            let ghost before = members_view(members@);
            match read_part(&parts[from]) {
                PathPart::Field(name) => {
                    let (p, present) = place_of(&members, name.as_str());
                    if present {
                        let (key, below) = members.remove(p);
                        assert(below@ == before[p as int].1);
                        assert(below@.wf());
                        let (next, done) = plant(below, parts, from + 1, value);
                        members.insert(p, (key, next));
                        proof {
                            lemma_view_object(members);
                            if done {
                                lemma_put_sorted(before, name@, next@);
                                assert(members_view(members@) =~= put(before, name@, next@));
                            } else {
                                assert(members_view(members@) =~= before);
                            }
                            assert forall|i: int|
                                0 <= i < members@.len() implies (#[trigger] members_view(
                                members@,
                            )[i]).1.wf() by {
                                if i != p {
                                    assert(members_view(members@)[i] == before[i]);
                                }
                            }
                        }
                        (JsonValue::Object(members), done)
                    } else {
                        let (next, done) = plant(JsonValue::empty_object(), parts, from + 1, value);
                        if done {
                            insert_member(&mut members, name, next);
                        }
                        proof {
                            lemma_view_object(members);
                        }
                        (JsonValue::Object(members), done)
                    }
                },
                PathPart::Item(name, index) => {
                    let (p, present) = place_of(&members, name.as_str());
                    if !present {
                        return (JsonValue::Object(members), false);
                    }
                    let (key, list) = members.remove(p);
                    assert(list@ == before[p as int].1);
                    assert(list@.wf());
                    match list {
                        JsonValue::Array(items) => {
                            let mut items = items;
                            proof {
                                lemma_view_array(items);
                                lemma_wf_parts(list@);
                            }
                            let ghost listed = items_view(items@);
                            if index < items.len() {
                                let below = items.remove(index);
                                assert(below@ == listed[index as int]);
                                let (next, done) = plant(below, parts, from + 1, value);
                                items.insert(index, next);
                                proof {
                                    lemma_view_array(items);
                                    if done {
                                        assert(items_view(items@) =~= listed.update(
                                            index as int,
                                            next@,
                                        ));
                                    } else {
                                        assert(items_view(items@) =~= listed);
                                    }
                                    assert forall|i: int|
                                        0 <= i < items@.len() implies (#[trigger] items_view(
                                        items@,
                                    )[i]).wf() by {
                                        if i != index {
                                            assert(items_view(items@)[i] == listed[i]);
                                        }
                                    }
                                }
                                let grown = JsonValue::Array(items);
                                members.insert(p, (key, grown));
                                proof {
                                    lemma_view_object(members);
                                    if done {
                                        lemma_put_sorted(before, name@, grown@);
                                        assert(members_view(members@) =~= put(
                                            before,
                                            name@,
                                            grown@,
                                        ));
                                    } else {
                                        assert(members_view(members@) =~= before);
                                    }
                                    assert forall|i: int|
                                        0 <= i < members@.len() implies (#[trigger] members_view(
                                        members@,
                                    )[i]).1.wf() by {
                                        if i != p {
                                            assert(members_view(members@)[i] == before[i]);
                                        }
                                    }
                                }
                                (JsonValue::Object(members), done)
                            } else {
                                members.insert(p, (key, JsonValue::Array(items)));
                                proof {
                                    lemma_view_object(members);
                                    assert(members_view(members@) =~= before);
                                }
                                (JsonValue::Object(members), false)
                            }
                        },
                        other => {
                            members.insert(p, (key, other));
                            proof {
                                lemma_view_object(members);
                                assert(members_view(members@) =~= before);
                            }
                            (JsonValue::Object(members), false)
                        },
                    }
                },
                PathPart::Nowhere => {
                    proof {
                        if let Segment::Item(name, index) = segment_of(texts[from as int]) {
                            if lookup(before, name) is Some {
                                lemma_item_beyond(&members, name, index);
                            }
                        }
                    }
                    (JsonValue::Object(members), false)
                },
            }
        },
        other => (other, false),
    }
}

/// The tree of a store.
pub fn nested(context: &VariableContext) -> (r: JsonValue)
    requires
        context.wf(),
    ensures
        r@ == tree_of(context.entries()),
        r@.wf(),
{
    let mut tree = context.as_value();
    let all = context.variables();
    let dot: Vec<char> = vec!['.'];
    assert(dot@ =~= seq!['.']);
    let mut i: usize = 0;
    while i < all.len()
        invariant
            i <= all.len(),
            context.wf(),
            members_view(all@) == context.entries(),
            dot@ == seq!['.'],
            tree@.wf(),
            tree@ == with_entries(context.root(), context.entries(), i as nat),
        decreases all.len() - i,
    {
        let path = chars_of(all[i].0.as_str());
        let parts = split_text(&path, &dot);
        proof {
            assert(context.entries()[i as int] == (all@[i as int].0@, all@[i as int].1@));
            assert(all@[i as int].1@.wf());
        }
        let (next, _) = plant(tree, &parts, 0, all[i].1.clone());
        tree = next;
        i += 1;
    }
    tree
}

} // verus!
