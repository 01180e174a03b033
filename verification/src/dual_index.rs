//! What flattening promises: every value inside a flattened value can be
//! read back under a path of its own.

use vstd::prelude::*;
use crate::flatten::{array_ops, entry_ops, flatten_ops, item_path, member_path, object_ops};
use crate::value::{inserted_all, lemma_lookup_some, lookup, Json};
use crate::variable_context::{resolve, VariableContext};

verus! {

/// One step down into a value.
pub enum PathStep {
    /// Into the member of that key.
    Key(Seq<char>),
    /// Into the item at that index.
    Index(nat),
}

/// The value one step down from `value`.
pub open spec fn descend(value: Json, step: PathStep) -> Option<Json> {
    match step {
        PathStep::Key(k) => value.field(k),
        PathStep::Index(i) => value.item(i as int),
    }
}

/// The value that `steps` lead to from `value`.
pub open spec fn reach(value: Json, steps: Seq<PathStep>) -> Option<Json>
    decreases steps.len(),
{
    if steps.len() == 0 {
        Some(value)
    } else {
        match descend(value, steps[0]) {
            Some(v) => reach(v, steps.drop_first()),
            None => None,
        }
    }
}

/// The path of what `steps` lead to from the value at `prefix`.
pub open spec fn path_of(prefix: Seq<char>, steps: Seq<PathStep>) -> Seq<char>
    decreases steps.len(),
{
    if steps.len() == 0 {
        prefix
    } else {
        let next = match steps[0] {
            PathStep::Key(k) => member_path(prefix, k),
            PathStep::Index(i) => item_path(prefix, i),
        };
        path_of(next, steps.drop_first())
    }
}

/// Some write of `ops` puts `value` under `path`.
pub open spec fn writes(ops: Seq<(Seq<char>, Json)>, path: Seq<char>, value: Json) -> bool {
    exists|i: int| 0 <= i < ops.len() && #[trigger] ops[i] == (path, value)
}

/// Writes to one path all carry one value.
pub open spec fn consistent(ops: Seq<(Seq<char>, Json)>) -> bool {
    forall|i: int, j: int|
        0 <= i < j < ops.len() && (#[trigger] ops[i]).0 == (#[trigger] ops[j]).0 ==> ops[i].1
            == ops[j].1
}

/// What one of two runs of writes writes, the two runs together write.
pub proof fn lemma_writes_concat(
    a: Seq<(Seq<char>, Json)>,
    b: Seq<(Seq<char>, Json)>,
    path: Seq<char>,
    value: Json,
)
    ensures
        writes(a, path, value) ==> writes(a + b, path, value),
        writes(b, path, value) ==> writes(a + b, path, value),
{
    if writes(a, path, value) {
        let i = choose|i: int| 0 <= i < a.len() && #[trigger] a[i] == (path, value);
        assert((a + b)[i] == (path, value));
    }
    if writes(b, path, value) {
        let i = choose|i: int| 0 <= i < b.len() && #[trigger] b[i] == (path, value);
        assert((a + b)[a.len() + i] == (path, value));
    }
}

proof fn lemma_object_ops_hold(
    prefix: Seq<char>,
    members: Seq<(Seq<char>, Json)>,
    n: nat,
    j: int,
    path: Seq<char>,
    value: Json,
)
    requires
        0 <= j < n <= members.len(),
        writes(entry_ops(member_path(prefix, members[j].0), members[j].1), path, value),
    ensures
        writes(object_ops(prefix, members, n), path, value),
    decreases n,
{
    let before = object_ops(prefix, members, (n - 1) as nat);
    let last = entry_ops(member_path(prefix, members[n - 1].0), members[n - 1].1);
    if j < n - 1 {
        lemma_object_ops_hold(prefix, members, (n - 1) as nat, j, path, value);
    }
    lemma_writes_concat(before, last, path, value);
}

proof fn lemma_array_ops_hold(
    prefix: Seq<char>,
    items: Seq<Json>,
    n: nat,
    j: int,
    path: Seq<char>,
    value: Json,
)
    requires
        0 <= j < n <= items.len(),
        writes(entry_ops(item_path(prefix, j as nat), items[j]), path, value),
    ensures
        writes(array_ops(prefix, items, n), path, value),
    decreases n,
{
    let before = array_ops(prefix, items, (n - 1) as nat);
    let last = entry_ops(item_path(prefix, (n - 1) as nat), items[n - 1]);
    if j < n - 1 {
        lemma_array_ops_hold(prefix, items, (n - 1) as nat, j, path, value);
    }
    lemma_writes_concat(before, last, path, value);
}

/// Flattening a value at a path writes the value under that path, and
/// every value inside it under the path that leads to it.
pub proof fn lemma_entry_covers(path: Seq<char>, value: Json, steps: Seq<PathStep>)
    requires
        reach(value, steps) is Some,
    ensures
        writes(entry_ops(path, value), path_of(path, steps), reach(value, steps).unwrap()),
    decreases steps.len(), 1nat,
{
    if steps.len() == 0 {
        assert(entry_ops(path, value)[0] == (path, value));
    } else {
        // a step leads down only from a list or a mapping
        assert(value.is_composite());
        lemma_flatten_covers(path, value, steps);
        lemma_writes_concat(
            seq![(path, value)],
            flatten_ops(path, value),
            path_of(path, steps),
            reach(value, steps).unwrap(),
        );
    }
}

/// Flattening a value at a prefix writes every value inside it under the
/// path that leads to it.
pub proof fn lemma_flatten_covers(prefix: Seq<char>, value: Json, steps: Seq<PathStep>)
    requires
        steps.len() > 0,
        reach(value, steps) is Some,
    ensures
        writes(flatten_ops(prefix, value), path_of(prefix, steps), reach(value, steps).unwrap()),
    decreases steps.len(), 0nat,
{
    let rest = steps.drop_first();
    let target = reach(value, steps).unwrap();
    match steps[0] {
        PathStep::Key(k) => {
            let members = value->Object_0;
            lemma_lookup_some(members, k);
            let j = choose|j: int|
                0 <= j < members.len() && (#[trigger] members[j]).0 == k && lookup(members, k)
                    == Some(members[j].1);
            lemma_entry_covers(member_path(prefix, k), members[j].1, rest);
            lemma_object_ops_hold(
                prefix,
                members,
                members.len(),
                j,
                path_of(prefix, steps),
                target,
            );
        },
        PathStep::Index(i) => {
            let items = value->Array_0;
            lemma_entry_covers(item_path(prefix, i), items[i as int], rest);
            lemma_array_ops_hold(
                prefix,
                items,
                items.len(),
                i as int,
                path_of(prefix, steps),
                target,
            );
            let head = if prefix.len() > 0 {
                seq![(prefix, value)]
            } else {
                Seq::<(Seq<char>, Json)>::empty()
            };
            lemma_writes_concat(
                head,
                array_ops(prefix, items, items.len()),
                path_of(prefix, steps),
                target,
            );
        },
    }
}

/// After writes that are consistent, each path that was written holds the
/// value that was written under it.
pub proof fn lemma_writes_readable(
    base: Map<Seq<char>, Json>,
    ops: Seq<(Seq<char>, Json)>,
    path: Seq<char>,
    value: Json,
)
    requires
        consistent(ops),
        writes(ops, path, value),
    ensures
        inserted_all(base, ops).contains_key(path),
        inserted_all(base, ops)[path] == value,
    decreases ops.len(),
{
    let i = choose|i: int| 0 <= i < ops.len() && #[trigger] ops[i] == (path, value);
    let before = ops.drop_last();
    if ops.last().0 == path {
        if i < ops.len() - 1 {
            assert(ops[i].0 == ops[ops.len() - 1].0);
        }
    } else {
        assert(before[i] == (path, value));
        assert forall|a: int, b: int|
            0 <= a < b < before.len() && (#[trigger] before[a]).0 == (
            #[trigger] before[b]).0 implies before[a].1 == before[b].1 by {
            assert(before[a] == ops[a] && before[b] == ops[b]);
        }
        lemma_writes_readable(base, before, path, value);
    }
}

/// The dual-indexing law. Let a value be flattened into a store at a path,
/// by writes that are consistent. Then the store resolves that path to the
/// value, and resolves the path of every value inside it to that inner
/// value: the whole and its parts can each be read on their own, and what
/// is read for a part is what the steps to it lead to in the whole.
pub proof fn lemma_dual_indexing(
    before: VariableContext,
    after: VariableContext,
    path: Seq<char>,
    value: Json,
    steps: Seq<PathStep>,
)
    requires
        after.wf(),
        after@ == inserted_all(before@, entry_ops(path, value)),
        consistent(entry_ops(path, value)),
        reach(value, steps) is Some,
    ensures
        resolve(after.root(), path) == Some(value),
        resolve(after.root(), path_of(path, steps)) == reach(value, steps),
        resolve(after.root(), path_of(path, steps)) == reach(
            resolve(after.root(), path).unwrap(),
            steps,
        ),
{
    let ops = entry_ops(path, value);
    lemma_entry_covers(path, value, steps);
    lemma_writes_readable(before@, ops, path_of(path, steps), reach(value, steps).unwrap());
    lemma_entry_covers(path, value, Seq::empty());
    lemma_writes_readable(before@, ops, path, value);
    lemma_map_resolves(after, path);
    lemma_map_resolves(after, path_of(path, steps));
}

/// A path that the store holds resolves to the value held under it.
pub proof fn lemma_map_resolves(store: VariableContext, path: Seq<char>)
    requires
        store.wf(),
        store@.contains_key(path),
    ensures
        resolve(store.root(), path) == Some(store@[path]),
{
}

} // verus!
