//! What merging promises about paths that the store already holds.

use vstd::prelude::*;
use crate::dual_index::{
    consistent, lemma_flatten_covers, lemma_writes_readable, path_of, reach, writes, PathStep,
};
use crate::flatten::{flatten_ops, member_path, override_warnings, warning_message};
use crate::value::{inserted_all, lemma_lookup_at, Json};

verus! {

/// No two writes of `ops` go to one path.
pub open spec fn distinct_paths(ops: Seq<(Seq<char>, Json)>) -> bool {
    forall|i: int, j: int|
        0 <= i < j < ops.len() ==> (#[trigger] ops[i]).0 != (#[trigger] ops[j]).0
}

/// Some write of `ops` goes to `path`.
pub open spec fn written(ops: Seq<(Seq<char>, Json)>, path: Seq<char>) -> bool {
    exists|i: int| 0 <= i < ops.len() && (#[trigger] ops[i]).0 == path
}

/// After the writes, the map holds the paths it held and those written.
pub proof fn lemma_inserted_domain(
    base: Map<Seq<char>, Json>,
    ops: Seq<(Seq<char>, Json)>,
    path: Seq<char>,
)
    ensures
        inserted_all(base, ops).contains_key(path) <==> base.contains_key(path) || written(
            ops,
            path,
        ),
    decreases ops.len(),
{
    if ops.len() > 0 {
        let before = ops.drop_last();
        lemma_inserted_domain(base, before, path);
        if written(before, path) {
            let i = choose|i: int| 0 <= i < before.len() && (#[trigger] before[i]).0 == path;
            assert(ops[i].0 == path);
        }
        if written(ops, path) {
            let i = choose|i: int| 0 <= i < ops.len() && (#[trigger] ops[i]).0 == path;
            if i < ops.len() - 1 {
                assert(before[i].0 == path);
            }
        }
        if ops.last().0 == path {
            assert(ops[ops.len() - 1].0 == path);
        }
    }
}

/// Where no path is written twice and `path` is the only written path
/// that the map held, the writes give one warning if `path` is written,
/// the one that names it, and none if it is not.
pub proof fn lemma_one_warning(
    base: Map<Seq<char>, Json>,
    ops: Seq<(Seq<char>, Json)>,
    path: Seq<char>,
)
    requires
        distinct_paths(ops),
        base.contains_key(path),
        forall|i: int| 0 <= i < ops.len() && base.contains_key((#[trigger] ops[i]).0) ==> ops[i].0 == path,
    ensures
        override_warnings(base, ops) == if written(ops, path) {
            seq![warning_message(path)]
        } else {
            Seq::<Seq<char>>::empty()
        },
    decreases ops.len(),
{
    if ops.len() > 0 {
        let before = ops.drop_last();
        let last = ops.last().0;
        assert forall|i: int, j: int| 0 <= i < j < before.len() implies (#[trigger] before[i]).0 != (
        #[trigger] before[j]).0 by {
            assert(before[i] == ops[i] && before[j] == ops[j]);
        }
        assert forall|i: int|
            0 <= i < before.len() && base.contains_key((#[trigger] before[i]).0) implies before[i].0
            == path by {
            assert(before[i] == ops[i]);
        }
        lemma_one_warning(base, before, path);
        lemma_inserted_domain(base, before, last);
        if written(before, last) {
            let i = choose|i: int| 0 <= i < before.len() && (#[trigger] before[i]).0 == last;
            assert(ops[i].0 == ops[ops.len() - 1].0);
        }
        if written(before, path) {
            let i = choose|i: int| 0 <= i < before.len() && (#[trigger] before[i]).0 == path;
            assert(ops[i].0 == path);
            if last == path {
                assert(ops[i].0 == ops[ops.len() - 1].0);
            }
        }
        if written(ops, path) && !written(before, path) {
            let i = choose|i: int| 0 <= i < ops.len() && (#[trigger] ops[i]).0 == path;
            if i < ops.len() - 1 {
                assert(before[i].0 == path);
            }
        }
        if last == path {
            assert(ops[ops.len() - 1].0 == path);
            assert(Seq::<Seq<char>>::empty() + seq![warning_message(path)] =~= seq![
                warning_message(path),
            ]);
        } else {
            assert(ops[ops.len() - 1].0 == last);
            assert(override_warnings(base, before) + Seq::<Seq<char>>::empty()
                =~= override_warnings(base, before));
        }
    }
}

/// The override law. Let a document, a mapping with distinct keys, be
/// merged into a store that holds a value under one of the document's keys.
/// Where the writes of the merge are consistent, the store then holds the
/// document's value under that key. Where moreover no path is written
/// twice, and that key is the only written path that the store held, the
/// merge gives exactly one warning, which names the key.
pub proof fn lemma_override_precedence(
    base: Map<Seq<char>, Json>,
    document: Json,
    j: int,
)
    requires
        document is Object,
        document.wf(),
        0 <= j < document->Object_0.len(),
        base.contains_key(document->Object_0[j].0),
    ensures
        ({
            let key = document->Object_0[j].0;
            let value = document->Object_0[j].1;
            let ops = flatten_ops(Seq::empty(), document);
            &&& written(ops, key)
            &&& consistent(ops) ==> inserted_all(base, ops)[key] == value
            &&& distinct_paths(ops) && (forall|i: int|
                0 <= i < ops.len() && base.contains_key((#[trigger] ops[i]).0) ==> ops[i].0
                    == key) ==> override_warnings(base, ops) == seq![warning_message(key)]
        }),
{
    let members = document->Object_0;
    let key = members[j].0;
    let value = members[j].1;
    let ops = flatten_ops(Seq::empty(), document);
    let steps = seq![PathStep::Key(key)];
    lemma_lookup_at(members, j);
    assert(steps.drop_first() =~= Seq::<PathStep>::empty());
    assert(reach(document, steps) == Some(value)) by {
        assert(reach(value, steps.drop_first()) == Some(value));
    }
    assert(path_of(Seq::empty(), steps) == key) by {
        assert(member_path(Seq::empty(), key) == key);
        assert(path_of(key, steps.drop_first()) == key);
    }
    lemma_flatten_covers(Seq::empty(), document, steps);
    let i = choose|i: int| 0 <= i < ops.len() && #[trigger] ops[i] == (key, value);
    assert(ops[i].0 == key);
    if consistent(ops) {
        lemma_writes_readable(base, ops, key, value);
    }
    if distinct_paths(ops) && (forall|i: int|
        0 <= i < ops.len() && base.contains_key((#[trigger] ops[i]).0) ==> ops[i].0 == key) {
        lemma_one_warning(base, ops, key);
    }
}

} // verus!
