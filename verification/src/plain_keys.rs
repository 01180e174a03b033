//! Values whose keys are plain, without dots and brackets: for them the
//! paths of flattening never collide, so the laws of flattening hold
//! without further conditions.

use vstd::prelude::*;
use crate::dual_index::{
    consistent, descend, lemma_dual_indexing, lemma_flatten_covers, lemma_writes_readable, path_of,
    reach, PathStep,
};
use crate::flatten::{
    array_ops, entry_ops, flatten_ops, inner_ops, item_path, member_path, object_ops,
};
use crate::text::{
    all_digits, decimal, is_digit, lemma_decimal_digits, lemma_lex_lt_irreflexive, lex_lt,
};
use crate::flatten::{override_warnings, warning_message};
use crate::precedence::{distinct_paths, lemma_inserted_domain, lemma_override_precedence, written};
use crate::value::{
    inserted_all, lemma_lookup_at, lemma_lookup_some, lemma_wf_parts, lookup, Json,
};
use crate::variable_context::{resolve, VariableContext};

verus! {

/// `c` opens a part of a path: it is a dot or an opening bracket.
pub open spec fn opens_part(c: char) -> bool {
    c == '.' || c == '['
}

/// A plain key: not empty, and without dot and opening bracket.
pub open spec fn plain_key(key: Seq<char>) -> bool {
    key.len() > 0 && forall|i: int| 0 <= i < key.len() ==> !opens_part(#[trigger] key[i])
}

/// Every key inside the value is plain.
pub open spec fn plain(value: Json) -> bool
    decreases value,
{
    match value {
        Json::Array(items) => forall|i: int| 0 <= i < items.len() ==> plain(#[trigger] items[i]),
        Json::Object(members) => forall|i: int|
            0 <= i < members.len() ==> plain_key((#[trigger] members[i]).0) && plain(members[i].1),
        _ => true,
    }
}

/// The text that a step adds to a path that is not empty.
pub open spec fn step_text(step: PathStep) -> Seq<char> {
    match step {
        PathStep::Key(k) => seq!['.'] + k,
        PathStep::Index(i) => seq!['['] + decimal(i) + seq![']'],
    }
}

/// The text that steps add to a path that is not empty.
pub open spec fn steps_text(steps: Seq<PathStep>) -> Seq<char>
    decreases steps.len(),
{
    if steps.len() == 0 {
        Seq::empty()
    } else {
        step_text(steps[0]) + steps_text(steps.drop_first())
    }
}

/// What steps add to a path starts with a dot or a bracket, if they add
/// anything; and steps add something.
proof fn lemma_steps_text_opens(steps: Seq<PathStep>)
    ensures
        steps.len() > 0 ==> steps_text(steps).len() > 0 && opens_part(steps_text(steps)[0]),
        steps.len() == 0 ==> steps_text(steps).len() == 0,
{
    if steps.len() > 0 {
        match steps[0] {
            PathStep::Key(k) => {
                assert(step_text(steps[0])[0] == '.');
            },
            PathStep::Index(i) => {
                assert(step_text(steps[0])[0] == '[');
            },
        }
        assert(steps_text(steps)[0] == step_text(steps[0])[0]);
    }
}

/// The path of what steps lead to from a path that is not empty is that
/// path and what the steps add.
proof fn lemma_path_of_nonempty(prefix: Seq<char>, steps: Seq<PathStep>)
    requires
        prefix.len() > 0,
    ensures
        path_of(prefix, steps) == prefix + steps_text(steps),
    decreases steps.len(),
{
    reveal_strlit(".");
    reveal_strlit("[");
    reveal_strlit("]");
    if steps.len() == 0 {
        assert(prefix + steps_text(steps) =~= prefix);
    } else {
        let next = match steps[0] {
            PathStep::Key(k) => member_path(prefix, k),
            PathStep::Index(i) => item_path(prefix, i),
        };
        assert("."@ =~= seq!['.']);
        assert("["@ =~= seq!['[']);
        assert("]"@ =~= seq![']']);
        assert(next =~= prefix + step_text(steps[0]));
        lemma_path_of_nonempty(next, steps.drop_first());
        assert(next + steps_text(steps.drop_first()) =~= prefix + steps_text(steps));
    }
}

/// Two texts that are each a plain key and then nothing or something
/// that opens a part are equal only if the keys are equal and the rests
/// are equal.
proof fn lemma_split_at_key(k1: Seq<char>, r1: Seq<char>, k2: Seq<char>, r2: Seq<char>)
    requires
        forall|i: int| 0 <= i < k1.len() ==> !opens_part(#[trigger] k1[i]),
        forall|i: int| 0 <= i < k2.len() ==> !opens_part(#[trigger] k2[i]),
        r1.len() > 0 ==> opens_part(r1[0]),
        r2.len() > 0 ==> opens_part(r2[0]),
        k1 + r1 == k2 + r2,
    ensures
        k1 == k2,
        r1 == r2,
{
    let whole = k1 + r1;
    if k1.len() < k2.len() {
        assert(whole.len() == k2.len() + r2.len());
        assert(r1.len() > 0);
        assert(whole[k1.len() as int] == r1[0]);
        assert((k2 + r2)[k1.len() as int] == k2[k1.len() as int]);
        assert(false);
    }
    if k2.len() < k1.len() {
        assert(r2.len() > 0);
        assert((k2 + r2)[k2.len() as int] == r2[0]);
        assert(whole[k2.len() as int] == k1[k2.len() as int]);
        assert(false);
    }
    assert(k1 =~= whole.take(k1.len() as int));
    assert(k2 =~= (k2 + r2).take(k2.len() as int));
    assert(r1 =~= whole.skip(k1.len() as int));
    assert(r2 =~= (k2 + r2).skip(k2.len() as int));
}

/// Two texts that are each digits, a closing bracket and a rest are
/// equal only if the digits are equal and the rests are equal.
proof fn lemma_split_at_bracket(d1: Seq<char>, r1: Seq<char>, d2: Seq<char>, r2: Seq<char>)
    requires
        all_digits(d1),
        all_digits(d2),
        d1 + seq![']'] + r1 == d2 + seq![']'] + r2,
    ensures
        d1 == d2,
        r1 == r2,
{
    let left = d1 + seq![']'] + r1;
    let right = d2 + seq![']'] + r2;
    if d1.len() < d2.len() {
        assert(left[d1.len() as int] == ']');
        assert(right[d1.len() as int] == d2[d1.len() as int]);
        assert(is_digit(d2[d1.len() as int]));
        assert(false);
    }
    if d2.len() < d1.len() {
        assert(right[d2.len() as int] == ']');
        assert(left[d2.len() as int] == d1[d2.len() as int]);
        assert(is_digit(d1[d2.len() as int]));
        assert(false);
    }
    assert(d1 =~= left.take(d1.len() as int));
    assert(d2 =~= right.take(d2.len() as int));
    assert(r1 =~= left.skip(d1.len() as int + 1));
    assert(r2 =~= right.skip(d2.len() as int + 1));
}

/// A key that leads on from a value with plain keys is plain, and what it
/// leads to has plain keys; so has what an index leads to.
proof fn lemma_descend_plain(value: Json, step: PathStep)
    requires
        plain(value),
        descend(value, step) is Some,
    ensures
        plain(descend(value, step).unwrap()),
        step matches PathStep::Key(k) ==> plain_key(k),
{
    match step {
        PathStep::Key(k) => {
            let members = value->Object_0;
            lemma_lookup_some(members, k);
            let j = choose|j: int|
                0 <= j < members.len() && (#[trigger] members[j]).0 == k && lookup(members, k)
                    == Some(members[j].1);
            assert(plain_key(members[j].0));
        },
        PathStep::Index(i) => {
            let items = value->Array_0;
            assert(plain(items[i as int]));
        },
    }
}

/// From one value with plain keys, different steps add different texts.
proof fn lemma_steps_text_injective(value: Json, s: Seq<PathStep>, t: Seq<PathStep>)
    requires
        plain(value),
        reach(value, s) is Some,
        reach(value, t) is Some,
        steps_text(s) == steps_text(t),
    ensures
        s == t,
    decreases s.len(),
{
    lemma_steps_text_opens(s);
    lemma_steps_text_opens(t);
    if s.len() == 0 || t.len() == 0 {
        assert(s =~= t);
    } else {
        let rs = s.drop_first();
        let rt = t.drop_first();
        lemma_steps_text_opens(rs);
        lemma_steps_text_opens(rt);
        lemma_descend_plain(value, s[0]);
        lemma_descend_plain(value, t[0]);
        match (s[0], t[0]) {
            (PathStep::Key(k1), PathStep::Key(k2)) => {
                let left = seq!['.'] + k1 + steps_text(rs);
                let right = seq!['.'] + k2 + steps_text(rt);
                assert(left == right);
                assert(k1 + steps_text(rs) =~= left.skip(1));
                assert(k2 + steps_text(rt) =~= right.skip(1));
                lemma_split_at_key(k1, steps_text(rs), k2, steps_text(rt));
                lemma_steps_text_injective(descend(value, s[0]).unwrap(), rs, rt);
            },
            (PathStep::Index(i1), PathStep::Index(i2)) => {
                let left = seq!['['] + decimal(i1) + seq![']'] + steps_text(rs);
                let right = seq!['['] + decimal(i2) + seq![']'] + steps_text(rt);
                assert(left == right);
                assert(decimal(i1) + seq![']'] + steps_text(rs) =~= left.skip(1));
                assert(decimal(i2) + seq![']'] + steps_text(rt) =~= right.skip(1));
                lemma_decimal_digits(i1);
                lemma_decimal_digits(i2);
                lemma_split_at_bracket(decimal(i1), steps_text(rs), decimal(i2), steps_text(rt));
                assert(i1 == i2);
                lemma_steps_text_injective(descend(value, s[0]).unwrap(), rs, rt);
            },
            _ => {
                // a value is a mapping or a list, not both
                assert(false);
            },
        }
        assert(s =~= seq![s[0]] + rs);
        assert(t =~= seq![t[0]] + rt);
    }
}

/// The text that a first step makes from the empty path.
pub open spec fn top_text(step: PathStep) -> Seq<char> {
    match step {
        PathStep::Key(k) => k,
        PathStep::Index(i) => seq!['['] + decimal(i) + seq![']'],
    }
}

/// The path of what steps lead to from the empty path is what the first
/// step makes and what the others add.
proof fn lemma_path_of_empty(steps: Seq<PathStep>)
    requires
        steps.len() > 0,
        steps[0] matches PathStep::Key(k) ==> k.len() > 0,
    ensures
        path_of(Seq::empty(), steps) == top_text(steps[0]) + steps_text(steps.drop_first()),
        top_text(steps[0]).len() > 0,
{
    reveal_strlit("[");
    reveal_strlit("]");
    assert("["@ =~= seq!['[']);
    assert("]"@ =~= seq![']']);
    let empty = Seq::<char>::empty();
    let next = match steps[0] {
        PathStep::Key(k) => member_path(empty, k),
        PathStep::Index(i) => item_path(empty, i),
    };
    assert(next =~= top_text(steps[0]));
    lemma_path_of_nonempty(next, steps.drop_first());
}

/// From one value with plain keys, different steps lead to different
/// paths, whatever the path of the value.
pub proof fn lemma_paths_injective(prefix: Seq<char>, value: Json, s: Seq<PathStep>, t: Seq<PathStep>)
    requires
        plain(value),
        reach(value, s) is Some,
        reach(value, t) is Some,
        path_of(prefix, s) == path_of(prefix, t),
    ensures
        s == t,
{
    if prefix.len() > 0 {
        lemma_path_of_nonempty(prefix, s);
        lemma_path_of_nonempty(prefix, t);
        assert(steps_text(s) =~= (prefix + steps_text(s)).skip(prefix.len() as int));
        assert(steps_text(t) =~= (prefix + steps_text(t)).skip(prefix.len() as int));
        lemma_steps_text_injective(value, s, t);
    } else {
        assert(prefix =~= Seq::<char>::empty());
        if s.len() > 0 {
            lemma_descend_plain(value, s[0]);
            lemma_path_of_empty(s);
        }
        if t.len() > 0 {
            lemma_descend_plain(value, t[0]);
            lemma_path_of_empty(t);
        }
        if s.len() == 0 || t.len() == 0 {
            assert(s =~= t);
        } else {
            let rs = s.drop_first();
            let rt = t.drop_first();
            lemma_steps_text_opens(rs);
            lemma_steps_text_opens(rt);
            match (s[0], t[0]) {
                (PathStep::Key(k1), PathStep::Key(k2)) => {
                    lemma_split_at_key(k1, steps_text(rs), k2, steps_text(rt));
                },
                (PathStep::Index(i1), PathStep::Index(i2)) => {
                    let left = seq!['['] + decimal(i1) + seq![']'] + steps_text(rs);
                    let right = seq!['['] + decimal(i2) + seq![']'] + steps_text(rt);
                    assert(left == right);
                    assert(decimal(i1) + seq![']'] + steps_text(rs) =~= left.skip(1));
                    assert(decimal(i2) + seq![']'] + steps_text(rt) =~= right.skip(1));
                    lemma_decimal_digits(i1);
                    lemma_decimal_digits(i2);
                    lemma_split_at_bracket(
                        decimal(i1),
                        steps_text(rs),
                        decimal(i2),
                        steps_text(rt),
                    );
                    assert(i1 == i2);
                },
                _ => {
                    assert(false);
                },
            }
            lemma_steps_text_injective(descend(value, s[0]).unwrap(), rs, rt);
            assert(s =~= seq![s[0]] + rs);
            assert(t =~= seq![t[0]] + rt);
        }
    }
}

/// The write `op` puts, under the path of some steps from `prefix`, what
/// those steps lead to in `value`.
pub open spec fn at_position(prefix: Seq<char>, value: Json, op: (Seq<char>, Json)) -> bool {
    exists|steps: Seq<PathStep>|
        (#[trigger] reach(value, steps)) is Some && op == (
            path_of(prefix, steps),
            reach(value, steps).unwrap(),
        )
}

/// A write for what is inside a member is a write for what is inside
/// the mapping.
proof fn lemma_position_in_member(
    prefix: Seq<char>,
    members: Seq<(Seq<char>, Json)>,
    j: int,
    op: (Seq<char>, Json),
)
    requires
        Json::Object(members).wf(),
        0 <= j < members.len(),
        at_position(member_path(prefix, members[j].0), members[j].1, op),
    ensures
        at_position(prefix, Json::Object(members), op),
{
    let inner = choose|steps: Seq<PathStep>|
        (#[trigger] reach(members[j].1, steps)) is Some && op == (
            path_of(member_path(prefix, members[j].0), steps),
            reach(members[j].1, steps).unwrap(),
        );
    let steps = seq![PathStep::Key(members[j].0)] + inner;
    lemma_lookup_at(members, j);
    assert(steps.drop_first() =~= inner);
    assert(reach(Json::Object(members), steps) == reach(members[j].1, inner));
    assert(path_of(prefix, steps) == path_of(member_path(prefix, members[j].0), inner));
}

/// A write for what is inside an item is a write for what is inside the
/// list.
proof fn lemma_position_in_item(
    prefix: Seq<char>,
    items: Seq<Json>,
    j: int,
    op: (Seq<char>, Json),
)
    requires
        0 <= j < items.len(),
        at_position(item_path(prefix, j as nat), items[j], op),
    ensures
        at_position(prefix, Json::Array(items), op),
{
    let inner = choose|steps: Seq<PathStep>|
        (#[trigger] reach(items[j], steps)) is Some && op == (
            path_of(item_path(prefix, j as nat), steps),
            reach(items[j], steps).unwrap(),
        );
    let steps = seq![PathStep::Index(j as nat)] + inner;
    assert(steps.drop_first() =~= inner);
    assert(reach(Json::Array(items), steps) == reach(items[j], inner));
    assert(path_of(prefix, steps) == path_of(item_path(prefix, j as nat), inner));
}

/// The value itself is what no steps lead to.
proof fn lemma_position_of_self(prefix: Seq<char>, value: Json)
    ensures
        at_position(prefix, value, (prefix, value)),
{
    let none = Seq::<PathStep>::empty();
    assert(reach(value, none) == Some(value));
    assert(path_of(prefix, none) == prefix);
}

/// Every write for a value at a path puts, under the path of some
/// steps, what those steps lead to in the value.
pub proof fn lemma_entry_positions(path: Seq<char>, value: Json, i: int)
    requires
        value.wf(),
        0 <= i < entry_ops(path, value).len(),
    ensures
        at_position(path, value, entry_ops(path, value)[i]),
    decreases value, 1nat,
{
    lemma_position_of_self(path, value);
    if value.is_composite() && i > 0 {
        lemma_inner_positions(path, value, i - 1);
    }
}

/// Every write for what is inside a value puts, under the path of some
/// steps, what those steps lead to in the value.
pub proof fn lemma_inner_positions(path: Seq<char>, value: Json, i: int)
    requires
        value.wf(),
        0 <= i < inner_ops(path, value).len(),
    ensures
        at_position(path, value, inner_ops(path, value)[i]),
    decreases value, 0nat,
{
    lemma_wf_parts(value);
    match value {
        Json::Object(members) => {
            lemma_object_positions(path, members, members.len(), i);
        },
        Json::Array(items) => {
            lemma_array_positions(path, items, items.len(), i);
        },
        _ => {},
    }
}

/// Every write of flattening puts, under the path of some steps, what
/// those steps lead to in the value.
pub proof fn lemma_flatten_positions(prefix: Seq<char>, value: Json, i: int)
    requires
        value.wf(),
        0 <= i < flatten_ops(prefix, value).len(),
    ensures
        at_position(prefix, value, flatten_ops(prefix, value)[i]),
{
    lemma_position_of_self(prefix, value);
    lemma_wf_parts(value);
    match value {
        Json::Object(members) => {
            lemma_object_positions(prefix, members, members.len(), i);
        },
        Json::Array(items) => {
            if prefix.len() > 0 {
                if i > 0 {
                    lemma_array_positions(prefix, items, items.len(), i - 1);
                }
            } else {
                assert(Seq::<(Seq<char>, Json)>::empty() + array_ops(prefix, items, items.len())
                    =~= array_ops(prefix, items, items.len()));
                lemma_array_positions(prefix, items, items.len(), i);
            }
        },
        _ => {},
    }
}

proof fn lemma_object_positions(
    prefix: Seq<char>,
    members: Seq<(Seq<char>, Json)>,
    n: nat,
    i: int,
)
    requires
        Json::Object(members).wf(),
        n <= members.len(),
        0 <= i < object_ops(prefix, members, n).len(),
    ensures
        at_position(prefix, Json::Object(members), object_ops(prefix, members, n)[i]),
    decreases members, n,
{
    if n > 0 {
        let before = object_ops(prefix, members, (n - 1) as nat);
        if i < before.len() {
            lemma_object_positions(prefix, members, (n - 1) as nat, i);
        } else {
            let path = member_path(prefix, members[n - 1].0);
            lemma_wf_parts(Json::Object(members));
            assert(members[n - 1].1.wf());
            lemma_entry_positions(path, members[n - 1].1, i - before.len());
            lemma_position_in_member(
                prefix,
                members,
                n - 1,
                entry_ops(path, members[n - 1].1)[i - before.len()],
            );
        }
    }
}

proof fn lemma_array_positions(prefix: Seq<char>, items: Seq<Json>, n: nat, i: int)
    requires
        Json::Array(items).wf(),
        n <= items.len(),
        0 <= i < array_ops(prefix, items, n).len(),
    ensures
        at_position(prefix, Json::Array(items), array_ops(prefix, items, n)[i]),
    decreases items, n,
{
    if n > 0 {
        let before = array_ops(prefix, items, (n - 1) as nat);
        if i < before.len() {
            lemma_array_positions(prefix, items, (n - 1) as nat, i);
        } else {
            let path = item_path(prefix, (n - 1) as nat);
            lemma_wf_parts(Json::Array(items));
            assert(items[n - 1].wf());
            lemma_entry_positions(path, items[n - 1], i - before.len());
            lemma_position_in_item(
                prefix,
                items,
                n - 1,
                entry_ops(path, items[n - 1])[i - before.len()],
            );
        }
    }
}

/// Writes that each put, under the path of some steps, what the steps
/// lead to in a value with plain keys are consistent.
proof fn lemma_positions_consistent(prefix: Seq<char>, value: Json, ops: Seq<(Seq<char>, Json)>)
    requires
        plain(value),
        forall|i: int| 0 <= i < ops.len() ==> at_position(prefix, value, #[trigger] ops[i]),
    ensures
        consistent(ops),
{
    assert forall|i: int, j: int|
        0 <= i < j < ops.len() && (#[trigger] ops[i]).0 == (#[trigger] ops[j]).0 implies ops[i].1
        == ops[j].1 by {
        let s = choose|steps: Seq<PathStep>|
            (#[trigger] reach(value, steps)) is Some && ops[i] == (
                path_of(prefix, steps),
                reach(value, steps).unwrap(),
            );
        let t = choose|steps: Seq<PathStep>|
            (#[trigger] reach(value, steps)) is Some && ops[j] == (
                path_of(prefix, steps),
                reach(value, steps).unwrap(),
            );
        lemma_paths_injective(prefix, value, s, t);
    }
}

/// The writes for a well-formed value with plain keys at a path are
/// consistent.
pub proof fn lemma_plain_entry_consistent(path: Seq<char>, value: Json)
    requires
        value.wf(),
        plain(value),
    ensures
        consistent(entry_ops(path, value)),
{
    let ops = entry_ops(path, value);
    assert forall|i: int| 0 <= i < ops.len() implies at_position(path, value, #[trigger] ops[i]) by {
        lemma_entry_positions(path, value, i);
    }
    lemma_positions_consistent(path, value, ops);
}

/// The writes of flattening a well-formed value with plain keys are
/// consistent.
pub proof fn lemma_plain_flatten_consistent(prefix: Seq<char>, value: Json)
    requires
        value.wf(),
        plain(value),
    ensures
        consistent(flatten_ops(prefix, value)),
{
    let ops = flatten_ops(prefix, value);
    assert forall|i: int| 0 <= i < ops.len() implies at_position(prefix, value, #[trigger] ops[i]) by {
        lemma_flatten_positions(prefix, value, i);
    }
    lemma_positions_consistent(prefix, value, ops);
}

/// The dual-indexing law for values with plain keys. Let a well-formed
/// value whose keys are plain be flattened into a store at a path. Then
/// the store resolves that path to the value, and resolves the path of
/// every value inside it to that inner value: the whole and its parts
/// can each be read on their own, and what is read for a part is what
/// the steps to it lead to in the whole.
pub proof fn lemma_dual_indexing_plain(
    before: VariableContext,
    after: VariableContext,
    path: Seq<char>,
    value: Json,
    steps: Seq<PathStep>,
)
    requires
        after.wf(),
        after@ == inserted_all(before@, entry_ops(path, value)),
        value.wf(),
        plain(value),
        reach(value, steps) is Some,
    ensures
        resolve(after.root(), path) == Some(value),
        resolve(after.root(), path_of(path, steps)) == reach(value, steps),
        resolve(after.root(), path_of(path, steps)) == reach(
            resolve(after.root(), path).unwrap(),
            steps,
        ),
{
    lemma_plain_entry_consistent(path, value);
    lemma_dual_indexing(before, after, path, value, steps);
}

/// The write `op` puts, under the path of some steps from `prefix`, what
/// those steps lead to in `value`, and the first of the steps is as
/// `first` says.
pub open spec fn at_position_below(
    prefix: Seq<char>,
    value: Json,
    op: (Seq<char>, Json),
    first: spec_fn(PathStep) -> bool,
) -> bool {
    exists|steps: Seq<PathStep>|
        (#[trigger] reach(value, steps)) is Some && op == (
            path_of(prefix, steps),
            reach(value, steps).unwrap(),
        ) && steps.len() > 0 && first(steps[0])
}

/// Every write for the first `n` members of a mapping is a write for
/// what one of these members leads to.
proof fn lemma_object_positions_below(
    prefix: Seq<char>,
    members: Seq<(Seq<char>, Json)>,
    n: nat,
    i: int,
    first: spec_fn(PathStep) -> bool,
)
    requires
        Json::Object(members).wf(),
        n <= members.len(),
        0 <= i < object_ops(prefix, members, n).len(),
        forall|j: int| 0 <= j < n ==> first(PathStep::Key(#[trigger] members[j].0)),
    ensures
        at_position_below(prefix, Json::Object(members), object_ops(prefix, members, n)[i], first),
    decreases n,
{
    if n > 0 {
        let before = object_ops(prefix, members, (n - 1) as nat);
        if i < before.len() {
            lemma_object_positions_below(prefix, members, (n - 1) as nat, i, first);
        } else {
            let path = member_path(prefix, members[n - 1].0);
            let op = entry_ops(path, members[n - 1].1)[i - before.len()];
            lemma_wf_parts(Json::Object(members));
            assert(members[n - 1].1.wf());
            lemma_entry_positions(path, members[n - 1].1, i - before.len());
            let inner = choose|steps: Seq<PathStep>|
                (#[trigger] reach(members[n - 1].1, steps)) is Some && op == (
                    path_of(path, steps),
                    reach(members[n - 1].1, steps).unwrap(),
                );
            let steps = seq![PathStep::Key(members[n - 1].0)] + inner;
            lemma_lookup_at(members, n - 1);
            assert(steps.drop_first() =~= inner);
            assert(reach(Json::Object(members), steps) == reach(members[n - 1].1, inner));
            assert(path_of(prefix, steps) == path_of(path, inner));
            assert(first(steps[0]));
        }
    }
}

/// The step into the item at position `j`.
pub open spec fn index_step(j: int) -> PathStep {
    PathStep::Index(j as nat)
}

/// Every write for the first `n` items of a list is a write for what
/// one of these items leads to.
proof fn lemma_array_positions_below(
    prefix: Seq<char>,
    items: Seq<Json>,
    n: nat,
    i: int,
    first: spec_fn(PathStep) -> bool,
)
    requires
        Json::Array(items).wf(),
        n <= items.len(),
        0 <= i < array_ops(prefix, items, n).len(),
        forall|j: int| 0 <= j < n ==> first(#[trigger] index_step(j)),
    ensures
        at_position_below(prefix, Json::Array(items), array_ops(prefix, items, n)[i], first),
    decreases n,
{
    if n > 0 {
        let before = array_ops(prefix, items, (n - 1) as nat);
        if i < before.len() {
            lemma_array_positions_below(prefix, items, (n - 1) as nat, i, first);
        } else {
            let path = item_path(prefix, (n - 1) as nat);
            let op = entry_ops(path, items[n - 1])[i - before.len()];
            lemma_wf_parts(Json::Array(items));
            assert(items[n - 1].wf());
            lemma_entry_positions(path, items[n - 1], i - before.len());
            let inner = choose|steps: Seq<PathStep>|
                (#[trigger] reach(items[n - 1], steps)) is Some && op == (
                    path_of(path, steps),
                    reach(items[n - 1], steps).unwrap(),
                );
            let steps = seq![PathStep::Index((n - 1) as nat)] + inner;
            assert(steps.drop_first() =~= inner);
            assert(reach(Json::Array(items), steps) == reach(items[n - 1], inner));
            assert(path_of(prefix, steps) == path_of(path, inner));
            assert(first(index_step(n - 1)));
        }
    }
}

/// Every write for what is inside a value is a write for what at least
/// one step leads to.
proof fn lemma_inner_positions_below(path: Seq<char>, value: Json, i: int)
    requires
        value.wf(),
        0 <= i < inner_ops(path, value).len(),
    ensures
        at_position_below(path, value, inner_ops(path, value)[i], |step: PathStep| true),
{
    let everything = |step: PathStep| true;
    match value {
        Json::Object(members) => {
            lemma_object_positions_below(path, members, members.len(), i, everything);
        },
        Json::Array(items) => {
            lemma_array_positions_below(path, items, items.len(), i, everything);
        },
        _ => {},
    }
}

/// The write of a value under its path and the writes for what is
/// inside it, which all go to different paths, all go to different
/// paths.
proof fn lemma_head_distinct(path: Seq<char>, value: Json)
    requires
        value.wf(),
        plain(value),
        distinct_paths(inner_ops(path, value)),
    ensures
        distinct_paths(seq![(path, value)] + inner_ops(path, value)),
{
    let inner = inner_ops(path, value);
    let ops = seq![(path, value)] + inner;
    assert forall|i: int, j: int| 0 <= i < j < ops.len() implies (#[trigger] ops[i]).0 != (
    #[trigger] ops[j]).0 by {
        if i == 0 {
            // the value itself stands under the path of no steps
            let everything = |step: PathStep| true;
            lemma_inner_positions_below(path, value, j - 1);
            let t = choose|steps: Seq<PathStep>|
                (#[trigger] reach(value, steps)) is Some && inner[j - 1] == (
                    path_of(path, steps),
                    reach(value, steps).unwrap(),
                ) && steps.len() > 0 && everything(steps[0]);
            let none = Seq::<PathStep>::empty();
            assert(reach(value, none) == Some(value));
            if ops[i].0 == ops[j].0 {
                lemma_paths_injective(path, value, none, t);
            }
        } else {
            assert(inner[i - 1].0 != inner[j - 1].0);
        }
    }
}

/// The writes for a value with plain keys, at a path, all go to
/// different paths.
pub proof fn lemma_plain_entry_distinct(path: Seq<char>, value: Json)
    requires
        value.wf(),
        plain(value),
    ensures
        distinct_paths(entry_ops(path, value)),
    decreases value, 1nat,
{
    if value.is_composite() {
        lemma_plain_inner_distinct(path, value);
        lemma_head_distinct(path, value);
    }
}

/// The writes for what is inside a value with plain keys all go to
/// different paths.
pub proof fn lemma_plain_inner_distinct(path: Seq<char>, value: Json)
    requires
        value.wf(),
        plain(value),
    ensures
        distinct_paths(inner_ops(path, value)),
    decreases value, 0nat,
{
    match value {
        Json::Object(members) => {
            lemma_plain_object_distinct(path, members, members.len());
        },
        Json::Array(items) => {
            lemma_plain_array_distinct(path, items, items.len());
        },
        _ => {},
    }
}

/// The writes of flattening a value with plain keys all go to different
/// paths.
pub proof fn lemma_plain_flatten_distinct(prefix: Seq<char>, value: Json)
    requires
        value.wf(),
        plain(value),
    ensures
        distinct_paths(flatten_ops(prefix, value)),
{
    lemma_plain_inner_distinct(prefix, value);
    match value {
        Json::Array(items) => {
            if prefix.len() > 0 {
                lemma_head_distinct(prefix, value);
            } else {
                assert(Seq::<(Seq<char>, Json)>::empty() + array_ops(prefix, items, items.len())
                    =~= array_ops(prefix, items, items.len()));
            }
        },
        _ => {},
    }
}

proof fn lemma_plain_object_distinct(prefix: Seq<char>, members: Seq<(Seq<char>, Json)>, n: nat)
    requires
        Json::Object(members).wf(),
        plain(Json::Object(members)),
        n <= members.len(),
    ensures
        distinct_paths(object_ops(prefix, members, n)),
    decreases members, n,
{
    if n > 0 {
        let value = Json::Object(members);
        let before = object_ops(prefix, members, (n - 1) as nat);
        let key = members[n - 1].0;
        let path = member_path(prefix, key);
        let last = entry_ops(path, members[n - 1].1);
        let ops = object_ops(prefix, members, n);
        lemma_wf_parts(value);
        assert(members[n - 1].1.wf());
        assert(plain(members[n - 1].1));
        lemma_plain_object_distinct(prefix, members, (n - 1) as nat);
        lemma_plain_entry_distinct(path, members[n - 1].1);
        lemma_lex_lt_irreflexive(key);
        assert forall|i: int, j: int| 0 <= i < j < ops.len() implies (#[trigger] ops[i]).0 != (
        #[trigger] ops[j]).0 by {
            if j < before.len() {
                assert(before[i].0 != before[j].0);
            } else if i >= before.len() {
                assert(last[i - before.len()].0 != last[j - before.len()].0);
            } else {
                // one write for an earlier member, one for this member
                let earlier = |step: PathStep| step != PathStep::Key(key);
                assert forall|k: int| 0 <= k < n - 1 implies earlier(
                    PathStep::Key(#[trigger] members[k].0),
                ) by {
                    assert(lex_lt(members[k].0, members[n - 1].0));
                }
                lemma_object_positions_below(prefix, members, (n - 1) as nat, i, earlier);
                let s = choose|steps: Seq<PathStep>|
                    (#[trigger] reach(value, steps)) is Some && before[i] == (
                        path_of(prefix, steps),
                        reach(value, steps).unwrap(),
                    ) && steps.len() > 0 && earlier(steps[0]);
                lemma_entry_positions(path, members[n - 1].1, j - before.len());
                let inner = choose|steps: Seq<PathStep>|
                    (#[trigger] reach(members[n - 1].1, steps)) is Some && last[j - before.len()] == (
                        path_of(path, steps),
                        reach(members[n - 1].1, steps).unwrap(),
                    );
                let t = seq![PathStep::Key(key)] + inner;
                lemma_lookup_at(members, n - 1);
                assert(t.drop_first() =~= inner);
                assert(reach(value, t) == reach(members[n - 1].1, inner));
                assert(path_of(prefix, t) == path_of(path, inner));
                if ops[i].0 == ops[j].0 {
                    lemma_paths_injective(prefix, value, s, t);
                    assert(s[0] == t[0]);
                }
            }
        }
    }
}

proof fn lemma_plain_array_distinct(prefix: Seq<char>, items: Seq<Json>, n: nat)
    requires
        Json::Array(items).wf(),
        plain(Json::Array(items)),
        n <= items.len(),
    ensures
        distinct_paths(array_ops(prefix, items, n)),
    decreases items, n,
{
    if n > 0 {
        let value = Json::Array(items);
        let before = array_ops(prefix, items, (n - 1) as nat);
        let at = PathStep::Index((n - 1) as nat);
        let path = item_path(prefix, (n - 1) as nat);
        let last = entry_ops(path, items[n - 1]);
        let ops = array_ops(prefix, items, n);
        lemma_wf_parts(value);
        assert(items[n - 1].wf());
        assert(plain(items[n - 1]));
        lemma_plain_array_distinct(prefix, items, (n - 1) as nat);
        lemma_plain_entry_distinct(path, items[n - 1]);
        assert forall|i: int, j: int| 0 <= i < j < ops.len() implies (#[trigger] ops[i]).0 != (
        #[trigger] ops[j]).0 by {
            if j < before.len() {
                assert(before[i].0 != before[j].0);
            } else if i >= before.len() {
                assert(last[i - before.len()].0 != last[j - before.len()].0);
            } else {
                // one write for an earlier item, one for this item
                let earlier = |step: PathStep| step != at;
                lemma_array_positions_below(prefix, items, (n - 1) as nat, i, earlier);
                let s = choose|steps: Seq<PathStep>|
                    (#[trigger] reach(value, steps)) is Some && before[i] == (
                        path_of(prefix, steps),
                        reach(value, steps).unwrap(),
                    ) && steps.len() > 0 && earlier(steps[0]);
                lemma_entry_positions(path, items[n - 1], j - before.len());
                let inner = choose|steps: Seq<PathStep>|
                    (#[trigger] reach(items[n - 1], steps)) is Some && last[j - before.len()] == (
                        path_of(path, steps),
                        reach(items[n - 1], steps).unwrap(),
                    );
                let t = seq![at] + inner;
                assert(t.drop_first() =~= inner);
                assert(reach(value, t) == reach(items[n - 1], inner));
                assert(path_of(prefix, t) == path_of(path, inner));
                if ops[i].0 == ops[j].0 {
                    lemma_paths_injective(prefix, value, s, t);
                    assert(s[0] == t[0]);
                }
            }
        }
    }
}

/// The override law for documents with plain keys. Let a document, a
/// well-formed mapping whose keys are plain, be merged into a store.
/// Then the store holds, under each key of the document, the document's
/// value. Where moreover one of its keys is the only written path that
/// the store held, the merge gives exactly one warning, which names that
/// key.
pub proof fn lemma_override_precedence_plain(
    base: Map<Seq<char>, Json>,
    document: Json,
    j: int,
)
    requires
        document is Object,
        document.wf(),
        plain(document),
        0 <= j < document->Object_0.len(),
    ensures
        ({
            let key = document->Object_0[j].0;
            let value = document->Object_0[j].1;
            let ops = flatten_ops(Seq::empty(), document);
            &&& inserted_all(base, ops).contains_key(key)
            &&& inserted_all(base, ops)[key] == value
            &&& base.contains_key(key) && (forall|i: int|
                0 <= i < ops.len() && base.contains_key((#[trigger] ops[i]).0) ==> ops[i].0
                    == key) ==> override_warnings(base, ops) == seq![warning_message(key)]
        }),
{
    let key = document->Object_0[j].0;
    let ops = flatten_ops(Seq::empty(), document);
    lemma_plain_flatten_consistent(Seq::empty(), document);
    lemma_inserted_domain(base, ops, key);
    lemma_plain_flatten_distinct(Seq::empty(), document);
    lemma_written_value(base, document, j);
    if base.contains_key(key) {
        lemma_override_precedence(base, document, j);
    }
}

/// After the merge of a document whose writes are consistent, the store
/// holds the document's value under each of its keys.
proof fn lemma_written_value(base: Map<Seq<char>, Json>, document: Json, j: int)
    requires
        document is Object,
        document.wf(),
        0 <= j < document->Object_0.len(),
        consistent(flatten_ops(Seq::empty(), document)),
    ensures
        inserted_all(base, flatten_ops(Seq::empty(), document))[document->Object_0[j].0]
            == document->Object_0[j].1,
        written(flatten_ops(Seq::empty(), document), document->Object_0[j].0),
{
    let key = document->Object_0[j].0;
    let value = document->Object_0[j].1;
    let ops = flatten_ops(Seq::empty(), document);
    let steps = seq![PathStep::Key(key)];
    lemma_lookup_at(document->Object_0, j);
    assert(steps.drop_first() =~= Seq::<PathStep>::empty());
    assert(reach(document, steps) == Some(value)) by {
        assert(reach(value, steps.drop_first()) == Some(value));
    }
    assert(path_of(Seq::empty(), steps) == key) by {
        assert(member_path(Seq::empty(), key) == key);
        assert(path_of(key, steps.drop_first()) == key);
    }
    lemma_flatten_covers(Seq::empty(), document, steps);
    lemma_writes_readable(base, ops, key, value);
    let i = choose|i: int| 0 <= i < ops.len() && #[trigger] ops[i] == (key, value);
    assert(ops[i].0 == key);
}

} // verus!
