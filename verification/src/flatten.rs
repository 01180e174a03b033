//! Flattening a nested value into a store: the value itself under its
//! path, and everything inside it under paths of its own.

use vstd::prelude::*;
use vstd::string::StringExecFns;
use crate::text::{decimal, push_decimal};
use crate::value::{
    inserted_all, items_view, lemma_view_array, lemma_view_object, lemma_wf_parts, members_view,
    Json, JsonValue,
};
use crate::variable_context::VariableContext;

verus! {

/// The path of the member `key` of what stands at `prefix`. At the top,
/// where the prefix is empty, it is the key alone.
pub open spec fn member_path(prefix: Seq<char>, key: Seq<char>) -> Seq<char> {
    if prefix.len() == 0 {
        key
    } else {
        prefix + "."@ + key
    }
}

/// The path of item `index` of the list that stands at `prefix`.
pub open spec fn item_path(prefix: Seq<char>, index: nat) -> Seq<char> {
    prefix + "["@ + decimal(index) + "]"@
}

/// What is written for the value `value` that stands at `path`: the value
/// itself and, where it is a list or a mapping, everything inside it.
pub open spec fn entry_ops(path: Seq<char>, value: Json) -> Seq<(Seq<char>, Json)>
    decreases value, 1nat,
{
    if value.is_composite() {
        seq![(path, value)] + inner_ops(path, value)
    } else {
        seq![(path, value)]
    }
}

/// What is written for what is inside the value that stands at `path`:
/// each member of a mapping under the member's path, each item of a list
/// under the item's path.
pub open spec fn inner_ops(path: Seq<char>, value: Json) -> Seq<(Seq<char>, Json)>
    decreases value, 0nat,
{
    match value {
        Json::Object(members) => object_ops(path, members, members.len()),
        Json::Array(items) => array_ops(path, items, items.len()),
        _ => Seq::empty(),
    }
}

/// What is written for the first `n` members of a mapping at `prefix`.
pub open spec fn object_ops(prefix: Seq<char>, members: Seq<(Seq<char>, Json)>, n: nat) -> Seq<
    (Seq<char>, Json),
>
    decreases members, n,
{
    if n == 0 || n > members.len() {
        Seq::empty()
    } else {
        object_ops(prefix, members, (n - 1) as nat) + entry_ops(
            member_path(prefix, members[n - 1].0),
            members[n - 1].1,
        )
    }
}

/// What is written for the first `n` items of a list at `prefix`.
pub open spec fn array_ops(prefix: Seq<char>, items: Seq<Json>, n: nat) -> Seq<(Seq<char>, Json)>
    decreases items, n,
{
    if n == 0 || n > items.len() {
        Seq::empty()
    } else {
        array_ops(prefix, items, (n - 1) as nat) + entry_ops(
            item_path(prefix, (n - 1) as nat),
            items[n - 1],
        )
    }
}

/// The writes, in order, that flattening `value` at `prefix` makes. Each
/// is a path and the value put under it.
///
/// A mapping writes each of its members under the member's path. A list
/// writes itself under a prefix that is not empty, then each item under the
/// item's path. Any other value writes itself under a prefix that is not
/// empty. A member or an item is written once, and then what is inside
/// it.
pub open spec fn flatten_ops(prefix: Seq<char>, value: Json) -> Seq<(Seq<char>, Json)> {
    match value {
        Json::Object(members) => object_ops(prefix, members, members.len()),
        Json::Array(items) => (if prefix.len() > 0 {
            seq![(prefix, value)]
        } else {
            Seq::empty()
        }) + array_ops(prefix, items, items.len()),
        _ => if prefix.len() > 0 {
            seq![(prefix, value)]
        } else {
            Seq::empty()
        },
    }
}

/// The line that tells of a write to a path that already held a value.
pub open spec fn warning_message(path: Seq<char>) -> Seq<char> {
    "Warning: Custom variable '"@ + path + "' overrides existing value"@
}

/// The warnings, in order, that the writes `ops` give when made one after
/// the other into `base`: one for each write whose path holds a value at
/// the time of that write.
pub open spec fn override_warnings(
    base: Map<Seq<char>, Json>,
    ops: Seq<(Seq<char>, Json)>,
) -> Seq<Seq<char>>
    decreases ops.len(),
{
    if ops.len() == 0 {
        Seq::empty()
    } else {
        let before = ops.drop_last();
        override_warnings(base, before) + if inserted_all(base, before).contains_key(
            ops.last().0,
        ) {
            seq![warning_message(ops.last().0)]
        } else {
            Seq::empty()
        }
    }
}

/// The texts of `lines`.
pub open spec fn lines_view(lines: Seq<String>) -> Seq<Seq<char>> {
    Seq::new(lines.len(), |i: int| lines[i]@)
}

/// Writes made in two runs are the writes of the two runs joined.
pub proof fn lemma_inserted_all_concat(
    base: Map<Seq<char>, Json>,
    a: Seq<(Seq<char>, Json)>,
    b: Seq<(Seq<char>, Json)>,
)
    ensures
        inserted_all(base, a + b) == inserted_all(inserted_all(base, a), b),
        override_warnings(base, a + b) == override_warnings(base, a) + override_warnings(
            inserted_all(base, a),
            b,
        ),
    decreases b.len(),
{
    if b.len() == 0 {
        assert(a + b =~= a);
        assert(override_warnings(base, a) + Seq::<Seq<char>>::empty() =~= override_warnings(
            base,
            a,
        ));
    } else {
        lemma_inserted_all_concat(base, a, b.drop_last());
        assert((a + b).drop_last() =~= a + b.drop_last());
        assert((a + b).last() == b.last());
        let w = if inserted_all(base, (a + b).drop_last()).contains_key(b.last().0) {
            seq![warning_message(b.last().0)]
        } else {
            Seq::<Seq<char>>::empty()
        };
        assert(override_warnings(base, a + b) == override_warnings(base, a + b.drop_last()) + w);
        assert((override_warnings(base, a) + override_warnings(
            inserted_all(base, a),
            b.drop_last(),
        )) + w =~= override_warnings(base, a) + (override_warnings(
            inserted_all(base, a),
            b.drop_last(),
        ) + w));
    }
}

/// One write: its effect on the map and the warning it gives.
pub proof fn lemma_single_op(base: Map<Seq<char>, Json>, path: Seq<char>, value: Json)
    ensures
        inserted_all(base, seq![(path, value)]) == base.insert(path, value),
        override_warnings(base, seq![(path, value)]) == if base.contains_key(path) {
            seq![warning_message(path)]
        } else {
            Seq::<Seq<char>>::empty()
        },
{
    let ops = seq![(path, value)];
    assert(ops.drop_last() =~= Seq::empty());
    assert(inserted_all(base, ops.drop_last()) == base);
    assert(override_warnings(base, ops.drop_last()) =~= Seq::<Seq<char>>::empty());
    assert(Seq::<Seq<char>>::empty() + seq![warning_message(path)] =~= seq![
        warning_message(path),
    ]);
    assert(Seq::<Seq<char>>::empty() + Seq::<Seq<char>>::empty() =~= Seq::<Seq<char>>::empty());
}

/// Puts `value` under `path` and adds a warning where the path held a
/// value before.
pub fn write_entry(
    context: &mut VariableContext,
    path: String,
    value: JsonValue,
    warnings: &mut Vec<String>,
)
    requires
        old(context).wf(),
        value@.wf(),
    ensures
        final(context).wf(),
        final(context)@ == inserted_all(old(context)@, seq![(path@, value@)]),
        lines_view(final(warnings)@) == lines_view(old(warnings)@) + override_warnings(
            old(context)@,
            seq![(path@, value@)],
        ),
{
    proof {
        lemma_single_op(context@, path@, value@);
    }
    if context.contains_key(path.as_str()) {
        let mut line = String::from_str("Warning: Custom variable '");
        line.append(path.as_str());
        line.append("' overrides existing value");
        warnings.push(line);
        proof {
            assert(lines_view(warnings@) =~= lines_view(old(warnings)@) + seq![
                warning_message(path@),
            ]);
        }
    } else {
        proof {
            assert(lines_view(warnings@) =~= lines_view(old(warnings)@) + Seq::<
                Seq<char>,
            >::empty());
        }
    }
    context.insert(path, value);
}

/// The path of the member `key` of what stands at `prefix`.
pub fn member_path_string(prefix: &str, key: &str) -> (r: String)
    ensures
        r@ == member_path(prefix@, key@),
{
    if prefix.is_empty() {
        String::from_str(key)
    } else {
        let mut r = String::from_str(prefix);
        r.append(".");
        r.append(key);
        r
    }
}

/// The path of item `index` of the list that stands at `prefix`.
pub fn item_path_string(prefix: &str, index: usize) -> (r: String)
    ensures
        r@ == item_path(prefix@, index as nat),
{
    let mut r = String::from_str(prefix);
    r.append("[");
    push_decimal(&mut r, index);
    r.append("]");
    r
}

/// Writes `value`, which stands at `path`, and what is inside it.
pub fn write_nested(
    context: &mut VariableContext,
    path: String,
    value: &JsonValue,
    warnings: &mut Vec<String>,
)
    requires
        old(context).wf(),
        value@.wf(),
    ensures
        final(context).wf(),
        final(context)@ == inserted_all(old(context)@, entry_ops(path@, value@)),
        lines_view(final(warnings)@) == lines_view(old(warnings)@) + override_warnings(
            old(context)@,
            entry_ops(path@, value@),
        ),
    decreases value, 1nat,
{
    let composite = match value {
        JsonValue::Object(_) => true,
        JsonValue::Array(_) => true,
        _ => false,
    };
    if composite {
        let at = path.clone();
        write_entry(context, path, value.clone(), warnings);
        let ghost mid = context@;
        write_inner(context, at.as_str(), value, warnings);
        proof {
            lemma_inserted_all_concat(old(context)@, seq![(at@, value@)], inner_ops(at@, value@));
            let first = override_warnings(old(context)@, seq![(at@, value@)]);
            let second = override_warnings(mid, inner_ops(at@, value@));
            assert((lines_view(old(warnings)@) + first) + second =~= lines_view(old(warnings)@)
                + (first + second));
        }
    } else {
        write_entry(context, path, value.clone(), warnings);
    }
}

/// Writes what is inside `value`, which stands at `prefix`.
pub fn write_inner(
    context: &mut VariableContext,
    prefix: &str,
    value: &JsonValue,
    warnings: &mut Vec<String>,
)
    requires
        old(context).wf(),
        value@.wf(),
    ensures
        final(context).wf(),
        final(context)@ == inserted_all(old(context)@, inner_ops(prefix@, value@)),
        lines_view(final(warnings)@) == lines_view(old(warnings)@) + override_warnings(
            old(context)@,
            inner_ops(prefix@, value@),
        ),
    decreases value, 0nat,
{
    let ghost base = context@;
    let ghost base_lines = lines_view(warnings@);
    proof {
        assert(base_lines + Seq::<Seq<char>>::empty() =~= base_lines);
    }
    match value {
        JsonValue::Object(members) => {
            proof {
                lemma_view_object(*members);
            }
            let ghost mv = members_view(members@);
            let mut i: usize = 0;
            while i < members.len()
                invariant
                    i <= members.len(),
                    context.wf(),
                    mv == members_view(members@),
                    value@ == Json::Object(mv),
                    value@.wf(),
                    *value == JsonValue::Object(*members),
                    context@ == inserted_all(base, object_ops(prefix@, mv, i as nat)),
                    lines_view(warnings@) == base_lines + override_warnings(
                        base,
                        object_ops(prefix@, mv, i as nat),
                    ),
                decreases members.len() - i,
            {
                let path = member_path_string(prefix, members[i].0.as_str());
                let ghost mid = context@;
                let ghost done = object_ops(prefix@, mv, i as nat);
                let ghost mid_lines = override_warnings(base, done);
                proof {
                    lemma_wf_parts(value@);
                    assert(mv[i as int].1.wf());
                    assert(mv[i as int] == (members@[i as int].0@, members@[i as int].1@));
                }
                write_nested(context, path, &members[i].1, warnings);
                proof {
                    let step = entry_ops(member_path(prefix@, mv[i as int].0), mv[i as int].1);
                    lemma_inserted_all_concat(base, done, step);
                    assert((base_lines + mid_lines) + override_warnings(mid, step) =~= base_lines
                        + (mid_lines + override_warnings(mid, step)));
                }
                i += 1;
            }
        },
        JsonValue::Array(items) => {
            proof {
                lemma_view_array(*items);
            }
            let ghost iv = items_view(items@);
            let mut i: usize = 0;
            while i < items.len()
                invariant
                    i <= items.len(),
                    context.wf(),
                    iv == items_view(items@),
                    value@ == Json::Array(iv),
                    value@.wf(),
                    *value == JsonValue::Array(*items),
                    context@ == inserted_all(base, array_ops(prefix@, iv, i as nat)),
                    lines_view(warnings@) == base_lines + override_warnings(
                        base,
                        array_ops(prefix@, iv, i as nat),
                    ),
                decreases items.len() - i,
            {
                let path = item_path_string(prefix, i);
                let ghost mid = context@;
                let ghost done = array_ops(prefix@, iv, i as nat);
                let ghost mid_lines = override_warnings(base, done);
                proof {
                    lemma_wf_parts(value@);
                    assert(iv[i as int].wf());
                    assert(iv[i as int] == items@[i as int]@);
                }
                write_nested(context, path, &items[i], warnings);
                proof {
                    let step = entry_ops(item_path(prefix@, i as nat), iv[i as int]);
                    lemma_inserted_all_concat(base, done, step);
                    assert((base_lines + mid_lines) + override_warnings(mid, step) =~= base_lines
                        + (mid_lines + override_warnings(mid, step)));
                }
                i += 1;
            }
        },
        _ => {},
    }
}

/// Flattens `value` into `context` at `prefix`, the new values replacing
/// what the store held under the same paths, and adds to `warnings` a line
/// for each write to a path that held a value.
pub fn flatten_and_merge(
    context: &mut VariableContext,
    prefix: &str,
    value: &JsonValue,
    warnings: &mut Vec<String>,
)
    requires
        old(context).wf(),
        value@.wf(),
    ensures
        final(context).wf(),
        final(context)@ == inserted_all(old(context)@, flatten_ops(prefix@, value@)),
        lines_view(final(warnings)@) == lines_view(old(warnings)@) + override_warnings(
            old(context)@,
            flatten_ops(prefix@, value@),
        ),
{
    let ghost base_lines = lines_view(warnings@);
    match value {
        JsonValue::Object(_) => {
            write_inner(context, prefix, value, warnings);
        },
        JsonValue::Array(_) => {
            if !prefix.is_empty() {
                write_entry(context, String::from_str(prefix), value.clone(), warnings);
                let ghost mid = context@;
                write_inner(context, prefix, value, warnings);
                proof {
                    let head = seq![(prefix@, value@)];
                    let inside = inner_ops(prefix@, value@);
                    lemma_inserted_all_concat(old(context)@, head, inside);
                    let first = override_warnings(old(context)@, head);
                    let second = override_warnings(mid, inside);
                    assert((base_lines + first) + second =~= base_lines + (first + second));
                }
            } else {
                write_inner(context, prefix, value, warnings);
                proof {
                    let inside = inner_ops(prefix@, value@);
                    assert(Seq::<(Seq<char>, Json)>::empty() + inside =~= inside);
                }
            }
        },
        _ => {
            if !prefix.is_empty() {
                write_entry(context, String::from_str(prefix), value.clone(), warnings);
            } else {
                proof {
                    assert(base_lines + Seq::<Seq<char>>::empty() =~= base_lines);
                }
            }
        },
    }
}

} // verus!
