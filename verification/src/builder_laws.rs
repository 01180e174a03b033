//! What the store of a blueprint or a stack holds and what templates find
//! in it: the name of the record under `blueprint.name` or `stack.name`,
//! and the configuration of each resource, as a whole and with
//! everything inside it under paths of its own.

use vstd::prelude::*;
use crate::builder::{
    blueprint_head_ops, blueprint_ops, blueprint_resource_ops, blueprint_resources_json,
    blueprint_resources_ops, cloud_providers_json, optional_text, property_ops,
    resource_head_ops, stack_head_ops, stack_ops, stack_resource_ops, stack_resources_json,
    stack_resources_ops,
};
use crate::dual_index::{
    consistent, lemma_entry_covers, lemma_map_resolves, lemma_writes_concat,
    lemma_writes_readable, path_of, reach, writes, PathStep,
};
use crate::flatten::{array_ops, entry_ops, inner_ops, item_path, member_path, object_ops};
use crate::leaf_laws::{lemma_leaf_is_rendered, plain_name};
use crate::models::{
    Blueprint, BlueprintResource, CloudProvider, ResourceType, Stack, StackResource,
};
use crate::navigation::dotted;
use crate::path::walk;
use crate::precedence::{lemma_inserted_domain, written};
use crate::value::{
    has_key, inserted_all, lemma_lookup_at, members_view, object_of, Json, JsonValue,
};
use crate::variable_context::{resolve, VariableContext};

verus! {

/// Every write goes to a path that has the character `c` at position
/// `k`.
pub open spec fn all_have_at(ops: Seq<(Seq<char>, Json)>, k: int, c: char) -> bool {
    forall|i: int| 0 <= i < ops.len() ==> (#[trigger] ops[i]).0.len() > k && ops[i].0[k] == c
}

/// Writes that all have a character at a position, followed by more such
/// writes, all have it there.
proof fn lemma_have_concat(a: Seq<(Seq<char>, Json)>, b: Seq<(Seq<char>, Json)>, k: int, c: char)
    requires
        all_have_at(a, k, c),
        all_have_at(b, k, c),
    ensures
        all_have_at(a + b, k, c),
{
    assert forall|i: int| 0 <= i < (a + b).len() implies (#[trigger] (a + b)[i]).0.len() > k && (a
        + b)[i].0[k] == c by {
        if i < a.len() {
            assert((a + b)[i] == a[i]);
        } else {
            assert((a + b)[i] == b[i - a.len()]);
        }
    }
}

/// The writes for properties under a prefix go to paths that open as
/// the prefix does.
proof fn lemma_property_ops_have(
    prefix: Seq<char>,
    pairs: Seq<(String, JsonValue)>,
    n: nat,
    k: int,
    c: char,
)
    requires
        0 <= k < prefix.len(),
        prefix[k] == c,
    ensures
        all_have_at(property_ops(prefix, pairs, n), k, c),
    decreases n,
{
    if n != 0 && n <= pairs.len() {
        lemma_property_ops_have(prefix, pairs, (n - 1) as nat, k, c);
        let before = property_ops(prefix, pairs, (n - 1) as nat);
        let last = (prefix + pairs[n - 1].0@, pairs[n - 1].1@);
        assert(last.0[k] == prefix[k]);
        assert forall|i: int| 0 <= i < before.push(last).len() implies (#[trigger] before.push(
            last,
        )[i]).0.len() > k && before.push(last)[i].0[k] == c by {
            if i < before.len() {
                assert(before.push(last)[i] == before[i]);
            }
        }
    }
}

/// The writes for what every resource has go to paths that open as the
/// prefix does.
proof fn lemma_resource_head_ops_have(
    prefix: Seq<char>,
    id: String,
    name: String,
    description: Option<String>,
    resource_type: ResourceType,
    cloud_provider: CloudProvider,
    k: int,
    c: char,
)
    requires
        0 <= k < prefix.len(),
        prefix[k] == c,
    ensures
        all_have_at(
            resource_head_ops(prefix, id, name, description, resource_type, cloud_provider),
            k,
            c,
        ),
{
    let ops = resource_head_ops(prefix, id, name, description, resource_type, cloud_provider);
    let first = seq![(prefix + ".id"@, Json::Text(id@)), (prefix + ".name"@, Json::Text(name@))];
    let second = optional_text(prefix + ".description"@, description);
    let third = seq![
        (prefix + ".resource_type.id"@, Json::Text(resource_type.id@)),
        (prefix + ".resource_type.name"@, Json::Text(resource_type.name@)),
        (prefix + ".resource_type.category"@, Json::Text(resource_type.category@)),
        (prefix + ".cloud_provider.id"@, Json::Text(cloud_provider.id@)),
        (prefix + ".cloud_provider.name"@, Json::Text(cloud_provider.name@)),
        (prefix + ".cloud_provider.display_name"@, Json::Text(cloud_provider.display_name@)),
    ];
    assert forall|i: int| 0 <= i < first.len() implies (#[trigger] first[i]).0.len() > k
        && first[i].0[k] == c by {
        assert(first[i].0[k] == prefix[k]);
    }
    assert forall|i: int| 0 <= i < second.len() implies (#[trigger] second[i]).0.len() > k
        && second[i].0[k] == c by {
        assert(second[i].0[k] == prefix[k]);
    }
    assert forall|i: int| 0 <= i < third.len() implies (#[trigger] third[i]).0.len() > k
        && third[i].0[k] == c by {
        assert(third[i].0[k] == prefix[k]);
    }
    lemma_have_concat(first, second, k, c);
    lemma_have_concat(first + second, third, k, c);
}

/// The writes for a value at a path, and for what is inside it, go to
/// paths that open as that path does.
proof fn lemma_entry_ops_have(path: Seq<char>, value: Json, k: int, c: char)
    requires
        0 <= k < path.len(),
        path[k] == c,
    ensures
        all_have_at(entry_ops(path, value), k, c),
    decreases value, 1nat,
{
    let own = seq![(path, value)];
    assert(all_have_at(own, k, c));
    if value.is_composite() {
        lemma_inner_ops_have(path, value, k, c);
        lemma_have_concat(own, inner_ops(path, value), k, c);
    }
}

/// The writes for what is inside a value at a path go to paths that
/// open as that path does.
proof fn lemma_inner_ops_have(path: Seq<char>, value: Json, k: int, c: char)
    requires
        0 <= k < path.len(),
        path[k] == c,
    ensures
        all_have_at(inner_ops(path, value), k, c),
    decreases value, 0nat,
{
    match value {
        Json::Object(members) => {
            lemma_object_ops_have(path, members, members.len(), k, c);
        },
        Json::Array(items) => {
            lemma_array_ops_have(path, items, items.len(), k, c);
        },
        _ => {},
    }
}

proof fn lemma_object_ops_have(
    path: Seq<char>,
    members: Seq<(Seq<char>, Json)>,
    n: nat,
    k: int,
    c: char,
)
    requires
        0 <= k < path.len(),
        path[k] == c,
    ensures
        all_have_at(object_ops(path, members, n), k, c),
    decreases members, n,
{
    if n != 0 && n <= members.len() {
        let below = member_path(path, members[n - 1].0);
        assert(below[k] == path[k]);
        lemma_object_ops_have(path, members, (n - 1) as nat, k, c);
        lemma_entry_ops_have(below, members[n - 1].1, k, c);
        lemma_have_concat(
            object_ops(path, members, (n - 1) as nat),
            entry_ops(below, members[n - 1].1),
            k,
            c,
        );
    }
}

proof fn lemma_array_ops_have(path: Seq<char>, items: Seq<Json>, n: nat, k: int, c: char)
    requires
        0 <= k < path.len(),
        path[k] == c,
    ensures
        all_have_at(array_ops(path, items, n), k, c),
    decreases items, n,
{
    if n != 0 && n <= items.len() {
        let below = item_path(path, (n - 1) as nat);
        assert(below[k] == path[k]);
        lemma_array_ops_have(path, items, (n - 1) as nat, k, c);
        lemma_entry_ops_have(below, items[n - 1], k, c);
        lemma_have_concat(
            array_ops(path, items, (n - 1) as nat),
            entry_ops(below, items[n - 1]),
            k,
            c,
        );
    }
}

/// The writes for one resource of a blueprint go to paths that begin
/// with `r`.
proof fn lemma_blueprint_resource_ops_begin(index: nat, r: BlueprintResource)
    ensures
        all_have_at(blueprint_resource_ops(index, r), 0, 'r'),
{
    reveal_strlit("resources");
    let prefix = item_path("resources"@, index);
    assert(prefix[0] == "resources"@[0]);
    let head = resource_head_ops(
        prefix,
        r.id,
        r.name,
        r.description,
        r.resource_type,
        r.cloud_provider,
    );
    let whole = entry_ops(prefix + ".configuration"@, r.configuration@);
    let properties = property_ops(
        prefix + ".cloud_specific_properties."@,
        r.cloud_specific_properties@,
        r.cloud_specific_properties@.len(),
    );
    lemma_resource_head_ops_have(
        prefix,
        r.id,
        r.name,
        r.description,
        r.resource_type,
        r.cloud_provider,
        0,
        'r',
    );
    assert((prefix + ".configuration"@)[0] == prefix[0]);
    lemma_entry_ops_have(prefix + ".configuration"@, r.configuration@, 0, 'r');
    assert((prefix + ".cloud_specific_properties."@)[0] == prefix[0]);
    lemma_property_ops_have(
        prefix + ".cloud_specific_properties."@,
        r.cloud_specific_properties@,
        r.cloud_specific_properties@.len(),
        0,
        'r',
    );
    lemma_have_concat(head, whole, 0, 'r');
    lemma_have_concat(head + whole, properties, 0, 'r');
}

/// The writes for the resources of a blueprint go to paths that begin
/// with `r`.
proof fn lemma_blueprint_resources_ops_begin(resources: Seq<BlueprintResource>, n: nat)
    ensures
        all_have_at(blueprint_resources_ops(resources, n), 0, 'r'),
    decreases n,
{
    if n != 0 && n <= resources.len() {
        lemma_blueprint_resources_ops_begin(resources, (n - 1) as nat);
        lemma_blueprint_resource_ops_begin((n - 1) as nat, resources[n - 1]);
        lemma_have_concat(
            blueprint_resources_ops(resources, (n - 1) as nat),
            blueprint_resource_ops((n - 1) as nat, resources[n - 1]),
            0,
            'r',
        );
    }
}

/// The writes for one resource of a stack go to paths that open with
/// `stack_`.
proof fn lemma_stack_resource_ops_open(index: nat, r: StackResource)
    ensures
        all_have_at(stack_resource_ops(index, r), 5, '_'),
{
    reveal_strlit("stack_resources");
    let prefix = item_path("stack_resources"@, index);
    assert(prefix[5] == "stack_resources"@[5]);
    let head = resource_head_ops(
        prefix,
        r.id,
        r.name,
        r.description,
        r.resource_type,
        r.cloud_provider,
    );
    let whole = entry_ops(
        prefix + ".configuration"@,
        object_of(members_view(r.configuration@)),
    );
    lemma_resource_head_ops_have(
        prefix,
        r.id,
        r.name,
        r.description,
        r.resource_type,
        r.cloud_provider,
        5,
        '_',
    );
    assert((prefix + ".configuration"@)[5] == prefix[5]);
    lemma_entry_ops_have(
        prefix + ".configuration"@,
        object_of(members_view(r.configuration@)),
        5,
        '_',
    );
    lemma_have_concat(head, whole, 5, '_');
}

/// The writes for the resources of a stack go to paths that open with
/// `stack_`.
proof fn lemma_stack_resources_ops_open(resources: Seq<StackResource>, n: nat)
    ensures
        all_have_at(stack_resources_ops(resources, n), 5, '_'),
    decreases n,
{
    if n != 0 && n <= resources.len() {
        lemma_stack_resources_ops_open(resources, (n - 1) as nat);
        lemma_stack_resource_ops_open((n - 1) as nat, resources[n - 1]);
        lemma_have_concat(
            stack_resources_ops(resources, (n - 1) as nat),
            stack_resource_ops((n - 1) as nat, resources[n - 1]),
            5,
            '_',
        );
    }
}

/// Where one write alone goes to a path, the map holds under that path
/// what that write puts there.
pub proof fn lemma_only_write(
    base: Map<Seq<char>, Json>,
    ops: Seq<(Seq<char>, Json)>,
    k: int,
    path: Seq<char>,
)
    requires
        0 <= k < ops.len(),
        ops[k].0 == path,
        forall|j: int| 0 <= j < ops.len() && j != k ==> (#[trigger] ops[j]).0 != path,
    ensures
        inserted_all(base, ops).contains_key(path),
        inserted_all(base, ops)[path] == ops[k].1,
    decreases ops.len(),
{
    let before = ops.drop_last();
    if k < ops.len() - 1 {
        assert(before[k] == ops[k]);
        assert forall|j: int| 0 <= j < before.len() && j != k implies (#[trigger] before[j]).0
            != path by {
            assert(before[j] == ops[j]);
        }
        lemma_only_write(base, before, k, path);
        assert(ops[ops.len() - 1].0 != path);
    }
}

/// The law of the name of a blueprint. In the store of a blueprint,
/// going down the tree of the store by `blueprint` and `name` reaches
/// the name of the blueprint, which is what the store resolves
/// `blueprint.name` to: a template that names `blueprint.name` is
/// rendered with the name of the blueprint, whatever the blueprint and
/// its resources hold.
pub proof fn lemma_blueprint_name_is_rendered(b: Blueprint, context: VariableContext)
    requires
        context.wf(),
        context@ == inserted_all(Map::empty(), blueprint_ops(b)),
    ensures
        walk(context.tree(), seq!["blueprint"@, "name"@], 0) == Some(Json::Text(b.name@)),
        resolve(context.root(), "blueprint.name"@) == Some(Json::Text(b.name@)),
{
    reveal_strlit("blueprint");
    reveal_strlit("name");
    reveal_strlit("blueprint.id");
    reveal_strlit("blueprint.name");
    reveal_strlit("blueprint.description");
    reveal_strlit("resources");
    reveal_strlit("supported_cloud_providers");
    let ops = blueprint_ops(b);
    let head = blueprint_head_ops(b);
    let inner = blueprint_resources_ops(b.resources@, b.resources@.len());
    let path = "blueprint.name"@;
    let above = "blueprint"@;
    lemma_blueprint_resources_ops_begin(b.resources@, b.resources@.len());
    assert(ops[1] == (path, Json::Text(b.name@)));
    assert forall|j: int| 0 <= j < ops.len() implies (#[trigger] ops[j]).0 != above && (j != 1
        ==> ops[j].0 != path) by {
        if j < head.len() {
            assert(ops[j] == head[j]);
            if j == 0 {
                assert(ops[j].0.len() == 12);
            } else if j == 1 {
                assert(ops[j].0.len() == 14);
            } else {
                assert(ops[j].0.len() == 21);
            }
        } else if j == head.len() {
            assert(ops[j].0[0] == 'r');
        } else if j < head.len() + 1 + inner.len() {
            assert(ops[j] == inner[j - head.len() - 1]);
            assert(ops[j].0[0] == 'r');
        } else {
            assert(ops[j].0[0] == 's');
        }
    }
    lemma_only_write(Map::empty(), ops, 1, path);
    lemma_inserted_domain(Map::empty(), ops, above);
    assert(!written(ops, above));
    let entries = context.entries();
    assert(has_key(entries, path));
    let i = choose|i: int| 0 <= i < entries.len() && #[trigger] entries[i].0 == path;
    lemma_lookup_at(entries, i);
    assert(entries[i].1 == Json::Text(b.name@));
    let names = seq!["blueprint"@, "name"@];
    assert(names.drop_first() =~= seq!["name"@]);
    assert(dotted(names.drop_first()) == "name"@);
    assert(dotted(names) == above + seq!['.'] + "name"@);
    assert(above + seq!['.'] + "name"@ =~= path);
    assert(plain_name(names[0]));
    assert(plain_name(names[1]));
    assert(names.take(1) =~= seq![above]);
    assert forall|m: int| 0 < m < names.len() implies !has_key(
        entries,
        #[trigger] dotted(names.take(m)),
    ) by {
        assert(dotted(names.take(1)) == above);
        assert(!context@.contains_key(above));
    }
    lemma_leaf_is_rendered(entries, i, names);
}

/// The law of the name of a stack. In the store of a stack, going down
/// the tree of the store by `stack` and `name` reaches the name of the
/// stack, which is what the store resolves `stack.name` to: a template
/// that names `stack.name` is rendered with the name of the stack,
/// whatever the stack and its resources hold.
pub proof fn lemma_stack_name_is_rendered(s: Stack, context: VariableContext)
    requires
        context.wf(),
        context@ == inserted_all(Map::empty(), stack_ops(s)),
    ensures
        walk(context.tree(), seq!["stack"@, "name"@], 0) == Some(Json::Text(s.name@)),
        resolve(context.root(), "stack.name"@) == Some(Json::Text(s.name@)),
{
    reveal_strlit("stack");
    reveal_strlit("name");
    reveal_strlit("stack.id");
    reveal_strlit("stack.name");
    reveal_strlit("stack.description");
    reveal_strlit("stack.cloud_name");
    reveal_strlit("stack.stack_type");
    reveal_strlit("stack_resources");
    reveal_strlit("blueprint.id");
    reveal_strlit("blueprint.name");
    reveal_strlit("blueprint.description");
    let ops = stack_ops(s);
    let head = stack_head_ops(s);
    let inner = stack_resources_ops(s.stack_resources@, s.stack_resources@.len());
    let tail = match s.blueprint {
        Some(b) => blueprint_head_ops(b),
        None => Seq::empty(),
    };
    let path = "stack.name"@;
    let above = "stack"@;
    lemma_stack_resources_ops_open(s.stack_resources@, s.stack_resources@.len());
    assert(ops[1] == (path, Json::Text(s.name@)));
    assert forall|j: int| 0 <= j < ops.len() implies (#[trigger] ops[j]).0 != above && (j != 1
        ==> ops[j].0 != path) by {
        if j < head.len() {
            assert(ops[j] == head[j]);
            if j == 0 {
                assert(ops[j].0.len() == 8);
            } else if j == 1 {
                assert(ops[j].0.len() == 10);
            } else {
                assert(ops[j].0.len() == 17 || ops[j].0.len() == 16);
            }
        } else if j == head.len() {
            assert(ops[j].0.len() == 15);
        } else if j < head.len() + 1 + inner.len() {
            assert(ops[j] == inner[j - head.len() - 1]);
            assert(ops[j].0[5] == '_');
        } else {
            assert(ops[j] == tail[j - head.len() - 1 - inner.len()]);
            assert(ops[j].0[0] == 'b');
        }
    }
    lemma_only_write(Map::empty(), ops, 1, path);
    lemma_inserted_domain(Map::empty(), ops, above);
    assert(!written(ops, above));
    let entries = context.entries();
    assert(has_key(entries, path));
    let i = choose|i: int| 0 <= i < entries.len() && #[trigger] entries[i].0 == path;
    lemma_lookup_at(entries, i);
    assert(entries[i].1 == Json::Text(s.name@));
    let names = seq!["stack"@, "name"@];
    assert(names.drop_first() =~= seq!["name"@]);
    assert(dotted(names.drop_first()) == "name"@);
    assert(dotted(names) == above + seq!['.'] + "name"@);
    assert(above + seq!['.'] + "name"@ =~= path);
    assert(plain_name(names[0]));
    assert(plain_name(names[1]));
    assert(names.take(1) =~= seq![above]);
    assert forall|m: int| 0 < m < names.len() implies !has_key(
        entries,
        #[trigger] dotted(names.take(m)),
    ) by {
        assert(dotted(names.take(1)) == above);
        assert(!context@.contains_key(above));
    }
    lemma_leaf_is_rendered(entries, i, names);
}

/// What the writes for one of the first `n` resources of a blueprint
/// write, the writes for these resources write.
proof fn lemma_blueprint_resources_write(
    resources: Seq<BlueprintResource>,
    n: nat,
    i: int,
    path: Seq<char>,
    value: Json,
)
    requires
        0 <= i < n <= resources.len(),
        writes(blueprint_resource_ops(i as nat, resources[i]), path, value),
    ensures
        writes(blueprint_resources_ops(resources, n), path, value),
    decreases n,
{
    let before = blueprint_resources_ops(resources, (n - 1) as nat);
    let last = blueprint_resource_ops((n - 1) as nat, resources[n - 1]);
    if i < n - 1 {
        lemma_blueprint_resources_write(resources, (n - 1) as nat, i, path, value);
    }
    lemma_writes_concat(before, last, path, value);
}

/// What the writes for one of the first `n` resources of a stack write,
/// the writes for these resources write.
proof fn lemma_stack_resources_write(
    resources: Seq<StackResource>,
    n: nat,
    i: int,
    path: Seq<char>,
    value: Json,
)
    requires
        0 <= i < n <= resources.len(),
        writes(stack_resource_ops(i as nat, resources[i]), path, value),
    ensures
        writes(stack_resources_ops(resources, n), path, value),
    decreases n,
{
    let before = stack_resources_ops(resources, (n - 1) as nat);
    let last = stack_resource_ops((n - 1) as nat, resources[n - 1]);
    if i < n - 1 {
        lemma_stack_resources_write(resources, (n - 1) as nat, i, path, value);
    }
    lemma_writes_concat(before, last, path, value);
}

/// The path of the configuration of the resource at position `i` of a
/// blueprint.
pub open spec fn blueprint_configuration_path(i: nat) -> Seq<char> {
    item_path("resources"@, i) + ".configuration"@
}

/// The path of the configuration of the resource at position `i` of a
/// stack.
pub open spec fn stack_configuration_path(i: nat) -> Seq<char> {
    item_path("stack_resources"@, i) + ".configuration"@
}

/// The law of the configuration of a blueprint. The store of a blueprint
/// holds, for each of its resources, the configuration as a whole under
/// `resources[i].configuration`, and every value inside it under the path
/// that leads to it from there. Where the writes that make the store are
/// consistent, what the store holds there, and resolves that path to, is
/// that value.
pub proof fn lemma_blueprint_configuration_is_held(
    b: Blueprint,
    context: VariableContext,
    i: int,
    steps: Seq<PathStep>,
)
    requires
        context.wf(),
        context@ == inserted_all(Map::empty(), blueprint_ops(b)),
        0 <= i < b.resources@.len(),
        reach(b.resources@[i].configuration@, steps) is Some,
    ensures
        context@.contains_key(path_of(blueprint_configuration_path(i as nat), steps)),
        consistent(blueprint_ops(b)) ==> resolve(
            context.root(),
            path_of(blueprint_configuration_path(i as nat), steps),
        ) == reach(b.resources@[i].configuration@, steps),
{
    let r = b.resources@[i];
    let prefix = item_path("resources"@, i as nat);
    let at = blueprint_configuration_path(i as nat);
    let path = path_of(at, steps);
    let value = reach(r.configuration@, steps).unwrap();
    let ops = blueprint_ops(b);
    let head = resource_head_ops(
        prefix,
        r.id,
        r.name,
        r.description,
        r.resource_type,
        r.cloud_provider,
    );
    let whole = entry_ops(at, r.configuration@);
    let properties = property_ops(
        prefix + ".cloud_specific_properties."@,
        r.cloud_specific_properties@,
        r.cloud_specific_properties@.len(),
    );
    lemma_entry_covers(at, r.configuration@, steps);
    lemma_writes_concat(head, whole, path, value);
    lemma_writes_concat(head + whole, properties, path, value);
    lemma_blueprint_resources_write(b.resources@, b.resources@.len(), i, path, value);
    let first = blueprint_head_ops(b) + seq![
        ("resources"@, blueprint_resources_json(b.resources@)),
    ];
    let inner = blueprint_resources_ops(b.resources@, b.resources@.len());
    let last = seq![
        ("supported_cloud_providers"@, cloud_providers_json(b.supported_cloud_providers@)),
    ];
    lemma_writes_concat(first, inner, path, value);
    lemma_writes_concat(first + inner, last, path, value);
    assert(writes(ops, path, value));
    let k = choose|k: int| 0 <= k < ops.len() && #[trigger] ops[k] == (path, value);
    assert(ops[k].0 == path);
    lemma_inserted_domain(Map::empty(), ops, path);
    if consistent(ops) {
        lemma_writes_readable(Map::empty(), ops, path, value);
        lemma_map_resolves(context, path);
    }
}

/// The law of the configuration of a stack. The store of a stack holds,
/// for each of its resources, the configuration as one mapping under
/// `stack_resources[i].configuration`, and every value inside it under
/// the path that leads to it from there. Where the writes that make the
/// store are consistent, what the store holds there, and resolves that
/// path to, is that value.
pub proof fn lemma_stack_configuration_is_held(
    s: Stack,
    context: VariableContext,
    i: int,
    steps: Seq<PathStep>,
)
    requires
        context.wf(),
        context@ == inserted_all(Map::empty(), stack_ops(s)),
        0 <= i < s.stack_resources@.len(),
        reach(object_of(members_view(s.stack_resources@[i].configuration@)), steps) is Some,
    ensures
        context@.contains_key(path_of(stack_configuration_path(i as nat), steps)),
        consistent(stack_ops(s)) ==> resolve(
            context.root(),
            path_of(stack_configuration_path(i as nat), steps),
        ) == reach(object_of(members_view(s.stack_resources@[i].configuration@)), steps),
{
    let r = s.stack_resources@[i];
    let prefix = item_path("stack_resources"@, i as nat);
    let at = stack_configuration_path(i as nat);
    let configuration = object_of(members_view(r.configuration@));
    let path = path_of(at, steps);
    let value = reach(configuration, steps).unwrap();
    let ops = stack_ops(s);
    let head = resource_head_ops(
        prefix,
        r.id,
        r.name,
        r.description,
        r.resource_type,
        r.cloud_provider,
    );
    let whole = entry_ops(at, configuration);
    lemma_entry_covers(at, configuration, steps);
    lemma_writes_concat(head, whole, path, value);
    lemma_stack_resources_write(s.stack_resources@, s.stack_resources@.len(), i, path, value);
    let first = stack_head_ops(s) + seq![
        ("stack_resources"@, stack_resources_json(s.stack_resources@)),
    ];
    let inner = stack_resources_ops(s.stack_resources@, s.stack_resources@.len());
    let last = match s.blueprint {
        Some(b) => blueprint_head_ops(b),
        None => Seq::empty(),
    };
    lemma_writes_concat(first, inner, path, value);
    lemma_writes_concat(first + inner, last, path, value);
    assert(writes(ops, path, value));
    let k = choose|k: int| 0 <= k < ops.len() && #[trigger] ops[k] == (path, value);
    assert(ops[k].0 == path);
    lemma_inserted_domain(Map::empty(), ops, path);
    if consistent(ops) {
        lemma_writes_readable(Map::empty(), ops, path, value);
        lemma_map_resolves(context, path);
    }
}

} // verus!
