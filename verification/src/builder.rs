//! Building the variable space from a blueprint or a stack.

use vstd::prelude::*;
use vstd::string::StringExecFns;
use crate::flatten::{
    entry_ops, item_path, item_path_string, lemma_inserted_all_concat, write_nested,
};
use crate::models::{
    values_wf, Blueprint, BlueprintResource, CloudProvider, ResourceType, Stack, StackResource,
};
use crate::value::{
    copy_pairs, inserted_all, items_view, lemma_view_array, members_view, object_of, Json,
    JsonValue,
};
use crate::variable_context::VariableContext;

verus! {

/// Builds stores of variables from the records of the platform.
#[derive(Debug)]
pub struct VariableContextBuilder;

/// A text member where there is a text, no member where there is none.
pub open spec fn optional_text(key: Seq<char>, text: Option<String>) -> Seq<(Seq<char>, Json)> {
    match text {
        Some(t) => seq![(key, Json::Text(t@))],
        None => Seq::empty(),
    }
}

/// A resource type as a mapping.
pub open spec fn resource_type_json(t: ResourceType) -> Json {
    object_of(
        seq![
            ("id"@, Json::Text(t.id@)),
            ("name"@, Json::Text(t.name@)),
            ("category"@, Json::Text(t.category@)),
        ],
    )
}

/// A cloud provider as a mapping.
pub open spec fn cloud_provider_json(c: CloudProvider) -> Json {
    object_of(
        seq![
            ("id"@, Json::Text(c.id@)),
            ("name"@, Json::Text(c.name@)),
            ("display_name"@, Json::Text(c.display_name@)),
        ],
    )
}

/// The members that every resource has, whatever its kind.
pub open spec fn resource_head_pairs(
    id: String,
    name: String,
    description: Option<String>,
    resource_type: ResourceType,
    cloud_provider: CloudProvider,
) -> Seq<(Seq<char>, Json)> {
    seq![("id"@, Json::Text(id@)), ("name"@, Json::Text(name@))] + optional_text(
        "description"@,
        description,
    ) + seq![
        ("resource_type"@, resource_type_json(resource_type)),
        ("cloud_provider"@, cloud_provider_json(cloud_provider)),
    ]
}

/// A resource of a blueprint as a mapping.
pub open spec fn blueprint_resource_json(r: BlueprintResource) -> Json {
    object_of(
        resource_head_pairs(r.id, r.name, r.description, r.resource_type, r.cloud_provider) + seq![
            ("configuration"@, r.configuration@),
            ("cloud_specific_properties"@, object_of(members_view(r.cloud_specific_properties@))),
        ],
    )
}

/// A resource of a stack as a mapping.
pub open spec fn stack_resource_json(r: StackResource) -> Json {
    object_of(
        resource_head_pairs(r.id, r.name, r.description, r.resource_type, r.cloud_provider) + seq![
            ("configuration"@, object_of(members_view(r.configuration@))),
        ],
    )
}

/// The resources of a blueprint as a list of mappings.
pub open spec fn blueprint_resources_json(resources: Seq<BlueprintResource>) -> Json {
    Json::Array(Seq::new(resources.len(), |i: int| blueprint_resource_json(resources[i])))
}

/// The resources of a stack as a list of mappings.
pub open spec fn stack_resources_json(resources: Seq<StackResource>) -> Json {
    Json::Array(Seq::new(resources.len(), |i: int| stack_resource_json(resources[i])))
}

/// Cloud providers as a list of mappings.
pub open spec fn cloud_providers_json(providers: Seq<CloudProvider>) -> Json {
    Json::Array(Seq::new(providers.len(), |i: int| cloud_provider_json(providers[i])))
}

/// The writes for what every resource has, under the resource's prefix.
pub open spec fn resource_head_ops(
    prefix: Seq<char>,
    id: String,
    name: String,
    description: Option<String>,
    resource_type: ResourceType,
    cloud_provider: CloudProvider,
) -> Seq<(Seq<char>, Json)> {
    seq![(prefix + ".id"@, Json::Text(id@)), (prefix + ".name"@, Json::Text(name@))]
        + optional_text(prefix + ".description"@, description) + seq![
        (prefix + ".resource_type.id"@, Json::Text(resource_type.id@)),
        (prefix + ".resource_type.name"@, Json::Text(resource_type.name@)),
        (prefix + ".resource_type.category"@, Json::Text(resource_type.category@)),
        (prefix + ".cloud_provider.id"@, Json::Text(cloud_provider.id@)),
        (prefix + ".cloud_provider.name"@, Json::Text(cloud_provider.name@)),
        (prefix + ".cloud_provider.display_name"@, Json::Text(cloud_provider.display_name@)),
    ]
}

/// The writes for the first `n` of `pairs`, each under `prefix` followed
/// by its key.
pub open spec fn property_ops(prefix: Seq<char>, pairs: Seq<(String, JsonValue)>, n: nat) -> Seq<
    (Seq<char>, Json),
>
    decreases n,
{
    if n == 0 || n > pairs.len() {
        Seq::empty()
    } else {
        property_ops(prefix, pairs, (n - 1) as nat).push(
            (prefix + pairs[n - 1].0@, pairs[n - 1].1@),
        )
    }
}

/// The writes for the resource of a blueprint that has position `index`:
/// what every resource has, then the configuration as a whole and
/// everything inside it under paths of its own, then each of the
/// properties that are specific to the cloud.
pub open spec fn blueprint_resource_ops(index: nat, r: BlueprintResource) -> Seq<
    (Seq<char>, Json),
> {
    let prefix = item_path("resources"@, index);
    resource_head_ops(prefix, r.id, r.name, r.description, r.resource_type, r.cloud_provider)
        + entry_ops(prefix + ".configuration"@, r.configuration@) + property_ops(
        prefix + ".cloud_specific_properties."@,
        r.cloud_specific_properties@,
        r.cloud_specific_properties@.len(),
    )
}

/// The writes for the resource of a stack that has position `index`:
/// what every resource has, then the configuration as one mapping and
/// everything inside it under paths of its own.
pub open spec fn stack_resource_ops(index: nat, r: StackResource) -> Seq<(Seq<char>, Json)> {
    let prefix = item_path("stack_resources"@, index);
    resource_head_ops(prefix, r.id, r.name, r.description, r.resource_type, r.cloud_provider)
        + entry_ops(prefix + ".configuration"@, object_of(members_view(r.configuration@)))
}

/// The writes for the first `n` resources of a blueprint.
pub open spec fn blueprint_resources_ops(resources: Seq<BlueprintResource>, n: nat) -> Seq<
    (Seq<char>, Json),
>
    decreases n,
{
    if n == 0 || n > resources.len() {
        Seq::empty()
    } else {
        blueprint_resources_ops(resources, (n - 1) as nat) + blueprint_resource_ops(
            (n - 1) as nat,
            resources[n - 1],
        )
    }
}

/// The writes for the first `n` resources of a stack.
pub open spec fn stack_resources_ops(resources: Seq<StackResource>, n: nat) -> Seq<
    (Seq<char>, Json),
>
    decreases n,
{
    if n == 0 || n > resources.len() {
        Seq::empty()
    } else {
        stack_resources_ops(resources, (n - 1) as nat) + stack_resource_ops(
            (n - 1) as nat,
            resources[n - 1],
        )
    }
}

/// The writes for the name and such of a blueprint.
pub open spec fn blueprint_head_ops(b: Blueprint) -> Seq<(Seq<char>, Json)> {
    seq![("blueprint.id"@, Json::Text(b.id@)), ("blueprint.name"@, Json::Text(b.name@))]
        + optional_text("blueprint.description"@, b.description)
}

/// The writes that make the store of a blueprint, in order: the name and
/// such of the blueprint; the list of its resources under `resources`;
/// for each resource what it has, under `resources[i]`; and the list of
/// the supported clouds.
pub open spec fn blueprint_ops(b: Blueprint) -> Seq<(Seq<char>, Json)> {
    blueprint_head_ops(b) + seq![("resources"@, blueprint_resources_json(b.resources@))]
        + blueprint_resources_ops(b.resources@, b.resources@.len()) + seq![
        ("supported_cloud_providers"@, cloud_providers_json(b.supported_cloud_providers@)),
    ]
}

/// The writes for the name and such of a stack.
pub open spec fn stack_head_ops(s: Stack) -> Seq<(Seq<char>, Json)> {
    seq![("stack.id"@, Json::Text(s.id@)), ("stack.name"@, Json::Text(s.name@))] + optional_text(
        "stack.description"@,
        s.description,
    ) + seq![
        ("stack.cloud_name"@, Json::Text(s.cloud_name@)),
        ("stack.stack_type"@, Json::Text(s.stack_type@)),
    ]
}

/// The writes that make the store of a stack, in order: the name and such
/// of the stack; the list of its resources under `stack_resources`; for
/// each resource what it has, under `stack_resources[i]`; and the name and
/// such of its blueprint where it has one.
pub open spec fn stack_ops(s: Stack) -> Seq<(Seq<char>, Json)> {
    stack_head_ops(s) + seq![("stack_resources"@, stack_resources_json(s.stack_resources@))]
        + stack_resources_ops(s.stack_resources@, s.stack_resources@.len()) + match s.blueprint {
        Some(b) => blueprint_head_ops(b),
        None => Seq::empty(),
    }
}

/// `a` followed by `b`.
pub fn joined(a: &str, b: &str) -> (r: String)
    ensures
        r@ == a@ + b@,
{
    String::from_str(a).concat(b)
}

/// Makes one more write.
fn record(
    context: &mut VariableContext,
    path: String,
    value: JsonValue,
    Ghost(base): Ghost<Map<Seq<char>, Json>>,
    Ghost(ops): Ghost<Seq<(Seq<char>, Json)>>,
)
    requires
        old(context).wf(),
        value@.wf(),
        old(context)@ == inserted_all(base, ops),
    ensures
        final(context).wf(),
        final(context)@ == inserted_all(base, ops.push((path@, value@))),
{
    proof {
        assert(ops.push((path@, value@)).drop_last() =~= ops);
    }
    context.insert(path, value);
}

/// Writes a text where there is one.
fn record_optional(
    context: &mut VariableContext,
    path: String,
    text: &Option<String>,
    Ghost(base): Ghost<Map<Seq<char>, Json>>,
    Ghost(ops): Ghost<Seq<(Seq<char>, Json)>>,
)
    requires
        old(context).wf(),
        old(context)@ == inserted_all(base, ops),
    ensures
        final(context).wf(),
        final(context)@ == inserted_all(base, ops + optional_text(path@, *text)),
{
    match text {
        Some(t) => {
            proof {
                assert(ops + optional_text(path@, *text) =~= ops.push((path@, Json::Text(t@))));
            }
            record(context, path, JsonValue::text(t.as_str()), Ghost(base), Ghost(ops));
        },
        None => {
            proof {
                assert(ops + optional_text(path@, *text) =~= ops);
            }
        },
    }
}

/// A resource type as a mapping.
pub fn resource_type_value(t: &ResourceType) -> (r: JsonValue)
    ensures
        r@ == resource_type_json(*t),
        r@.wf(),
{
    let mut pairs: Vec<(String, JsonValue)> = Vec::new();
    pairs.push((String::from_str("id"), JsonValue::text(t.id.as_str())));
    pairs.push((String::from_str("name"), JsonValue::text(t.name.as_str())));
    pairs.push((String::from_str("category"), JsonValue::text(t.category.as_str())));
    proof {
        assert(members_view(pairs@) =~= seq![
            ("id"@, Json::Text(t.id@)),
            ("name"@, Json::Text(t.name@)),
            ("category"@, Json::Text(t.category@)),
        ]);
    }
    JsonValue::object(pairs)
}

/// A cloud provider as a mapping.
pub fn cloud_provider_value(c: &CloudProvider) -> (r: JsonValue)
    ensures
        r@ == cloud_provider_json(*c),
        r@.wf(),
{
    let mut pairs: Vec<(String, JsonValue)> = Vec::new();
    pairs.push((String::from_str("id"), JsonValue::text(c.id.as_str())));
    pairs.push((String::from_str("name"), JsonValue::text(c.name.as_str())));
    pairs.push((String::from_str("display_name"), JsonValue::text(c.display_name.as_str())));
    proof {
        assert(members_view(pairs@) =~= seq![
            ("id"@, Json::Text(c.id@)),
            ("name"@, Json::Text(c.name@)),
            ("display_name"@, Json::Text(c.display_name@)),
        ]);
    }
    JsonValue::object(pairs)
}

/// The members that every resource has, whatever its kind.
fn resource_head_members(
    id: &String,
    name: &String,
    description: &Option<String>,
    resource_type: &ResourceType,
    cloud_provider: &CloudProvider,
) -> (pairs: Vec<(String, JsonValue)>)
    ensures
        members_view(pairs@) == resource_head_pairs(
            *id,
            *name,
            *description,
            *resource_type,
            *cloud_provider,
        ),
        values_wf(pairs@),
{
    let mut pairs: Vec<(String, JsonValue)> = Vec::new();
    pairs.push((String::from_str("id"), JsonValue::text(id.as_str())));
    pairs.push((String::from_str("name"), JsonValue::text(name.as_str())));
    match description {
        Some(d) => {
            pairs.push((String::from_str("description"), JsonValue::text(d.as_str())));
        },
        None => {},
    }
    pairs.push((String::from_str("resource_type"), resource_type_value(resource_type)));
    pairs.push((String::from_str("cloud_provider"), cloud_provider_value(cloud_provider)));
    proof {
        assert(members_view(pairs@) =~= resource_head_pairs(
            *id,
            *name,
            *description,
            *resource_type,
            *cloud_provider,
        ));
    }
    pairs
}

/// The writes for what every resource has.
fn write_resource_head(
    context: &mut VariableContext,
    prefix: &str,
    id: &String,
    name: &String,
    description: &Option<String>,
    resource_type: &ResourceType,
    cloud_provider: &CloudProvider,
)
    requires
        old(context).wf(),
    ensures
        final(context).wf(),
        final(context)@ == inserted_all(
            old(context)@,
            resource_head_ops(prefix@, *id, *name, *description, *resource_type, *cloud_provider),
        ),
{
    let ghost base = context@;
    let ghost mut ops = Seq::<(Seq<char>, Json)>::empty();
    record(context, joined(prefix, ".id"), JsonValue::text(id.as_str()), Ghost(base), Ghost(ops));
    proof {
        ops = ops.push((prefix@ + ".id"@, Json::Text(id@)));
    }
    record(context, joined(prefix, ".name"), JsonValue::text(name.as_str()), Ghost(base), Ghost(ops));
    proof {
        ops = ops.push((prefix@ + ".name"@, Json::Text(name@)));
    }
    record_optional(context, joined(prefix, ".description"), description, Ghost(base), Ghost(ops));
    proof {
        ops = ops + optional_text(prefix@ + ".description"@, *description);
    }
    record(
        context,
        joined(prefix, ".resource_type.id"),
        JsonValue::text(resource_type.id.as_str()),
        Ghost(base),
        Ghost(ops),
    );
    proof {
        ops = ops.push((prefix@ + ".resource_type.id"@, Json::Text(resource_type.id@)));
    }
    record(
        context,
        joined(prefix, ".resource_type.name"),
        JsonValue::text(resource_type.name.as_str()),
        Ghost(base),
        Ghost(ops),
    );
    proof {
        ops = ops.push((prefix@ + ".resource_type.name"@, Json::Text(resource_type.name@)));
    }
    record(
        context,
        joined(prefix, ".resource_type.category"),
        JsonValue::text(resource_type.category.as_str()),
        Ghost(base),
        Ghost(ops),
    );
    proof {
        ops = ops.push((prefix@ + ".resource_type.category"@, Json::Text(resource_type.category@)));
    }
    record(
        context,
        joined(prefix, ".cloud_provider.id"),
        JsonValue::text(cloud_provider.id.as_str()),
        Ghost(base),
        Ghost(ops),
    );
    proof {
        ops = ops.push((prefix@ + ".cloud_provider.id"@, Json::Text(cloud_provider.id@)));
    }
    record(
        context,
        joined(prefix, ".cloud_provider.name"),
        JsonValue::text(cloud_provider.name.as_str()),
        Ghost(base),
        Ghost(ops),
    );
    proof {
        ops = ops.push((prefix@ + ".cloud_provider.name"@, Json::Text(cloud_provider.name@)));
    }
    record(
        context,
        joined(prefix, ".cloud_provider.display_name"),
        JsonValue::text(cloud_provider.display_name.as_str()),
        Ghost(base),
        Ghost(ops),
    );
    proof {
        ops = ops.push(
            (prefix@ + ".cloud_provider.display_name"@, Json::Text(cloud_provider.display_name@)),
        );
        assert(ops =~= resource_head_ops(
            prefix@,
            *id,
            *name,
            *description,
            *resource_type,
            *cloud_provider,
        ));
    }
}

/// The writes for `pairs`, each under `prefix` followed by its key.
fn write_properties(context: &mut VariableContext, prefix: &str, pairs: &Vec<(String, JsonValue)>)
    requires
        old(context).wf(),
        values_wf(pairs@),
    ensures
        final(context).wf(),
        final(context)@ == inserted_all(
            old(context)@,
            property_ops(prefix@, pairs@, pairs@.len()),
        ),
{
    let ghost base = context@;
    let mut i: usize = 0;
    while i < pairs.len()
        invariant
            i <= pairs.len(),
            context.wf(),
            values_wf(pairs@),
            context@ == inserted_all(base, property_ops(prefix@, pairs@, i as nat)),
        decreases pairs.len() - i,
    {
        record(
            context,
            joined(prefix, pairs[i].0.as_str()),
            pairs[i].1.clone(),
            Ghost(base),
            Ghost(property_ops(prefix@, pairs@, i as nat)),
        );
        i += 1;
    }
}

impl VariableContextBuilder {
    /// A builder.
    pub fn new() -> (r: VariableContextBuilder) {
        VariableContextBuilder
    }

    /// The store of a blueprint: its name and such under `blueprint.`,
    /// its resources as a list under `resources` and each of them again
    /// under `resources[i].`, with its configuration as a whole under
    /// `resources[i].configuration` and everything inside it under paths
    /// of its own, and the clouds it supports.
    pub fn from_blueprint(blueprint: &Blueprint) -> (context: VariableContext)
        requires
            blueprint.wf(),
        ensures
            context.wf(),
            context@ == inserted_all(Map::empty(), blueprint_ops(*blueprint)),
    {
        let mut context = VariableContext::new();
        let ghost base = context@;
        write_blueprint_head(&mut context, blueprint);
        let ghost head = blueprint_head_ops(*blueprint);
        // the resources as one list
        let mut list: Vec<JsonValue> = Vec::new();
        let mut i: usize = 0;
        while i < blueprint.resources.len()
            invariant
                i <= blueprint.resources.len(),
                blueprint.wf(),
                list.len() == i,
                forall|j: int|
                    0 <= j < i ==> (#[trigger] list@[j])@ == blueprint_resource_json(
                        blueprint.resources@[j],
                    ) && list@[j]@.wf(),
            decreases blueprint.resources.len() - i,
        {
            list.push(blueprint_resource_value(&blueprint.resources[i]));
            i += 1;
        }
        let ghost whole = blueprint_resources_json(blueprint.resources@);
        proof {
            lemma_view_array(list);
            assert(items_view(list@) =~= whole->Array_0);
        }
        record(
            &mut context,
            String::from_str("resources"),
            JsonValue::array(list),
            Ghost(base),
            Ghost(head),
        );
        let ghost start = head.push(("resources"@, whole));
        proof {
            assert(start + blueprint_resources_ops(blueprint.resources@, 0) =~= start);
        }
        // each resource again, under a prefix of its own
        let mut i: usize = 0;
        while i < blueprint.resources.len()
            invariant
                i <= blueprint.resources.len(),
                blueprint.wf(),
                context.wf(),
                context@ == inserted_all(
                    base,
                    start + blueprint_resources_ops(blueprint.resources@, i as nat),
                ),
            decreases blueprint.resources.len() - i,
        {
            let ghost done = start + blueprint_resources_ops(blueprint.resources@, i as nat);
            write_blueprint_resource(&mut context, i, &blueprint.resources[i]);
            proof {
                let step = blueprint_resource_ops(i as nat, blueprint.resources@[i as int]);
                lemma_inserted_all_concat(base, done, step);
                assert(done + step =~= start + blueprint_resources_ops(
                    blueprint.resources@,
                    (i + 1) as nat,
                ));
            }
            i += 1;
        }
        let ghost done = start + blueprint_resources_ops(
            blueprint.resources@,
            blueprint.resources@.len(),
        );
        let providers = cloud_providers_value(&blueprint.supported_cloud_providers);
        record(
            &mut context,
            String::from_str("supported_cloud_providers"),
            providers,
            Ghost(base),
            Ghost(done),
        );
        proof {
            assert(done.push(
                (
                    "supported_cloud_providers"@,
                    cloud_providers_json(blueprint.supported_cloud_providers@),
                ),
            ) =~= blueprint_ops(*blueprint));
        }
        context
    }

    /// The store of a stack: its name and such under `stack.`, its
    /// resources as a list under `stack_resources` and each of them again
    /// under `stack_resources[i].`, with its configuration as a whole
    /// under `stack_resources[i].configuration` and everything inside it
    /// under paths of its own, and the name and such of its blueprint,
    /// where it has one, under `blueprint.`.
    pub fn from_stack(stack: &Stack) -> (context: VariableContext)
        requires
            stack.wf(),
        ensures
            context.wf(),
            context@ == inserted_all(Map::empty(), stack_ops(*stack)),
    {
        let mut context = VariableContext::new();
        let ghost base = context@;
        let ghost mut ops = Seq::<(Seq<char>, Json)>::empty();
        record(
            &mut context,
            String::from_str("stack.id"),
            JsonValue::text(stack.id.as_str()),
            Ghost(base),
            Ghost(ops),
        );
        proof {
            ops = ops.push(("stack.id"@, Json::Text(stack.id@)));
        }
        record(
            &mut context,
            String::from_str("stack.name"),
            JsonValue::text(stack.name.as_str()),
            Ghost(base),
            Ghost(ops),
        );
        proof {
            ops = ops.push(("stack.name"@, Json::Text(stack.name@)));
        }
        record_optional(
            &mut context,
            String::from_str("stack.description"),
            &stack.description,
            Ghost(base),
            Ghost(ops),
        );
        proof {
            ops = ops + optional_text("stack.description"@, stack.description);
        }
        record(
            &mut context,
            String::from_str("stack.cloud_name"),
            JsonValue::text(stack.cloud_name.as_str()),
            Ghost(base),
            Ghost(ops),
        );
        proof {
            ops = ops.push(("stack.cloud_name"@, Json::Text(stack.cloud_name@)));
        }
        record(
            &mut context,
            String::from_str("stack.stack_type"),
            JsonValue::text(stack.stack_type.as_str()),
            Ghost(base),
            Ghost(ops),
        );
        proof {
            ops = ops.push(("stack.stack_type"@, Json::Text(stack.stack_type@)));
            assert(ops =~= stack_head_ops(*stack));
        }
        let ghost head = stack_head_ops(*stack);
        // the resources as one list
        let mut list: Vec<JsonValue> = Vec::new();
        let mut i: usize = 0;
        while i < stack.stack_resources.len()
            invariant
                i <= stack.stack_resources.len(),
                stack.wf(),
                list.len() == i,
                forall|j: int|
                    0 <= j < i ==> (#[trigger] list@[j])@ == stack_resource_json(
                        stack.stack_resources@[j],
                    ) && list@[j]@.wf(),
            decreases stack.stack_resources.len() - i,
        {
            list.push(stack_resource_value(&stack.stack_resources[i]));
            i += 1;
        }
        let ghost whole = stack_resources_json(stack.stack_resources@);
        proof {
            lemma_view_array(list);
            assert(items_view(list@) =~= whole->Array_0);
        }
        record(
            &mut context,
            String::from_str("stack_resources"),
            JsonValue::array(list),
            Ghost(base),
            Ghost(head),
        );
        let ghost start = head.push(("stack_resources"@, whole));
        proof {
            assert(start + stack_resources_ops(stack.stack_resources@, 0) =~= start);
        }
        // each resource again, under a prefix of its own
        let mut i: usize = 0;
        while i < stack.stack_resources.len()
            invariant
                i <= stack.stack_resources.len(),
                stack.wf(),
                context.wf(),
                context@ == inserted_all(
                    base,
                    start + stack_resources_ops(stack.stack_resources@, i as nat),
                ),
            decreases stack.stack_resources.len() - i,
        {
            let ghost done = start + stack_resources_ops(stack.stack_resources@, i as nat);
            write_stack_resource(&mut context, i, &stack.stack_resources[i]);
            proof {
                let step = stack_resource_ops(i as nat, stack.stack_resources@[i as int]);
                lemma_inserted_all_concat(base, done, step);
                assert(done + step =~= start + stack_resources_ops(
                    stack.stack_resources@,
                    (i + 1) as nat,
                ));
            }
            i += 1;
        }
        let ghost done = start + stack_resources_ops(
            stack.stack_resources@,
            stack.stack_resources@.len(),
        );
        match &stack.blueprint {
            Some(blueprint) => {
                write_blueprint_head(&mut context, blueprint);
                proof {
                    lemma_inserted_all_concat(base, done, blueprint_head_ops(*blueprint));
                    assert(done + blueprint_head_ops(*blueprint) =~= stack_ops(*stack));
                }
            },
            None => {
                proof {
                    assert(done =~= stack_ops(*stack));
                }
            },
        }
        context
    }
}

impl Default for VariableContextBuilder {
    fn default() -> (r: VariableContextBuilder) {
        VariableContextBuilder::new()
    }
}

/// The writes for the name and such of a blueprint.
fn write_blueprint_head(context: &mut VariableContext, blueprint: &Blueprint)
    requires
        old(context).wf(),
    ensures
        final(context).wf(),
        final(context)@ == inserted_all(old(context)@, blueprint_head_ops(*blueprint)),
{
    let ghost base = context@;
    let ghost mut ops = Seq::<(Seq<char>, Json)>::empty();
    record(
        context,
        String::from_str("blueprint.id"),
        JsonValue::text(blueprint.id.as_str()),
        Ghost(base),
        Ghost(ops),
    );
    proof {
        ops = ops.push(("blueprint.id"@, Json::Text(blueprint.id@)));
    }
    record(
        context,
        String::from_str("blueprint.name"),
        JsonValue::text(blueprint.name.as_str()),
        Ghost(base),
        Ghost(ops),
    );
    proof {
        ops = ops.push(("blueprint.name"@, Json::Text(blueprint.name@)));
    }
    record_optional(
        context,
        String::from_str("blueprint.description"),
        &blueprint.description,
        Ghost(base),
        Ghost(ops),
    );
    proof {
        assert(ops + optional_text("blueprint.description"@, blueprint.description)
            =~= blueprint_head_ops(*blueprint));
    }
}

/// A resource of a blueprint as a mapping.
pub fn blueprint_resource_value(r: &BlueprintResource) -> (v: JsonValue)
    requires
        r.wf(),
    ensures
        v@ == blueprint_resource_json(*r),
        v@.wf(),
{
    let mut pairs = resource_head_members(
        &r.id,
        &r.name,
        &r.description,
        &r.resource_type,
        &r.cloud_provider,
    );
    let ghost head = members_view(pairs@);
    pairs.push((String::from_str("configuration"), r.configuration.clone()));
    let properties = copy_pairs(&r.cloud_specific_properties);
    proof {
        assert forall|i: int| 0 <= i < properties.len() implies (#[trigger] properties@[i]).1@.wf() by {
            assert(members_view(properties@)[i].1 == members_view(r.cloud_specific_properties@)[i].1);
            assert(r.cloud_specific_properties@[i].1@.wf());
        }
    }
    pairs.push((String::from_str("cloud_specific_properties"), JsonValue::object(properties)));
    proof {
        assert(members_view(pairs@) =~= head + seq![
            ("configuration"@, r.configuration@),
            ("cloud_specific_properties"@, object_of(members_view(r.cloud_specific_properties@))),
        ]);
    }
    JsonValue::object(pairs)
}

/// A resource of a stack as a mapping.
pub fn stack_resource_value(r: &StackResource) -> (v: JsonValue)
    requires
        r.wf(),
    ensures
        v@ == stack_resource_json(*r),
        v@.wf(),
{
    let mut pairs = resource_head_members(
        &r.id,
        &r.name,
        &r.description,
        &r.resource_type,
        &r.cloud_provider,
    );
    let ghost head = members_view(pairs@);
    let configuration = copy_pairs(&r.configuration);
    proof {
        assert forall|i: int| 0 <= i < configuration.len() implies (
        #[trigger] configuration@[i]).1@.wf() by {
            assert(members_view(configuration@)[i].1 == members_view(r.configuration@)[i].1);
            assert(r.configuration@[i].1@.wf());
        }
    }
    pairs.push((String::from_str("configuration"), JsonValue::object(configuration)));
    proof {
        assert(members_view(pairs@) =~= head + seq![
            ("configuration"@, object_of(members_view(r.configuration@))),
        ]);
    }
    JsonValue::object(pairs)
}

/// Cloud providers as a list of mappings.
pub fn cloud_providers_value(providers: &Vec<CloudProvider>) -> (v: JsonValue)
    ensures
        v@ == cloud_providers_json(providers@),
        v@.wf(),
{
    let mut list: Vec<JsonValue> = Vec::new();
    let mut i: usize = 0;
    while i < providers.len()
        invariant
            i <= providers.len(),
            list.len() == i,
            forall|j: int|
                0 <= j < i ==> (#[trigger] list@[j])@ == cloud_provider_json(providers@[j])
                    && list@[j]@.wf(),
        decreases providers.len() - i,
    {
        list.push(cloud_provider_value(&providers[i]));
        i += 1;
    }
    proof {
        lemma_view_array(list);
        assert(items_view(list@) =~= cloud_providers_json(providers@)->Array_0);
    }
    JsonValue::array(list)
}

/// The writes for one resource of a blueprint.
fn write_blueprint_resource(context: &mut VariableContext, index: usize, r: &BlueprintResource)
    requires
        old(context).wf(),
        r.wf(),
    ensures
        final(context).wf(),
        final(context)@ == inserted_all(old(context)@, blueprint_resource_ops(index as nat, *r)),
{
    let ghost base = context@;
    let prefix = item_path_string("resources", index);
    write_resource_head(
        context,
        prefix.as_str(),
        &r.id,
        &r.name,
        &r.description,
        &r.resource_type,
        &r.cloud_provider,
    );
    let ghost head = resource_head_ops(
        prefix@,
        r.id,
        r.name,
        r.description,
        r.resource_type,
        r.cloud_provider,
    );
    // a store that is built overrides nothing that matters: the lines are dropped
    let mut overridden: Vec<String> = Vec::new();
    write_nested(context, joined(prefix.as_str(), ".configuration"), &r.configuration, &mut overridden);
    let ghost whole = entry_ops(prefix@ + ".configuration"@, r.configuration@);
    proof {
        lemma_inserted_all_concat(base, head, whole);
    }
    let properties_prefix = joined(prefix.as_str(), ".cloud_specific_properties.");
    write_properties(context, properties_prefix.as_str(), &r.cloud_specific_properties);
    proof {
        let tail = property_ops(
            properties_prefix@,
            r.cloud_specific_properties@,
            r.cloud_specific_properties@.len(),
        );
        lemma_inserted_all_concat(base, head + whole, tail);
    }
}

/// The writes for one resource of a stack.
fn write_stack_resource(context: &mut VariableContext, index: usize, r: &StackResource)
    requires
        old(context).wf(),
        r.wf(),
    ensures
        final(context).wf(),
        final(context)@ == inserted_all(old(context)@, stack_resource_ops(index as nat, *r)),
{
    let ghost base = context@;
    let prefix = item_path_string("stack_resources", index);
    write_resource_head(
        context,
        prefix.as_str(),
        &r.id,
        &r.name,
        &r.description,
        &r.resource_type,
        &r.cloud_provider,
    );
    let ghost head = resource_head_ops(
        prefix@,
        r.id,
        r.name,
        r.description,
        r.resource_type,
        r.cloud_provider,
    );
    let pairs = copy_pairs(&r.configuration);
    proof {
        assert forall|i: int| 0 <= i < pairs.len() implies (#[trigger] pairs@[i]).1@.wf() by {
            assert(members_view(pairs@)[i].1 == members_view(r.configuration@)[i].1);
            assert(r.configuration@[i].1@.wf());
        }
    }
    let configuration = JsonValue::object(pairs);
    // a store that is built overrides nothing that matters: the lines are dropped
    let mut overridden: Vec<String> = Vec::new();
    write_nested(context, joined(prefix.as_str(), ".configuration"), &configuration, &mut overridden);
    proof {
        lemma_inserted_all_concat(
            base,
            head,
            entry_ops(prefix@ + ".configuration"@, object_of(members_view(r.configuration@))),
        );
    }
}

} // verus!
