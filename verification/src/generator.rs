//! Names for generated Terraform code: the provider that stands for a
//! cloud, where it comes from, and names that are safe in identifiers.

use vstd::prelude::*;
use vstd::string::StringExecFns;
use crate::diagnostics::contains;
use crate::models::{Blueprint, CloudProvider, Stack};
use crate::resource_mapper::{
    pairs_view, row_for, standard_rows, MappingView, ResourceMapper, ResourceTypeView,
    TerraformResourceType,
};
use crate::text::{
    chars_of, contains_text, has_prefix, lemma_lex_lt_irreflexive, lemma_lex_lt_total,
    lemma_lex_lt_transitive, lex_lt, lowercase_of, starts_with, str_eq, str_lt, string_of,
    to_lowercase, to_uppercase, uppercase_of,
};
use crate::value::{
    items_view, lemma_put_sorted, lemma_rank, lemma_view_array, lemma_view_object, members_view,
    put, sorted_keys, Json, JsonValue,
};

verus! {

/// The four files of generated Terraform code.
#[derive(Debug, PartialEq, Eq)]
pub struct GeneratedCode {
    pub main_tf: String,
    pub variables_tf: String,
    pub providers_tf: String,
    pub outputs_tf: String,
}

/// Generates names for Terraform code.
pub struct CodeGenerator {
    resource_mapper: ResourceMapper,
}

/// The Terraform provider for a cloud, given the name of the cloud in
/// uppercase and in lowercase: a known cloud has a provider of its own,
/// any other is its own provider.
pub open spec fn provider_for(upper: Seq<char>, lower: Seq<char>) -> Seq<char> {
    if upper == "AWS"@ {
        "aws"@
    } else if upper == "AZURE"@ {
        "azurerm"@
    } else if upper == "GCP"@ {
        "google"@
    } else {
        lower
    }
}

/// Where the provider for a cloud comes from and which versions of it
/// will do, given the name of the cloud in uppercase.
pub open spec fn source_for(upper: Seq<char>) -> (Seq<char>, Seq<char>) {
    if upper == "AWS"@ {
        ("hashicorp/aws"@, "~> 5.0"@)
    } else if upper == "AZURE"@ {
        ("hashicorp/azurerm"@, "~> 3.0"@)
    } else if upper == "GCP"@ {
        ("hashicorp/google"@, "~> 5.0"@)
    } else {
        ("hashicorp/unknown"@, "~> 1.0"@)
    }
}

/// The character that stands for `c` in a sanitized name: an underscore
/// for a dash, a space or a dot, the character itself otherwise.
pub open spec fn sanitized_char(c: char) -> char {
    if c == '-' || c == ' ' || c == '.' {
        '_'
    } else {
        c
    }
}

/// A lowercase name made safe for use in identifiers.
pub open spec fn sanitized(lower: Seq<char>) -> Seq<char> {
    Seq::new(lower.len(), |i: int| sanitized_char(lower[i]))
}

impl CodeGenerator {
    /// The table of the resource types that the generator knows.
    pub closed spec fn mapper(&self) -> ResourceMapper {
        self.resource_mapper
    }

    /// A generator with the table of the known resource types.
    pub fn new() -> (r: CodeGenerator)
        ensures
            r.mapper().rows() == standard_rows(),
    {
        CodeGenerator { resource_mapper: ResourceMapper::new() }
    }

    /// The Terraform provider for a cloud, given the name of the cloud
    /// in uppercase and in lowercase.
    pub fn provider_name(upper: &str, lower: &str) -> (r: String)
        ensures
            r@ == provider_for(upper@, lower@),
    {
        if str_eq(upper, "AWS") {
            String::from_str("aws")
        } else if str_eq(upper, "AZURE") {
            String::from_str("azurerm")
        } else if str_eq(upper, "GCP") {
            String::from_str("google")
        } else {
            String::from_str(lower)
        }
    }

    /// The Terraform provider for a cloud, whatever the case of its name.
    pub fn normalize_provider_name(&self, provider_name: &str) -> (r: String)
        ensures
            r@ == provider_for(uppercase_of(provider_name@), lowercase_of(provider_name@)),
    {
        let upper = to_uppercase(provider_name);
        let lower = to_lowercase(provider_name);
        CodeGenerator::provider_name(upper.as_str(), lower.as_str())
    }

    /// Where the provider for a cloud comes from and which versions of it
    /// will do, given the name of the cloud in uppercase.
    pub fn provider_source(upper: &str) -> (r: (&'static str, &'static str))
        ensures
            (r.0@, r.1@) == source_for(upper@),
    {
        if str_eq(upper, "AWS") {
            ("hashicorp/aws", "~> 5.0")
        } else if str_eq(upper, "AZURE") {
            ("hashicorp/azurerm", "~> 3.0")
        } else if str_eq(upper, "GCP") {
            ("hashicorp/google", "~> 5.0")
        } else {
            ("hashicorp/unknown", "~> 1.0")
        }
    }

    /// Where the provider for a cloud comes from and which versions of it
    /// will do, whatever the case of the cloud's name.
    pub fn get_provider_source_and_version(&self, provider_name: &str) -> (r: (
        &'static str,
        &'static str,
    ))
        ensures
            (r.0@, r.1@) == source_for(uppercase_of(provider_name@)),
    {
        let upper = to_uppercase(provider_name);
        CodeGenerator::provider_source(upper.as_str())
    }

    /// A lowercase name made safe for use in identifiers.
    pub fn sanitize_lowercase(lower: &str) -> (r: String)
        ensures
            r@ == sanitized(lower@),
    {
        let chars = chars_of(lower);
        let mut out: Vec<char> = Vec::new();
        let mut i: usize = 0;
        while i < chars.len()
            invariant
                i <= chars.len(),
                out.len() == i,
                forall|j: int| 0 <= j < i ==> out@[j] == sanitized_char(chars@[j]),
            decreases chars.len() - i,
        {
            let c = chars[i];
            if c == '-' || c == ' ' || c == '.' {
                out.push('_');
            } else {
                out.push(c);
            }
            i += 1;
        }
        proof {
            assert(out@ =~= sanitized(lower@));
        }
        string_of(&out)
    }

    /// A name made safe for use in identifiers: in lowercase, with an
    /// underscore for each dash, space and dot.
    pub fn sanitize_name(&self, name: &str) -> (r: String)
        ensures
            r@ == sanitized(lowercase_of(name@)),
    {
        let lower = to_lowercase(name);
        CodeGenerator::sanitize_lowercase(lower.as_str())
    }
}

/// What is known of a Terraform variable.
#[derive(Debug, PartialEq, Eq)]
pub struct VariableDefinition {
    pub description: String,
    pub var_type: String,
    pub default_value: Option<String>,
}

/// The same as the proofs see it.
pub struct DefinitionView {
    pub description: Seq<char>,
    pub var_type: Seq<char>,
    pub default_value: Option<Seq<char>>,
}

impl View for VariableDefinition {
    type V = DefinitionView;

    open spec fn view(&self) -> DefinitionView {
        DefinitionView {
            description: self.description@,
            var_type: self.var_type@,
            default_value: match self.default_value {
                Some(d) => Some(d@),
                None => None,
            },
        }
    }
}

/// Variables by name as the proofs see them.
pub open spec fn definitions_view(variables: Seq<(String, VariableDefinition)>) -> Seq<
    (Seq<char>, DefinitionView),
> {
    Seq::new(variables.len(), |i: int| (variables[i].0@, variables[i].1@))
}

/// Defines a variable: puts the definition under the name, in place of
/// the definition that was there if the name was defined, else at the
/// place that keeps the names in order.
pub fn define(
    variables: &mut Vec<(String, VariableDefinition)>,
    name: String,
    definition: VariableDefinition,
)
    requires
        sorted_keys(definitions_view(old(variables)@)),
    ensures
        sorted_keys(definitions_view(final(variables)@)),
        definitions_view(final(variables)@) == put(
            definitions_view(old(variables)@),
            name@,
            definition@,
        ),
{
    let ghost before = definitions_view(variables@);
    let ghost key = name@;
    let ghost value = definition@;
    let mut p: usize = 0;
    while p < variables.len() && str_lt(variables[p].0.as_str(), name.as_str())
        invariant
            p <= variables.len(),
            before == definitions_view(variables@),
            sorted_keys(before),
            forall|i: int| 0 <= i < p ==> lex_lt((#[trigger] before[i]).0, name@),
        decreases variables.len() - p,
    {
        assert(before[p as int].0 == variables@[p as int].0@);
        p += 1;
    }
    proof {
        assert forall|i: int| p <= i < before.len() implies !lex_lt((#[trigger] before[i]).0, key) by {
            assert(before[p as int].0 == variables@[p as int].0@);
            if i > p && lex_lt(before[i].0, key) {
                assert(lex_lt(before[p as int].0, before[i].0));
                lemma_lex_lt_transitive(before[p as int].0, before[i].0, key);
            }
        }
        lemma_rank(before, key, p as int);
        lemma_put_sorted(before, key, value);
    }
    if p < variables.len() && !str_lt(name.as_str(), variables[p].0.as_str()) {
        proof {
            assert(before[p as int].0 == variables@[p as int].0@);
            lemma_lex_lt_total(key, before[p as int].0);
        }
        variables.set(p, (name, definition));
    } else {
        proof {
            if p < variables.len() {
                assert(before[p as int].0 == variables@[p as int].0@);
                lemma_lex_lt_irreflexive(key);
            }
        }
        variables.insert(p, (name, definition));
    }
    proof {
        assert(definitions_view(variables@) =~= put(before, key, value));
    }
}

/// The type and the default that a Terraform variable has for a value:
/// a text, a number and a truth value give their type and themselves as
/// default, a list and a mapping give a type and no default, and null
/// gives a text without default.
pub open spec fn inferred(value: Json) -> (Seq<char>, Option<Seq<char>>) {
    match value {
        Json::Text(s) => ("string"@, Some("\""@ + s + "\""@)),
        Json::Number(n) => ("number"@, Some(n)),
        Json::Bool(b) => ("bool"@, Some(if b {
            "true"@
        } else {
            "false"@
        })),
        Json::Array(_) => ("list(string)"@, None),
        Json::Object(_) => ("map(string)"@, None),
        Json::Null => ("string"@, None),
    }
}

/// The block that declares one variable.
pub open spec fn variable_block(name: Seq<char>, definition: DefinitionView) -> Seq<char> {
    "variable \""@ + name + "\" {\n"@ + "  description = \""@ + definition.description + "\"\n"@
        + "  type        = "@ + definition.var_type + "\n"@ + (match definition.default_value {
        Some(d) => "  default     = "@ + d + "\n"@,
        None => Seq::empty(),
    }) + "}\n\n"@
}

/// The blocks that declare the first `n` variables, in their order.
pub open spec fn variable_blocks(variables: Seq<(Seq<char>, DefinitionView)>, n: nat) -> Seq<char>
    decreases n,
{
    if n == 0 || n > variables.len() {
        Seq::empty()
    } else {
        variable_blocks(variables, (n - 1) as nat) + variable_block(
            variables[n - 1].0,
            variables[n - 1].1,
        )
    }
}

/// The definition of the variable that holds the identifier of a
/// resource.
pub open spec fn identifier_definition(
    resource_name: Seq<char>,
    description: Option<String>,
) -> DefinitionView {
    DefinitionView {
        description: "Identifier for "@ + resource_name + " "@ + (match description {
            Some(d) => d@,
            None => "resource"@,
        }),
        var_type: "string"@,
        default_value: Some("\""@ + resource_name + "\""@),
    }
}

/// The definition of the variable for a property of a resource.
pub open spec fn property_definition(
    resource_name: Seq<char>,
    key: Seq<char>,
    value: Json,
) -> DefinitionView {
    DefinitionView {
        description: key + " for "@ + resource_name,
        var_type: inferred(value).0,
        default_value: inferred(value).1,
    }
}

/// The variables after those for the first `n` properties of a resource
/// were defined.
pub open spec fn with_properties(
    variables: Seq<(Seq<char>, DefinitionView)>,
    resource_name: Seq<char>,
    properties: Seq<(Seq<char>, Json)>,
    n: nat,
) -> Seq<(Seq<char>, DefinitionView)>
    decreases n,
{
    if n == 0 || n > properties.len() {
        variables
    } else {
        put(
            with_properties(variables, resource_name, properties, (n - 1) as nat),
            sanitized(lowercase_of(resource_name)) + "_"@ + sanitized(
                lowercase_of(properties[n - 1].0),
            ),
            property_definition(resource_name, properties[n - 1].0, properties[n - 1].1),
        )
    }
}

/// The variables after those of a resource were defined: one for its
/// identifier, then one for each of its properties.
pub open spec fn with_resource(
    variables: Seq<(Seq<char>, DefinitionView)>,
    resource_name: Seq<char>,
    properties: Seq<(Seq<char>, Json)>,
    description: Option<String>,
) -> Seq<(Seq<char>, DefinitionView)> {
    with_properties(
        put(
            variables,
            sanitized(lowercase_of(resource_name)) + "_identifier"@,
            identifier_definition(resource_name, description),
        ),
        resource_name,
        properties,
        properties.len(),
    )
}

/// The variables after those for the region of a cloud were defined: a
/// region for AWS, a location for Azure, a project and a region for GCP,
/// nothing for another cloud. The name of the cloud is given in
/// uppercase.
pub open spec fn with_region(variables: Seq<(Seq<char>, DefinitionView)>, upper: Seq<char>) -> Seq<
    (Seq<char>, DefinitionView),
> {
    if upper == "AWS"@ {
        put(
            variables,
            "aws_region"@,
            DefinitionView {
                description: "AWS region for resource deployment"@,
                var_type: "string"@,
                default_value: Some("\"us-east-1\""@),
            },
        )
    } else if upper == "AZURE"@ {
        put(
            variables,
            "azure_location"@,
            DefinitionView {
                description: "Azure location for resource deployment"@,
                var_type: "string"@,
                default_value: Some("\"eastus\""@),
            },
        )
    } else if upper == "GCP"@ {
        put(
            put(
                variables,
                "gcp_project"@,
                DefinitionView {
                    description: "GCP project ID"@,
                    var_type: "string"@,
                    default_value: None,
                },
            ),
            "gcp_region"@,
            DefinitionView {
                description: "GCP region for resource deployment"@,
                var_type: "string"@,
                default_value: Some("\"us-central1\""@),
            },
        )
    } else {
        variables
    }
}

/// The variables after those for the regions of the first `n` clouds
/// were defined.
pub open spec fn with_regions(
    variables: Seq<(Seq<char>, DefinitionView)>,
    providers: Seq<CloudProvider>,
    n: nat,
) -> Seq<(Seq<char>, DefinitionView)>
    decreases n,
{
    if n == 0 || n > providers.len() {
        variables
    } else {
        with_region(
            with_regions(variables, providers, (n - 1) as nat),
            uppercase_of(providers[n - 1].name@),
        )
    }
}

/// The line or lines for one item of a list attribute.
pub open spec fn item_text(indent: Seq<char>, item: Json) -> Seq<char>
    decreases item, 0nat,
{
    match item {
        Json::Text(s) => indent + "  \""@ + s + "\",\n"@,
        Json::Number(n) => indent + "  "@ + n + ",\n"@,
        Json::Bool(b) => indent + "  "@ + (if b {
            "true"@
        } else {
            "false"@
        }) + ",\n"@,
        Json::Object(members) => indent + "  {\n"@ + attributes_text(
            indent + "    "@,
            members,
            members.len(),
        ) + indent + "  },\n"@,
        _ => Seq::empty(),
    }
}

/// The lines for the first `n` items of a list attribute.
pub open spec fn items_text(indent: Seq<char>, items: Seq<Json>, n: nat) -> Seq<char>
    decreases items, n,
{
    if n == 0 || n > items.len() {
        Seq::empty()
    } else {
        items_text(indent, items, (n - 1) as nat) + item_text(indent, items[n - 1])
    }
}

/// The lines for the first `n` members of a mapping as attributes.
pub open spec fn attributes_text(indent: Seq<char>, members: Seq<(Seq<char>, Json)>, n: nat) -> Seq<
    char,
>
    decreases members, n,
{
    if n == 0 || n > members.len() {
        Seq::empty()
    } else {
        attributes_text(indent, members, (n - 1) as nat) + attribute_text(
            indent,
            members[n - 1].0,
            members[n - 1].1,
        )
    }
}

/// The lines for one attribute: a name and a value. A text that starts
/// with `var.` stands as it is, any other text in quotes; a list and a
/// mapping stand in brackets with what they hold indented.
pub open spec fn attribute_text(indent: Seq<char>, name: Seq<char>, value: Json) -> Seq<char>
    decreases value, 1nat,
{
    match value {
        Json::Text(s) => if starts_with(s, "var."@) {
            indent + name + "  = "@ + s + "\n"@
        } else {
            indent + name + "  = \""@ + s + "\"\n"@
        },
        Json::Number(n) => indent + name + "  = "@ + n + "\n"@,
        Json::Bool(b) => indent + name + "  = "@ + (if b {
            "true"@
        } else {
            "false"@
        }) + "\n"@,
        Json::Array(items) => indent + name + "  = [\n"@ + items_text(indent, items, items.len())
            + indent + "]\n"@,
        Json::Object(members) => indent + name + "  = {\n"@ + attributes_text(
            indent + "  "@,
            members,
            members.len(),
        ) + indent + "}\n"@,
        Json::Null => indent + name + "  = null\n"@,
    }
}

/// Whether a property is the identifier of a resource under one of its
/// names, which the block of the resource gives in a line of its own.
pub open spec fn names_identifier(key: Seq<char>) -> bool {
    key == "identifier"@ || key == "name"@ || key == "bucket"@ || key == "cluster_name"@ || key
        == "server_name"@ || key == "instance_name"@
}

/// The name that an attribute has in Terraform: the name that the
/// mappings give it, or its own.
pub open spec fn mapped_name(mappings: Seq<(Seq<char>, Seq<char>)>, key: Seq<char>, from: int) -> Seq<
    char,
>
    decreases mappings.len() - from,
{
    if from < 0 || from >= mappings.len() {
        key
    } else if mappings[from].0 == key {
        mappings[from].1
    } else {
        mapped_name(mappings, key, from + 1)
    }
}

/// The lines for the first `n` properties of a resource as attributes of
/// its block.
pub open spec fn configuration_text(
    mappings: Seq<(Seq<char>, Seq<char>)>,
    configuration: Seq<(Seq<char>, Json)>,
    n: nat,
) -> Seq<char>
    decreases n,
{
    if n == 0 || n > configuration.len() {
        Seq::empty()
    } else {
        configuration_text(mappings, configuration, (n - 1) as nat) + if names_identifier(
            configuration[n - 1].0,
        ) {
            Seq::empty()
        } else {
            attribute_text(
                "  "@,
                mapped_name(mappings, configuration[n - 1].0, 0),
                configuration[n - 1].1,
            )
        }
    }
}

/// The line that gives a resource its identifier, for the resource
/// types that take one.
pub open spec fn identifier_line(resource_type: Seq<char>, name: Seq<char>) -> Seq<char> {
    if contains_text(resource_type, "db_instance"@) {
        "  identifier = var."@ + name + "_identifier\n"@
    } else if contains_text(resource_type, "s3_bucket"@) {
        "  bucket = var."@ + name + "_identifier\n"@
    } else if contains_text(resource_type, "cluster"@) || contains_text(resource_type, "server"@) {
        "  name = var."@ + name + "_identifier\n"@
    } else {
        Seq::empty()
    }
}

/// A line of the tags of a resource, where there is something to tag
/// with.
pub open spec fn tag_line(label: Seq<char>, value: Option<Seq<char>>) -> Seq<char> {
    match value {
        Some(v) => label + v + "\"\n"@,
        None => Seq::empty(),
    }
}

/// The block of one resource.
pub open spec fn resource_block(
    resource_name: Seq<char>,
    terraform: ResourceTypeView,
    configuration: Seq<(Seq<char>, Json)>,
    blueprint_name: Option<Seq<char>>,
    stack_name: Option<Seq<char>>,
) -> Seq<char> {
    let name = sanitized(lowercase_of(resource_name));
    block_opening(terraform.resource_type, name) + configuration_text(
        terraform.attribute_mappings,
        configuration,
        configuration.len(),
    ) + tags_text(resource_name, blueprint_name, stack_name) + "}\n\n"@
}

/// The line that opens the block of a resource and, for the resource
/// types that take one, the line that gives it its identifier.
pub open spec fn block_opening(resource_type: Seq<char>, name: Seq<char>) -> Seq<char> {
    "resource \""@ + resource_type + "\" \""@ + name + "\" {\n"@ + identifier_line(
        resource_type,
        name,
    )
}

/// The tags of a resource: its name, who manages it, and the blueprint
/// or the stack that it belongs to.
pub open spec fn tags_text(
    resource_name: Seq<char>,
    blueprint_name: Option<Seq<char>>,
    stack_name: Option<Seq<char>>,
) -> Seq<char> {
    "\n  tags = {\n"@ + "    Name      = \""@ + resource_name + "\"\n"@
        + "    ManagedBy = \"IDP\"\n"@ + tag_line("    Blueprint = \""@, blueprint_name) + tag_line(
        "    Stack     = \""@,
        stack_name,
    ) + "  }\n"@
}

/// The comment for a resource whose type has no Terraform resource type.
pub open spec fn unmapped_comment(
    resource_name: Seq<char>,
    resource_type: Seq<char>,
    cloud_provider: Seq<char>,
) -> Seq<char> {
    "# Resource '"@ + resource_name + "' of type '"@ + resource_type + "' for provider '"@
        + cloud_provider + "' has no mapping\n\n"@
}

/// The Terraform resource type that the rows give for a kind of resource
/// on a cloud.
pub open spec fn terraform_for(
    rows: Seq<MappingView>,
    resource_type: Seq<char>,
    cloud_provider: Seq<char>,
) -> Option<ResourceTypeView> {
    match row_for(rows, resource_type, cloud_provider, 0) {
        Some(i) => Some(rows[i].terraform),
        None => None,
    }
}

/// What one resource adds to the main file: its block, or a comment
/// where its type has no Terraform resource type.
pub open spec fn main_entry(
    rows: Seq<MappingView>,
    resource_name: Seq<char>,
    resource_type: Seq<char>,
    cloud_provider: Seq<char>,
    configuration: Seq<(Seq<char>, Json)>,
    blueprint_name: Option<Seq<char>>,
    stack_name: Option<Seq<char>>,
) -> Seq<char> {
    match terraform_for(rows, resource_type, cloud_provider) {
        Some(terraform) => resource_block(
            resource_name,
            terraform,
            configuration,
            blueprint_name,
            stack_name,
        ),
        None => unmapped_comment(resource_name, resource_type, cloud_provider),
    }
}

/// The outputs of one resource: its id and, on AWS, its ARN; nothing
/// where its type has no Terraform resource type.
pub open spec fn output_entry(
    rows: Seq<MappingView>,
    resource_name: Seq<char>,
    resource_type: Seq<char>,
    cloud_provider: Seq<char>,
) -> Seq<char> {
    let name = sanitized(lowercase_of(resource_name));
    match terraform_for(rows, resource_type, cloud_provider) {
        Some(terraform) => "output \""@ + name + "_id\" {\n"@ + "  description = \"ID of "@
            + resource_name + "\"\n"@ + "  value       = "@ + terraform.resource_type + "."@ + name
            + ".id\n"@ + "}\n\n"@ + (if terraform.provider == "aws"@ {
            "output \""@ + name + "_arn\" {\n"@ + "  description = \"ARN of "@ + resource_name
                + "\"\n"@ + "  value       = "@ + terraform.resource_type + "."@ + name + ".arn\n"@
                + "}\n\n"@
        } else {
            Seq::empty()
        }),
        None => Seq::empty(),
    }
}

/// What the first `n` resources of a blueprint add to the main file.
pub open spec fn blueprint_main(
    rows: Seq<MappingView>,
    blueprint: Blueprint,
    n: nat,
) -> Seq<char>
    decreases n,
{
    if n == 0 || n > blueprint.resources@.len() {
        Seq::empty()
    } else {
        let r = blueprint.resources@[n - 1];
        blueprint_main(rows, blueprint, (n - 1) as nat) + main_entry(
            rows,
            r.name@,
            r.resource_type.name@,
            r.cloud_provider.name@,
            members_view(r.cloud_specific_properties@),
            Some(blueprint.name@),
            None,
        )
    }
}

/// What the first `n` resources of a stack add to the main file.
pub open spec fn stack_main(rows: Seq<MappingView>, stack: Stack, n: nat) -> Seq<
    char,
>
    decreases n,
{
    if n == 0 || n > stack.stack_resources@.len() {
        Seq::empty()
    } else {
        let r = stack.stack_resources@[n - 1];
        stack_main(rows, stack, (n - 1) as nat) + main_entry(
            rows,
            r.name@,
            r.resource_type.name@,
            r.cloud_provider.name@,
            members_view(r.configuration@),
            None,
            Some(stack.name@),
        )
    }
}

/// The outputs of the first `n` resources of a blueprint.
pub open spec fn blueprint_outputs(
    rows: Seq<MappingView>,
    blueprint: Blueprint,
    n: nat,
) -> Seq<char>
    decreases n,
{
    if n == 0 || n > blueprint.resources@.len() {
        Seq::empty()
    } else {
        let r = blueprint.resources@[n - 1];
        blueprint_outputs(rows, blueprint, (n - 1) as nat) + output_entry(
            rows,
            r.name@,
            r.resource_type.name@,
            r.cloud_provider.name@,
        )
    }
}

/// The outputs of the first `n` resources of a stack.
pub open spec fn stack_outputs(
    rows: Seq<MappingView>,
    stack: Stack,
    n: nat,
) -> Seq<char>
    decreases n,
{
    if n == 0 || n > stack.stack_resources@.len() {
        Seq::empty()
    } else {
        let r = stack.stack_resources@[n - 1];
        stack_outputs(rows, stack, (n - 1) as nat) + output_entry(
            rows,
            r.name@,
            r.resource_type.name@,
            r.cloud_provider.name@,
        )
    }
}

/// The names of the first `n` clouds, each once, in the order in which
/// they first occur.
pub open spec fn distinct_names(providers: Seq<CloudProvider>, n: nat) -> Seq<Seq<char>>
    decreases n,
{
    if n == 0 || n > providers.len() {
        Seq::empty()
    } else {
        let before = distinct_names(providers, (n - 1) as nat);
        if before.contains(providers[n - 1].name@) {
            before
        } else {
            before.push(providers[n - 1].name@)
        }
    }
}

/// The entry of one provider among the required providers.
pub open spec fn required_provider(name: Seq<char>) -> Seq<char> {
    let upper = uppercase_of(name);
    "    "@ + provider_for(upper, lowercase_of(name)) + " = {\n"@ + "      source  = \""@
        + source_for(upper).0 + "\"\n"@ + "      version = \""@ + source_for(upper).1 + "\"\n"@
        + "    }\n"@
}

/// The block that configures one provider.
pub open spec fn provider_block(name: Seq<char>) -> Seq<char> {
    let provider = provider_for(uppercase_of(name), lowercase_of(name));
    "provider \""@ + provider + "\" {\n"@ + (if provider == "aws"@ {
        "  region = var.aws_region\n"@
    } else if provider == "azurerm"@ {
        "  features {}\n"@
    } else if provider == "google"@ {
        "  project = var.gcp_project\n  region  = var.gcp_region\n"@
    } else {
        "  # Configure provider-specific settings here\n"@
    }) + "}\n\n"@
}

/// The entries of the first `n` names among the required providers.
pub open spec fn required_providers(names: Seq<Seq<char>>, n: nat) -> Seq<char>
    decreases n,
{
    if n == 0 || n > names.len() {
        Seq::empty()
    } else {
        required_providers(names, (n - 1) as nat) + required_provider(names[n - 1])
    }
}

/// The blocks that configure the first `n` names.
pub open spec fn provider_blocks(names: Seq<Seq<char>>, n: nat) -> Seq<char>
    decreases n,
{
    if n == 0 || n > names.len() {
        Seq::empty()
    } else {
        provider_blocks(names, (n - 1) as nat) + provider_block(names[n - 1])
    }
}

/// The providers file for the clouds: what Terraform requires, then a
/// block for each cloud, each cloud once.
pub open spec fn providers_text(providers: Seq<CloudProvider>) -> Seq<char> {
    let names = distinct_names(providers, providers.len());
    "terraform {\n  required_providers {\n"@ + required_providers(names, names.len())
        + "  }\n}\n\n"@ + provider_blocks(names, names.len())
}

/// The clouds of the first `n` resources of a stack.
pub open spec fn stack_providers(stack: Stack) -> Seq<CloudProvider> {
    Seq::new(stack.stack_resources@.len(), |i: int| stack.stack_resources@[i].cloud_provider)
}

/// The variables of the first `n` resources of a blueprint, after those
/// in `variables`.
pub open spec fn with_blueprint_resources(
    variables: Seq<(Seq<char>, DefinitionView)>,
    blueprint: Blueprint,
    n: nat,
) -> Seq<(Seq<char>, DefinitionView)>
    decreases n,
{
    if n == 0 || n > blueprint.resources@.len() {
        variables
    } else {
        let r = blueprint.resources@[n - 1];
        with_resource(
            with_blueprint_resources(variables, blueprint, (n - 1) as nat),
            r.name@,
            members_view(r.cloud_specific_properties@),
            r.description,
        )
    }
}

/// The variables of the first `n` resources of a stack, after those in
/// `variables`.
pub open spec fn with_stack_resources(
    variables: Seq<(Seq<char>, DefinitionView)>,
    stack: Stack,
    n: nat,
) -> Seq<(Seq<char>, DefinitionView)>
    decreases n,
{
    if n == 0 || n > stack.stack_resources@.len() {
        variables
    } else {
        let r = stack.stack_resources@[n - 1];
        with_resource(
            with_stack_resources(variables, stack, (n - 1) as nat),
            r.name@,
            members_view(r.configuration@),
            r.description,
        )
    }
}

/// The variables of a blueprint: those for the regions of its clouds,
/// then those of its resources.
pub open spec fn blueprint_variables(blueprint: Blueprint) -> Seq<(Seq<char>, DefinitionView)> {
    with_blueprint_resources(
        with_regions(
            Seq::empty(),
            blueprint.supported_cloud_providers@,
            blueprint.supported_cloud_providers@.len(),
        ),
        blueprint,
        blueprint.resources@.len(),
    )
}

/// The variables of a stack: those for the regions of the clouds of its
/// resources, then those of its resources.
pub open spec fn stack_variables(stack: Stack) -> Seq<(Seq<char>, DefinitionView)> {
    with_stack_resources(
        with_regions(Seq::empty(), stack_providers(stack), stack.stack_resources@.len()),
        stack,
        stack.stack_resources@.len(),
    )
}

/// The text of a truth value.
fn truth(b: bool) -> (r: &'static str)
    ensures
        r@ == if b {
            "true"@
        } else {
            "false"@
        },
{
    if b {
        "true"
    } else {
        "false"
    }
}

/// Appends the lines for one attribute.
pub fn generate_attribute(output: &mut String, indent: &str, attribute_name: &str, value: &JsonValue)
    ensures
        final(output)@ == old(output)@ + attribute_text(indent@, attribute_name@, value@),
    decreases value, 1nat,
{
    let ghost start = output@;
    match value {
        JsonValue::Text(s) => {
            let chars = chars_of(s.as_str());
            output.append(indent);
            output.append(attribute_name);
            if has_prefix(&chars, &chars_of("var.")) {
                output.append("  = ");
                output.append(s.as_str());
                output.append("\n");
                assert(output@ =~= start + (indent@ + attribute_name@ + "  = "@ + s@ + "\n"@));
            } else {
                output.append("  = \"");
                output.append(s.as_str());
                output.append("\"\n");
                assert(output@ =~= start + (indent@ + attribute_name@ + "  = \""@ + s@ + "\"\n"@));
            }
        },
        JsonValue::Number(n) => {
            output.append(indent);
            output.append(attribute_name);
            output.append("  = ");
            output.append(n.as_str());
            output.append("\n");
            assert(output@ =~= start + (indent@ + attribute_name@ + "  = "@ + n@ + "\n"@));
        },
        JsonValue::Bool(b) => {
            output.append(indent);
            output.append(attribute_name);
            output.append("  = ");
            let t = truth(*b);
            output.append(t);
            output.append("\n");
            assert(output@ =~= start + (indent@ + attribute_name@ + "  = "@ + t@ + "\n"@));
        },
        JsonValue::Array(items) => {
            proof {
                lemma_view_array(*items);
            }
            let ghost iv = items_view(items@);
            output.append(indent);
            output.append(attribute_name);
            output.append("  = [\n");
            let ghost head = start + (indent@ + attribute_name@ + "  = [\n"@);
            assert(output@ =~= head + items_text(indent@, iv, 0));
            let mut i: usize = 0;
            while i < items.len()
                invariant
                    i <= items.len(),
                    iv == items_view(items@),
                    *value == JsonValue::Array(*items),
                    output@ == head + items_text(indent@, iv, i as nat),
                decreases items.len() - i,
            {
                let ghost before = output@;
                assert(iv[i as int] == items@[i as int]@);
                assert(value matches JsonValue::Array(v) && v == items);
                generate_item(output, indent, &items[i]);
                assert(output@ =~= head + (items_text(indent@, iv, i as nat) + item_text(
                    indent@,
                    iv[i as int],
                )));
                i += 1;
            }
            output.append(indent);
            output.append("]\n");
            assert(output@ =~= start + (indent@ + attribute_name@ + "  = [\n"@ + items_text(
                indent@,
                iv,
                iv.len(),
            ) + indent@ + "]\n"@));
        },
        JsonValue::Object(members) => {
            proof {
                lemma_view_object(*members);
            }
            let ghost mv = members_view(members@);
            output.append(indent);
            output.append(attribute_name);
            output.append("  = {\n");
            let ghost head = start + (indent@ + attribute_name@ + "  = {\n"@);
            assert(output@ =~= head);
            let deeper = String::from_str(indent).concat("  ");
            generate_nested_object(output, deeper.as_str(), value);
            output.append(indent);
            output.append("}\n");
            assert(output@ =~= start + (indent@ + attribute_name@ + "  = {\n"@ + attributes_text(
                indent@ + "  "@,
                mv,
                mv.len(),
            ) + indent@ + "}\n"@));
        },
        JsonValue::Null => {
            output.append(indent);
            output.append(attribute_name);
            output.append("  = null\n");
            assert(output@ =~= start + (indent@ + attribute_name@ + "  = null\n"@));
        },
    }
}

/// Appends the line or lines for one item of a list attribute.
fn generate_item(output: &mut String, indent: &str, item: &JsonValue)
    ensures
        final(output)@ == old(output)@ + item_text(indent@, item@),
    decreases item, 2nat,
{
    let ghost start = output@;
    match item {
        JsonValue::Text(s) => {
            output.append(indent);
            output.append("  \"");
            output.append(s.as_str());
            output.append("\",\n");
            assert(output@ =~= start + (indent@ + "  \""@ + s@ + "\",\n"@));
        },
        JsonValue::Number(n) => {
            output.append(indent);
            output.append("  ");
            output.append(n.as_str());
            output.append(",\n");
            assert(output@ =~= start + (indent@ + "  "@ + n@ + ",\n"@));
        },
        JsonValue::Bool(b) => {
            output.append(indent);
            output.append("  ");
            let t = truth(*b);
            output.append(t);
            output.append(",\n");
            assert(output@ =~= start + (indent@ + "  "@ + t@ + ",\n"@));
        },
        JsonValue::Object(members) => {
            proof {
                lemma_view_object(*members);
            }
            let ghost mv = members_view(members@);
            output.append(indent);
            output.append("  {\n");
            let deeper = String::from_str(indent).concat("    ");
            generate_nested_object(output, deeper.as_str(), item);
            output.append(indent);
            output.append("  },\n");
            assert(output@ =~= start + (indent@ + "  {\n"@ + attributes_text(
                indent@ + "    "@,
                mv,
                mv.len(),
            ) + indent@ + "  },\n"@));
        },
        _ => {
            assert(output@ =~= start + Seq::<char>::empty());
        },
    }
}

/// Appends the lines for the members of a mapping as attributes; for any
/// other value, nothing.
pub fn generate_nested_object(output: &mut String, indent: &str, value: &JsonValue)
    ensures
        final(output)@ == old(output)@ + match value@ {
            Json::Object(members) => attributes_text(indent@, members, members.len()),
            _ => Seq::empty(),
        },
    decreases value, 0nat,
{
    let ghost start = output@;
    match value {
        JsonValue::Object(members) => {
            proof {
                lemma_view_object(*members);
            }
            let ghost mv = members_view(members@);
            assert(output@ =~= start + attributes_text(indent@, mv, 0));
            let mut i: usize = 0;
            while i < members.len()
                invariant
                    i <= members.len(),
                    mv == members_view(members@),
                    *value == JsonValue::Object(*members),
                    output@ == start + attributes_text(indent@, mv, i as nat),
                decreases members.len() - i,
            {
                assert(mv[i as int] == (members@[i as int].0@, members@[i as int].1@));
                assert(value matches JsonValue::Object(v) && v == members);
                generate_attribute(output, indent, members[i].0.as_str(), &members[i].1);
                assert(output@ =~= start + (attributes_text(indent@, mv, i as nat)
                    + attribute_text(indent@, mv[i as int].0, mv[i as int].1)));
                i += 1;
            }
        },
        _ => {
            assert(output@ =~= start + Seq::<char>::empty());
        },
    }
}

/// The name that an attribute has in Terraform.
fn attribute_name<'a>(mappings: &'a Vec<(String, String)>, key: &'a str) -> (r: &'a str)
    ensures
        r@ == mapped_name(pairs_view(mappings@), key@, 0),
{
    let mut i: usize = 0;
    while i < mappings.len()
        invariant
            i <= mappings.len(),
            mapped_name(pairs_view(mappings@), key@, 0) == mapped_name(
                pairs_view(mappings@),
                key@,
                i as int,
            ),
        decreases mappings.len() - i,
    {
        assert(pairs_view(mappings@)[i as int] == (mappings@[i as int].0@, mappings@[i as int].1@));
        if str_eq(mappings[i].0.as_str(), key) {
            return mappings[i].1.as_str();
        }
        i += 1;
    }
    key
}

/// Whether a property is the identifier of a resource under one of its
/// names.
fn is_identifier(key: &str) -> (r: bool)
    ensures
        r == names_identifier(key@),
{
    str_eq(key, "identifier") || str_eq(key, "name") || str_eq(key, "bucket") || str_eq(
        key,
        "cluster_name",
    ) || str_eq(key, "server_name") || str_eq(key, "instance_name")
}

/// The type and the default that a Terraform variable has for a value.
pub fn infer_variable_type_and_default(value: &JsonValue) -> (r: (String, Option<String>))
    ensures
        r.0@ == inferred(value@).0,
        match r.1 {
            Some(d) => inferred(value@).1 == Some(d@),
            None => inferred(value@).1 is None,
        },
{
    match value {
        JsonValue::Text(s) => {
            let mut d = String::from_str("\"");
            d.append(s.as_str());
            d.append("\"");
            (String::from_str("string"), Some(d))
        },
        JsonValue::Number(n) => (String::from_str("number"), Some(n.clone())),
        JsonValue::Bool(b) => (String::from_str("bool"), Some(String::from_str(truth(*b)))),
        JsonValue::Array(_) => (String::from_str("list(string)"), None),
        JsonValue::Object(_) => (String::from_str("map(string)"), None),
        JsonValue::Null => (String::from_str("string"), None),
    }
}

/// Appends the line that opens the block of a resource and the line that
/// gives it its identifier.
fn open_block(output: &mut String, resource_type: &str, name: &str)
    ensures
        final(output)@ == old(output)@ + block_opening(resource_type@, name@),
{
    let ghost start = output@;
    let kind = chars_of(resource_type);
    output.append("resource \"");
    output.append(resource_type);
    output.append("\" \"");
    output.append(name);
    output.append("\" {\n");
    let ghost head = start + ("resource \""@ + resource_type@ + "\" \""@ + name@ + "\" {\n"@);
    assert(output@ =~= head);
    if contains(&kind, "db_instance") {
        output.append("  identifier = var.");
        output.append(name);
        output.append("_identifier\n");
        assert(output@ =~= head + ("  identifier = var."@ + name@ + "_identifier\n"@));
    } else if contains(&kind, "s3_bucket") {
        output.append("  bucket = var.");
        output.append(name);
        output.append("_identifier\n");
        assert(output@ =~= head + ("  bucket = var."@ + name@ + "_identifier\n"@));
    } else if contains(&kind, "cluster") || contains(&kind, "server") {
        output.append("  name = var.");
        output.append(name);
        output.append("_identifier\n");
        assert(output@ =~= head + ("  name = var."@ + name@ + "_identifier\n"@));
    } else {
        assert(output@ =~= head + Seq::<char>::empty());
    }
    assert(head + identifier_line(resource_type@, name@) =~= start + block_opening(
        resource_type@,
        name@,
    ));
}

/// Appends a line of the tags, where there is something to tag with.
fn append_tag(output: &mut String, label: &str, value: Option<&str>)
    ensures
        final(output)@ == old(output)@ + tag_line(
            label@,
            match value {
                Some(v) => Some(v@),
                None => None,
            },
        ),
{
    let ghost start = output@;
    match value {
        Some(v) => {
            output.append(label);
            output.append(v);
            output.append("\"\n");
            assert(output@ =~= start + (label@ + v@ + "\"\n"@));
        },
        None => {
            assert(output@ =~= start + Seq::<char>::empty());
        },
    }
}

/// Appends the tags of a resource.
fn append_tags(
    output: &mut String,
    resource_name: &str,
    blueprint_name: Option<&str>,
    stack_name: Option<&str>,
)
    ensures
        final(output)@ == old(output)@ + tags_text(
            resource_name@,
            match blueprint_name {
                Some(n) => Some(n@),
                None => None,
            },
            match stack_name {
                Some(n) => Some(n@),
                None => None,
            },
        ),
{
    let ghost start = output@;
    output.append("\n  tags = {\n");
    output.append("    Name      = \"");
    output.append(resource_name);
    output.append("\"\n");
    output.append("    ManagedBy = \"IDP\"\n");
    let ghost named = start + ("\n  tags = {\n"@ + "    Name      = \""@ + resource_name@ + "\"\n"@
        + "    ManagedBy = \"IDP\"\n"@);
    assert(output@ =~= named);
    append_tag(output, "    Blueprint = \"", blueprint_name);
    let ghost first = output@;
    append_tag(output, "    Stack     = \"", stack_name);
    let ghost second = output@;
    output.append("  }\n");
    assert(output@ =~= start + tags_text(
        resource_name@,
        match blueprint_name {
            Some(n) => Some(n@),
            None => None,
        },
        match stack_name {
            Some(n) => Some(n@),
            None => None,
        },
    ));
}

/// Appends the lines for the properties of a resource as attributes of
/// its block.
fn append_configuration(
    output: &mut String,
    mappings: &Vec<(String, String)>,
    configuration: &Vec<(String, JsonValue)>,
)
    ensures
        final(output)@ == old(output)@ + configuration_text(
            pairs_view(mappings@),
            members_view(configuration@),
            configuration@.len(),
        ),
{
    let ghost start = output@;
    let ghost cv = members_view(configuration@);
    let ghost mv = pairs_view(mappings@);
    assert(output@ =~= start + configuration_text(mv, cv, 0));
    let mut i: usize = 0;
    while i < configuration.len()
        invariant
            i <= configuration.len(),
            cv == members_view(configuration@),
            mv == pairs_view(mappings@),
            output@ == start + configuration_text(mv, cv, i as nat),
        decreases configuration.len() - i,
    {
        let key = configuration[i].0.as_str();
        assert(cv[i as int] == (configuration@[i as int].0@, configuration@[i as int].1@));
        if !is_identifier(key) {
            let tf_attribute = attribute_name(mappings, key);
            generate_attribute(output, "  ", tf_attribute, &configuration[i].1);
            assert(output@ =~= start + (configuration_text(mv, cv, i as nat) + attribute_text(
                "  "@,
                mapped_name(mv, cv[i as int].0, 0),
                cv[i as int].1,
            )));
        } else {
            assert(output@ =~= start + (configuration_text(mv, cv, i as nat) + Seq::<
                char,
            >::empty()));
        }
        i += 1;
    }
}

impl CodeGenerator {
    /// The type and the default that a Terraform variable has for a
    /// value.
    pub fn infer_variable_type_and_default(&self, value: &JsonValue) -> (r: (
        String,
        Option<String>,
    ))
        ensures
            r.0@ == inferred(value@).0,
            match r.1 {
                Some(d) => inferred(value@).1 == Some(d@),
                None => inferred(value@).1 is None,
            },
    {
        infer_variable_type_and_default(value)
    }

    /// Appends the block of a resource.
    pub fn generate_resource_block(
        &self,
        output: &mut String,
        resource_name: &str,
        tf_resource: &TerraformResourceType,
        configuration: &Vec<(String, JsonValue)>,
        blueprint_name: Option<&str>,
        stack_name: Option<&str>,
    )
        ensures
            final(output)@ == old(output)@ + resource_block(
                resource_name@,
                tf_resource@,
                members_view(configuration@),
                match blueprint_name {
                    Some(n) => Some(n@),
                    None => None,
                },
                match stack_name {
                    Some(n) => Some(n@),
                    None => None,
                },
            ),
    {
        let ghost start = output@;
        let name = self.sanitize_name(resource_name);
        open_block(output, tf_resource.resource_type.as_str(), name.as_str());
        let ghost opened = output@;
        append_configuration(output, &tf_resource.attribute_mappings, configuration);
        let ghost filled = output@;
        append_tags(output, resource_name, blueprint_name, stack_name);
        let ghost tagged = output@;
        output.append("}\n\n");
        assert(output@ =~= start + resource_block(
            resource_name@,
            tf_resource@,
            members_view(configuration@),
            match blueprint_name {
                Some(n) => Some(n@),
                None => None,
            },
            match stack_name {
                Some(n) => Some(n@),
                None => None,
            },
        ));
    }
}

/// Appends the block that declares one variable.
fn append_variable(output: &mut String, name: &str, definition: &VariableDefinition)
    ensures
        final(output)@ == old(output)@ + variable_block(name@, definition@),
{
    let ghost start = output@;
    output.append("variable \"");
    output.append(name);
    output.append("\" {\n");
    output.append("  description = \"");
    output.append(definition.description.as_str());
    output.append("\"\n");
    output.append("  type        = ");
    output.append(definition.var_type.as_str());
    output.append("\n");
    let ghost head = start + ("variable \""@ + name@ + "\" {\n"@ + "  description = \""@
        + definition.description@ + "\"\n"@ + "  type        = "@ + definition.var_type@ + "\n"@);
    assert(output@ =~= head);
    match &definition.default_value {
        Some(d) => {
            output.append("  default     = ");
            output.append(d.as_str());
            output.append("\n");
            assert(output@ =~= head + ("  default     = "@ + d@ + "\n"@));
        },
        None => {
            assert(output@ =~= head + Seq::<char>::empty());
        },
    }
    output.append("}\n\n");
    assert(output@ =~= start + variable_block(name@, definition@));
}

/// Defines the variables for the region of a cloud, whose name is given
/// in uppercase.
fn define_region(variables: &mut Vec<(String, VariableDefinition)>, upper: &str)
    requires
        sorted_keys(definitions_view(old(variables)@)),
    ensures
        sorted_keys(definitions_view(final(variables)@)),
        definitions_view(final(variables)@) == with_region(
            definitions_view(old(variables)@),
            upper@,
        ),
{
    if str_eq(upper, "AWS") {
        define(
            variables,
            String::from_str("aws_region"),
            VariableDefinition {
                description: String::from_str("AWS region for resource deployment"),
                var_type: String::from_str("string"),
                default_value: Some(String::from_str("\"us-east-1\"")),
            },
        );
    } else if str_eq(upper, "AZURE") {
        define(
            variables,
            String::from_str("azure_location"),
            VariableDefinition {
                description: String::from_str("Azure location for resource deployment"),
                var_type: String::from_str("string"),
                default_value: Some(String::from_str("\"eastus\"")),
            },
        );
    } else if str_eq(upper, "GCP") {
        define(
            variables,
            String::from_str("gcp_project"),
            VariableDefinition {
                description: String::from_str("GCP project ID"),
                var_type: String::from_str("string"),
                default_value: None,
            },
        );
        define(
            variables,
            String::from_str("gcp_region"),
            VariableDefinition {
                description: String::from_str("GCP region for resource deployment"),
                var_type: String::from_str("string"),
                default_value: Some(String::from_str("\"us-central1\"")),
            },
        );
    }
}

/// The clouds of the resources of a stack.
fn providers_of(stack: &Stack) -> (r: Vec<CloudProvider>)
    ensures
        r@ == stack_providers(*stack),
{
    let mut r: Vec<CloudProvider> = Vec::new();
    let mut i: usize = 0;
    while i < stack.stack_resources.len()
        invariant
            i <= stack.stack_resources.len(),
            r.len() == i,
            forall|j: int| 0 <= j < i ==> r@[j] == stack.stack_resources@[j].cloud_provider,
        decreases stack.stack_resources.len() - i,
    {
        let p = &stack.stack_resources[i].cloud_provider;
        r.push(
            CloudProvider {
                id: p.id.clone(),
                name: p.name.clone(),
                display_name: p.display_name.clone(),
            },
        );
        i += 1;
    }
    assert(r@ =~= stack_providers(*stack));
    r
}

impl CodeGenerator {
    /// Appends the blocks that declare the variables, in their order.
    pub fn format_variables(
        &self,
        output: &mut String,
        variables: &Vec<(String, VariableDefinition)>,
    )
        ensures
            final(output)@ == old(output)@ + variable_blocks(
                definitions_view(variables@),
                variables@.len(),
            ),
    {
        let ghost start = output@;
        let ghost dv = definitions_view(variables@);
        assert(output@ =~= start + variable_blocks(dv, 0));
        let mut i: usize = 0;
        while i < variables.len()
            invariant
                i <= variables.len(),
                dv == definitions_view(variables@),
                output@ == start + variable_blocks(dv, i as nat),
            decreases variables.len() - i,
        {
            assert(dv[i as int] == (variables@[i as int].0@, variables@[i as int].1@));
            append_variable(output, variables[i].0.as_str(), &variables[i].1);
            assert(output@ =~= start + (variable_blocks(dv, i as nat) + variable_block(
                dv[i as int].0,
                dv[i as int].1,
            )));
            i += 1;
        }
    }

    /// Defines the variables for the regions of the clouds.
    pub fn add_provider_region_variables(
        &self,
        variables: &mut Vec<(String, VariableDefinition)>,
        cloud_providers: &Vec<CloudProvider>,
    )
        requires
            sorted_keys(definitions_view(old(variables)@)),
        ensures
            sorted_keys(definitions_view(final(variables)@)),
            definitions_view(final(variables)@) == with_regions(
                definitions_view(old(variables)@),
                cloud_providers@,
                cloud_providers@.len(),
            ),
    {
        let mut i: usize = 0;
        while i < cloud_providers.len()
            invariant
                i <= cloud_providers.len(),
                sorted_keys(definitions_view(variables@)),
                definitions_view(variables@) == with_regions(
                    definitions_view(old(variables)@),
                    cloud_providers@,
                    i as nat,
                ),
            decreases cloud_providers.len() - i,
        {
            let upper = to_uppercase(cloud_providers[i].name.as_str());
            define_region(variables, upper.as_str());
            i += 1;
        }
    }

    /// Defines the variables of a resource: one for its identifier, then
    /// one for each of its properties.
    pub fn extract_resource_variables(
        &self,
        variables: &mut Vec<(String, VariableDefinition)>,
        resource_name: &str,
        properties: &Vec<(String, JsonValue)>,
        description: &Option<String>,
    )
        requires
            sorted_keys(definitions_view(old(variables)@)),
        ensures
            sorted_keys(definitions_view(final(variables)@)),
            definitions_view(final(variables)@) == with_resource(
                definitions_view(old(variables)@),
                resource_name@,
                members_view(properties@),
                *description,
            ),
    {
        let prefix = self.sanitize_name(resource_name);
        let mut text = String::from_str("Identifier for ");
        text.append(resource_name);
        text.append(" ");
        match description {
            Some(d) => {
                text.append(d.as_str());
            },
            None => {
                text.append("resource");
            },
        }
        let mut default_value = String::from_str("\"");
        default_value.append(resource_name);
        default_value.append("\"");
        let identifier = VariableDefinition {
            description: text,
            var_type: String::from_str("string"),
            default_value: Some(default_value),
        };
        assert(identifier@ == identifier_definition(resource_name@, *description));
        define(variables, String::from_str(prefix.as_str()).concat("_identifier"), identifier);
        let ghost base = definitions_view(variables@);
        let ghost pv = members_view(properties@);
        let mut i: usize = 0;
        while i < properties.len()
            invariant
                i <= properties.len(),
                prefix@ == sanitized(lowercase_of(resource_name@)),
                pv == members_view(properties@),
                sorted_keys(definitions_view(variables@)),
                definitions_view(variables@) == with_properties(
                    base,
                    resource_name@,
                    pv,
                    i as nat,
                ),
            decreases properties.len() - i,
        {
            let key = properties[i].0.as_str();
            assert(pv[i as int] == (properties@[i as int].0@, properties@[i as int].1@));
            let mut name = String::from_str(prefix.as_str());
            name.append("_");
            name.append(self.sanitize_name(key).as_str());
            let (var_type, default_value) = infer_variable_type_and_default(&properties[i].1);
            let mut text = String::from_str(key);
            text.append(" for ");
            text.append(resource_name);
            let definition = VariableDefinition { description: text, var_type, default_value };
            assert(definition@ == property_definition(resource_name@, pv[i as int].0, pv[i as int].1));
            define(variables, name, definition);
            i += 1;
        }
    }

    /// Defines the variables of a resource of a stack.
    pub fn extract_stack_resource_variables(
        &self,
        variables: &mut Vec<(String, VariableDefinition)>,
        resource_name: &str,
        configuration: &Vec<(String, JsonValue)>,
        description: &Option<String>,
    )
        requires
            sorted_keys(definitions_view(old(variables)@)),
        ensures
            sorted_keys(definitions_view(final(variables)@)),
            definitions_view(final(variables)@) == with_resource(
                definitions_view(old(variables)@),
                resource_name@,
                members_view(configuration@),
                *description,
            ),
    {
        self.extract_resource_variables(variables, resource_name, configuration, description);
    }

    /// The variables file of a blueprint: a block for each variable, in
    /// the order of the names.
    pub fn generate_variables_tf_from_blueprint(&self, blueprint: &Blueprint) -> (r: String)
        ensures
            r@ == variable_blocks(
                blueprint_variables(*blueprint),
                blueprint_variables(*blueprint).len(),
            ),
    {
        let mut output = String::new();
        let mut variables: Vec<(String, VariableDefinition)> = Vec::new();
        assert(definitions_view(variables@) =~= Seq::empty());
        self.add_provider_region_variables(&mut variables, &blueprint.supported_cloud_providers);
        let ghost base = definitions_view(variables@);
        let mut i: usize = 0;
        while i < blueprint.resources.len()
            invariant
                i <= blueprint.resources.len(),
                sorted_keys(definitions_view(variables@)),
                definitions_view(variables@) == with_blueprint_resources(
                    base,
                    *blueprint,
                    i as nat,
                ),
            decreases blueprint.resources.len() - i,
        {
            let r = &blueprint.resources[i];
            self.extract_resource_variables(
                &mut variables,
                r.name.as_str(),
                &r.cloud_specific_properties,
                &r.description,
            );
            i += 1;
        }
        self.format_variables(&mut output, &variables);
        assert(Seq::<char>::empty() + variable_blocks(
            blueprint_variables(*blueprint),
            blueprint_variables(*blueprint).len(),
        ) =~= variable_blocks(
            blueprint_variables(*blueprint),
            blueprint_variables(*blueprint).len(),
        ));
        output
    }

    /// The variables file of a stack.
    pub fn generate_variables_tf_from_stack(&self, stack: &Stack) -> (r: String)
        ensures
            r@ == variable_blocks(stack_variables(*stack), stack_variables(*stack).len()),
    {
        let mut output = String::new();
        let mut variables: Vec<(String, VariableDefinition)> = Vec::new();
        assert(definitions_view(variables@) =~= Seq::empty());
        let providers = providers_of(stack);
        self.add_provider_region_variables(&mut variables, &providers);
        let ghost base = definitions_view(variables@);
        let mut i: usize = 0;
        while i < stack.stack_resources.len()
            invariant
                i <= stack.stack_resources.len(),
                sorted_keys(definitions_view(variables@)),
                definitions_view(variables@) == with_stack_resources(base, *stack, i as nat),
            decreases stack.stack_resources.len() - i,
        {
            let r = &stack.stack_resources[i];
            self.extract_stack_resource_variables(
                &mut variables,
                r.name.as_str(),
                &r.configuration,
                &r.description,
            );
            i += 1;
        }
        self.format_variables(&mut output, &variables);
        assert(Seq::<char>::empty() + variable_blocks(
            stack_variables(*stack),
            stack_variables(*stack).len(),
        ) =~= variable_blocks(stack_variables(*stack), stack_variables(*stack).len()));
        output
    }

    /// Appends what one resource adds to the main file.
    fn append_main_entry(
        &self,
        output: &mut String,
        resource_name: &str,
        resource_type: &str,
        cloud_provider: &str,
        configuration: &Vec<(String, JsonValue)>,
        blueprint_name: Option<&str>,
        stack_name: Option<&str>,
    )
        ensures
            final(output)@ == old(output)@ + main_entry(
                self.mapper().rows(),
                resource_name@,
                resource_type@,
                cloud_provider@,
                members_view(configuration@),
                match blueprint_name {
                    Some(n) => Some(n@),
                    None => None,
                },
                match stack_name {
                    Some(n) => Some(n@),
                    None => None,
                },
            ),
    {
        let ghost start = output@;
        match self.resource_mapper.get_terraform_resource_type(resource_type, cloud_provider) {
            Some(tf_resource) => {
                self.generate_resource_block(
                    output,
                    resource_name,
                    tf_resource,
                    configuration,
                    blueprint_name,
                    stack_name,
                );
            },
            None => {
                output.append("# Resource '");
                output.append(resource_name);
                output.append("' of type '");
                output.append(resource_type);
                output.append("' for provider '");
                output.append(cloud_provider);
                output.append("' has no mapping\n\n");
                assert(output@ =~= start + unmapped_comment(
                    resource_name@,
                    resource_type@,
                    cloud_provider@,
                ));
            },
        }
    }

    /// Appends the outputs of one resource.
    fn append_output_entry(
        &self,
        output: &mut String,
        resource_name: &str,
        resource_type: &str,
        cloud_provider: &str,
    )
        ensures
            final(output)@ == old(output)@ + output_entry(
                self.mapper().rows(),
                resource_name@,
                resource_type@,
                cloud_provider@,
            ),
    {
        let ghost start = output@;
        let name = self.sanitize_name(resource_name);
        match self.resource_mapper.get_terraform_resource_type(resource_type, cloud_provider) {
            Some(tf_resource) => {
                output.append("output \"");
                output.append(name.as_str());
                output.append("_id\" {\n");
                output.append("  description = \"ID of ");
                output.append(resource_name);
                output.append("\"\n");
                output.append("  value       = ");
                output.append(tf_resource.resource_type.as_str());
                output.append(".");
                output.append(name.as_str());
                output.append(".id\n");
                output.append("}\n\n");
                let ghost first = start + ("output \""@ + name@ + "_id\" {\n"@
                    + "  description = \"ID of "@ + resource_name@ + "\"\n"@ + "  value       = "@
                    + tf_resource.resource_type@ + "."@ + name@ + ".id\n"@ + "}\n\n"@);
                assert(output@ =~= first);
                if str_eq(tf_resource.provider.as_str(), "aws") {
                    output.append("output \"");
                    output.append(name.as_str());
                    output.append("_arn\" {\n");
                    output.append("  description = \"ARN of ");
                    output.append(resource_name);
                    output.append("\"\n");
                    output.append("  value       = ");
                    output.append(tf_resource.resource_type.as_str());
                    output.append(".");
                    output.append(name.as_str());
                    output.append(".arn\n");
                    output.append("}\n\n");
                    assert(output@ =~= first + ("output \""@ + name@ + "_arn\" {\n"@
                        + "  description = \"ARN of "@ + resource_name@ + "\"\n"@
                        + "  value       = "@ + tf_resource.resource_type@ + "."@ + name@
                        + ".arn\n"@ + "}\n\n"@));
                } else {
                    assert(output@ =~= first + Seq::<char>::empty());
                }
                assert(output@ =~= start + output_entry(
                    self.mapper().rows(),
                    resource_name@,
                    resource_type@,
                    cloud_provider@,
                ));
            },
            None => {
                assert(output@ =~= start + Seq::<char>::empty());
            },
        }
    }

    /// The main file of a blueprint: for each resource its block, or a
    /// comment where its type has no Terraform resource type.
    pub fn generate_main_tf_from_blueprint(&self, blueprint: &Blueprint) -> (r: String)
        ensures
            r@ == blueprint_main(self.mapper().rows(), *blueprint, blueprint.resources@.len()),
    {
        let mut output = String::new();
        let ghost rows = self.mapper().rows();
        assert(output@ =~= blueprint_main(rows, *blueprint, 0));
        let mut i: usize = 0;
        while i < blueprint.resources.len()
            invariant
                i <= blueprint.resources.len(),
                rows == self.mapper().rows(),
                output@ == blueprint_main(rows, *blueprint, i as nat),
            decreases blueprint.resources.len() - i,
        {
            let r = &blueprint.resources[i];
            self.append_main_entry(
                &mut output,
                r.name.as_str(),
                r.resource_type.name.as_str(),
                r.cloud_provider.name.as_str(),
                &r.cloud_specific_properties,
                Some(blueprint.name.as_str()),
                None,
            );
            i += 1;
        }
        output
    }

    /// The main file of a stack.
    pub fn generate_main_tf_from_stack(&self, stack: &Stack) -> (r: String)
        ensures
            r@ == stack_main(self.mapper().rows(), *stack, stack.stack_resources@.len()),
    {
        let mut output = String::new();
        let ghost rows = self.mapper().rows();
        assert(output@ =~= stack_main(rows, *stack, 0));
        let mut i: usize = 0;
        while i < stack.stack_resources.len()
            invariant
                i <= stack.stack_resources.len(),
                rows == self.mapper().rows(),
                output@ == stack_main(rows, *stack, i as nat),
            decreases stack.stack_resources.len() - i,
        {
            let r = &stack.stack_resources[i];
            self.append_main_entry(
                &mut output,
                r.name.as_str(),
                r.resource_type.name.as_str(),
                r.cloud_provider.name.as_str(),
                &r.configuration,
                None,
                Some(stack.name.as_str()),
            );
            i += 1;
        }
        output
    }

    /// The outputs file of a blueprint: for each resource whose type has
    /// a Terraform resource type, its id and, on AWS, its ARN.
    pub fn generate_outputs_tf_from_blueprint(&self, blueprint: &Blueprint) -> (r: String)
        ensures
            r@ == blueprint_outputs(self.mapper().rows(), *blueprint, blueprint.resources@.len()),
    {
        let mut output = String::new();
        let ghost rows = self.mapper().rows();
        assert(output@ =~= blueprint_outputs(rows, *blueprint, 0));
        let mut i: usize = 0;
        while i < blueprint.resources.len()
            invariant
                i <= blueprint.resources.len(),
                rows == self.mapper().rows(),
                output@ == blueprint_outputs(rows, *blueprint, i as nat),
            decreases blueprint.resources.len() - i,
        {
            let r = &blueprint.resources[i];
            self.append_output_entry(
                &mut output,
                r.name.as_str(),
                r.resource_type.name.as_str(),
                r.cloud_provider.name.as_str(),
            );
            i += 1;
        }
        output
    }

    /// The outputs file of a stack.
    pub fn generate_outputs_tf_from_stack(&self, stack: &Stack) -> (r: String)
        ensures
            r@ == stack_outputs(self.mapper().rows(), *stack, stack.stack_resources@.len()),
    {
        let mut output = String::new();
        let ghost rows = self.mapper().rows();
        assert(output@ =~= stack_outputs(rows, *stack, 0));
        let mut i: usize = 0;
        while i < stack.stack_resources.len()
            invariant
                i <= stack.stack_resources.len(),
                rows == self.mapper().rows(),
                output@ == stack_outputs(rows, *stack, i as nat),
            decreases stack.stack_resources.len() - i,
        {
            let r = &stack.stack_resources[i];
            self.append_output_entry(
                &mut output,
                r.name.as_str(),
                r.resource_type.name.as_str(),
                r.cloud_provider.name.as_str(),
            );
            i += 1;
        }
        output
    }

    /// The providers file for the clouds: what Terraform requires, then
    /// a block for each cloud, each cloud once and in the order in which
    /// the clouds first occur.
    pub fn generate_providers_tf(&self, cloud_providers: &Vec<CloudProvider>) -> (r: String)
        ensures
            r@ == providers_text(cloud_providers@),
    {
        let mut names: Vec<String> = Vec::new();
        let mut i: usize = 0;
        assert(texts(names@) =~= distinct_names(cloud_providers@, 0));
        while i < cloud_providers.len()
            invariant
                i <= cloud_providers.len(),
                texts(names@) == distinct_names(cloud_providers@, i as nat),
            decreases cloud_providers.len() - i,
        {
            let name = &cloud_providers[i].name;
            let ghost before = texts(names@);
            let mut known = false;
            let mut k: usize = 0;
            while k < names.len()
                invariant
                    k <= names.len(),
                    before == texts(names@),
                    known == exists|j: int| 0 <= j < k && #[trigger] before[j] == name@,
                decreases names.len() - k,
            {
                assert(before[k as int] == names@[k as int]@);
                if str_eq(names[k].as_str(), name.as_str()) {
                    known = true;
                }
                k += 1;
            }
            assert(known == before.contains(name@));
            if !known {
                names.push(name.clone());
                assert(texts(names@) =~= before.push(name@));
            }
            i += 1;
        }
        let ghost all = texts(names@);
        let mut output = String::from_str("terraform {\n  required_providers {\n");
        let ghost head = output@;
        assert(output@ =~= head + required_providers(all, 0));
        let mut k: usize = 0;
        while k < names.len()
            invariant
                k <= names.len(),
                all == texts(names@),
                output@ == head + required_providers(all, k as nat),
            decreases names.len() - k,
        {
            assert(all[k as int] == names@[k as int]@);
            self.append_required_provider(&mut output, names[k].as_str());
            assert(output@ =~= head + (required_providers(all, k as nat) + required_provider(
                all[k as int],
            )));
            k += 1;
        }
        output.append("  }\n}\n\n");
        let ghost middle = output@;
        assert(output@ =~= middle + provider_blocks(all, 0));
        let mut k: usize = 0;
        while k < names.len()
            invariant
                k <= names.len(),
                all == texts(names@),
                output@ == middle + provider_blocks(all, k as nat),
            decreases names.len() - k,
        {
            assert(all[k as int] == names@[k as int]@);
            self.append_provider_block(&mut output, names[k].as_str());
            assert(output@ =~= middle + (provider_blocks(all, k as nat) + provider_block(
                all[k as int],
            )));
            k += 1;
        }
        assert(output@ =~= providers_text(cloud_providers@));
        output
    }

    /// Appends the entry of one provider among the required providers.
    fn append_required_provider(&self, output: &mut String, name: &str)
        ensures
            final(output)@ == old(output)@ + required_provider(name@),
    {
        let ghost start = output@;
        let provider = self.normalize_provider_name(name);
        let (source, version) = self.get_provider_source_and_version(name);
        output.append("    ");
        output.append(provider.as_str());
        output.append(" = {\n");
        output.append("      source  = \"");
        output.append(source);
        output.append("\"\n");
        output.append("      version = \"");
        output.append(version);
        output.append("\"\n");
        output.append("    }\n");
        assert(output@ =~= start + required_provider(name@));
    }

    /// Appends the block that configures one provider.
    fn append_provider_block(&self, output: &mut String, name: &str)
        ensures
            final(output)@ == old(output)@ + provider_block(name@),
    {
        let ghost start = output@;
        let provider = self.normalize_provider_name(name);
        output.append("provider \"");
        output.append(provider.as_str());
        output.append("\" {\n");
        let ghost head = start + ("provider \""@ + provider@ + "\" {\n"@);
        assert(output@ =~= head);
        if str_eq(provider.as_str(), "aws") {
            output.append("  region = var.aws_region\n");
        } else if str_eq(provider.as_str(), "azurerm") {
            output.append("  features {}\n");
        } else if str_eq(provider.as_str(), "google") {
            output.append("  project = var.gcp_project\n");
            output.append("  region  = var.gcp_region\n");
            proof {
                reveal_strlit("  project = var.gcp_project\n");
                reveal_strlit("  region  = var.gcp_region\n");
                reveal_strlit("  project = var.gcp_project\n  region  = var.gcp_region\n");
                assert("  project = var.gcp_project\n"@ + "  region  = var.gcp_region\n"@
                    =~= "  project = var.gcp_project\n  region  = var.gcp_region\n"@);
            }
        } else {
            output.append("  # Configure provider-specific settings here\n");
        }
        output.append("}\n\n");
        assert(output@ =~= start + provider_block(name@));
    }

    /// The four files for a blueprint.
    pub fn generate_from_blueprint(&self, blueprint: &Blueprint) -> (r: GeneratedCode)
        ensures
            r.main_tf@ == blueprint_main(
                self.mapper().rows(),
                *blueprint,
                blueprint.resources@.len(),
            ),
            r.variables_tf@ == variable_blocks(
                blueprint_variables(*blueprint),
                blueprint_variables(*blueprint).len(),
            ),
            r.providers_tf@ == providers_text(blueprint.supported_cloud_providers@),
            r.outputs_tf@ == blueprint_outputs(
                self.mapper().rows(),
                *blueprint,
                blueprint.resources@.len(),
            ),
    {
        let main_tf = self.generate_main_tf_from_blueprint(blueprint);
        let variables_tf = self.generate_variables_tf_from_blueprint(blueprint);
        let providers_tf = self.generate_providers_tf(&blueprint.supported_cloud_providers);
        let outputs_tf = self.generate_outputs_tf_from_blueprint(blueprint);
        GeneratedCode { main_tf, variables_tf, providers_tf, outputs_tf }
    }

    /// The four files for a stack. The providers are the clouds of its
    /// resources.
    pub fn generate_from_stack(&self, stack: &Stack) -> (r: GeneratedCode)
        ensures
            r.main_tf@ == stack_main(self.mapper().rows(), *stack, stack.stack_resources@.len()),
            r.variables_tf@ == variable_blocks(
                stack_variables(*stack),
                stack_variables(*stack).len(),
            ),
            r.providers_tf@ == providers_text(stack_providers(*stack)),
            r.outputs_tf@ == stack_outputs(
                self.mapper().rows(),
                *stack,
                stack.stack_resources@.len(),
            ),
    {
        let main_tf = self.generate_main_tf_from_stack(stack);
        let variables_tf = self.generate_variables_tf_from_stack(stack);
        let providers = providers_of(stack);
        let providers_tf = self.generate_providers_tf(&providers);
        let outputs_tf = self.generate_outputs_tf_from_stack(stack);
        GeneratedCode { main_tf, variables_tf, providers_tf, outputs_tf }
    }
}

/// The texts of `names`.
pub open spec fn texts(names: Seq<String>) -> Seq<Seq<char>> {
    Seq::new(names.len(), |i: int| names[i]@)
}

} // verus!
