use idp_cli::builder::VariableContextBuilder;
use idp_cli::engine::read_json;
use idp_cli::models::{
    Blueprint, BlueprintResource, CloudProvider, ResourceType, Stack, StackResource,
};
use idp_cli::value::JsonValue;
use idp_cli::variable_context::VariableContext;

fn json(text: &str) -> JsonValue {
    read_json(text).unwrap()
}

#[test]
fn test_new_context_is_empty() {
    let context = VariableContext::new();
    assert!(context.is_empty());
    assert_eq!(context.len(), 0);
}

#[test]
fn test_insert_and_get_simple_variable() {
    let mut context = VariableContext::new();
    context.insert("name".to_string(), JsonValue::text("test-blueprint"));

    assert_eq!(context.len(), 1);
    assert_eq!(context.get("name"), Some(&JsonValue::text("test-blueprint")));
}

#[test]
fn test_get_nonexistent_variable() {
    let context = VariableContext::new();
    assert_eq!(context.get("nonexistent"), None);
}

#[test]
fn test_get_with_dot_notation() {
    let mut context = VariableContext::new();

    // Insert nested structure
    let blueprint = json(r##"{
        "name": "web-app-blueprint",
        "description": "A web application blueprint"
    }"##);
    context.insert("blueprint".to_string(), blueprint);

    // Test nested access
    assert_eq!(
        context.get("blueprint.name"),
        Some(&JsonValue::text("web-app-blueprint"))
    );
    assert_eq!(
        context.get("blueprint.description"),
        Some(&JsonValue::text("A web application blueprint"))
    );
}

#[test]
fn test_get_with_array_indexing() {
    let mut context = VariableContext::new();

    // Insert array structure
    let resources = json(r##"[
        {
            "name": "postgres-db",
            "type": "database"
        },
        {
            "name": "redis-cache",
            "type": "cache"
        }
    ]"##);
    context.insert("resources".to_string(), resources);

    // Test array indexing
    assert_eq!(
        context.get("resources[0].name"),
        Some(&JsonValue::text("postgres-db"))
    );
    assert_eq!(
        context.get("resources[1].name"),
        Some(&JsonValue::text("redis-cache"))
    );
    assert_eq!(
        context.get("resources[0].type"),
        Some(&JsonValue::text("database"))
    );
}

#[test]
fn test_get_with_nested_array_access() {
    let mut context = VariableContext::new();

    // Insert complex nested structure
    let data = json(r##"{
        "resources": [
            {
                "name": "db",
                "cloud_provider": {
                    "name": "AWS",
                    "display_name": "Amazon Web Services"
                }
            }
        ]
    }"##);
    context.insert("data".to_string(), data);

    // Test nested array access with dot notation
    assert_eq!(
        context.get("data.resources[0].name"),
        Some(&JsonValue::text("db"))
    );
    assert_eq!(
        context.get("data.resources[0].cloud_provider.name"),
        Some(&JsonValue::text("AWS"))
    );
}

#[test]
fn test_list_all_variables() {
    let mut context = VariableContext::new();
    context.insert("name".to_string(), JsonValue::text("test"));
    context.insert("id".to_string(), JsonValue::text("123"));
    context.insert("active".to_string(), JsonValue::Bool(true));

    let all_vars = context.list_all();
    assert_eq!(all_vars.len(), 3);

    // Check that variables are sorted
    assert_eq!(all_vars[0].0, "active");
    assert_eq!(all_vars[1].0, "id");
    assert_eq!(all_vars[2].0, "name");
}

#[test]
fn test_list_all_empty_context() {
    let context = VariableContext::new();
    let all_vars = context.list_all();
    assert_eq!(all_vars.len(), 0);
}

#[test]
fn test_variables_accessor() {
    let mut context = VariableContext::new();
    context.insert("key1".to_string(), JsonValue::text("value1"));
    context.insert("key2".to_string(), JsonValue::text("value2"));

    let vars = context.variables();
    assert_eq!(vars.len(), 2);
    assert!(vars.iter().any(|(key, _)| key == "key1"));
    assert!(vars.iter().any(|(key, _)| key == "key2"));
}

#[test]
fn test_default_trait() {
    let context = VariableContext::default();
    assert!(context.is_empty());
}

#[test]
fn test_builder_default_trait() {
    let _builder = VariableContextBuilder::default();
    // Just verify it compiles and constructs
}

// Tests for from_blueprint()

fn create_test_blueprint() -> Blueprint {
    let cloud_provider = CloudProvider {
        id: "11111111-1111-1111-1111-111111111111".to_string(),
        name: "AWS".to_string(),
        display_name: "Amazon Web Services".to_string(),
    };

    let resource_type = ResourceType {
        id: "22222222-2222-2222-2222-222222222222".to_string(),
        name: "RelationalDatabaseServer".to_string(),
        category: "Database".to_string(),
    };

    let mut cloud_specific_properties = Vec::new();
    cloud_specific_properties.push(("engine".to_string(), JsonValue::text("postgres")));
    cloud_specific_properties.push(("engine_version".to_string(), JsonValue::text("14.7")));
    cloud_specific_properties.push(("instance_class".to_string(), JsonValue::text("db.t3.micro")));

    let resource = BlueprintResource {
        id: "33333333-3333-3333-3333-333333333333".to_string(),
        name: "postgres-db".to_string(),
        description: Some("PostgreSQL database".to_string()),
        resource_type,
        cloud_provider: cloud_provider.clone(),
        configuration: json(r##"{
            "allocated_storage": 20,
            "backup_retention_days": 7
        }"##),
        cloud_specific_properties,
    };

    Blueprint {
        id: "44444444-4444-4444-4444-444444444444".to_string(),
        name: "web-app-blueprint".to_string(),
        description: Some("Web application infrastructure".to_string()),
        resources: vec![resource],
        supported_cloud_providers: vec![cloud_provider],
    }
}

#[test]
fn test_from_blueprint_extracts_metadata() {
    let blueprint = create_test_blueprint();
    let context = VariableContextBuilder::from_blueprint(&blueprint);

    // Check blueprint metadata
    assert_eq!(
        context.get("blueprint.id"),
        Some(&JsonValue::text("44444444-4444-4444-4444-444444444444"))
    );
    assert_eq!(
        context.get("blueprint.name"),
        Some(&JsonValue::text("web-app-blueprint"))
    );
    assert_eq!(
        context.get("blueprint.description"),
        Some(&JsonValue::text("Web application infrastructure"))
    );
}

#[test]
fn test_from_blueprint_extracts_resources_array() {
    let blueprint = create_test_blueprint();
    let context = VariableContextBuilder::from_blueprint(&blueprint);

    // Check that resources array exists
    let resources = context.get("resources");
    assert!(resources.is_some());

    // Verify it's an array with one element
    if let Some(JsonValue::Array(arr)) = resources {
        assert_eq!(arr.len(), 1);
    } else {
        panic!("resources should be an array");
    }
}

#[test]
fn test_from_blueprint_flattens_resource_properties() {
    let blueprint = create_test_blueprint();
    let context = VariableContextBuilder::from_blueprint(&blueprint);

    // Check flattened resource properties
    assert_eq!(
        context.get("resources[0].id"),
        Some(&JsonValue::text("33333333-3333-3333-3333-333333333333"))
    );
    assert_eq!(
        context.get("resources[0].name"),
        Some(&JsonValue::text("postgres-db"))
    );
    assert_eq!(
        context.get("resources[0].description"),
        Some(&JsonValue::text("PostgreSQL database"))
    );
}

#[test]
fn test_from_blueprint_flattens_resource_type() {
    let blueprint = create_test_blueprint();
    let context = VariableContextBuilder::from_blueprint(&blueprint);

    // Check flattened resource_type
    assert_eq!(
        context.get("resources[0].resource_type.id"),
        Some(&JsonValue::text("22222222-2222-2222-2222-222222222222"))
    );
    assert_eq!(
        context.get("resources[0].resource_type.name"),
        Some(&JsonValue::text("RelationalDatabaseServer"))
    );
    assert_eq!(
        context.get("resources[0].resource_type.category"),
        Some(&JsonValue::text("Database"))
    );
}

#[test]
fn test_from_blueprint_flattens_cloud_provider() {
    let blueprint = create_test_blueprint();
    let context = VariableContextBuilder::from_blueprint(&blueprint);

    // Check flattened cloud_provider
    assert_eq!(
        context.get("resources[0].cloud_provider.id"),
        Some(&JsonValue::text("11111111-1111-1111-1111-111111111111"))
    );
    assert_eq!(
        context.get("resources[0].cloud_provider.name"),
        Some(&JsonValue::text("AWS"))
    );
    assert_eq!(
        context.get("resources[0].cloud_provider.display_name"),
        Some(&JsonValue::text("Amazon Web Services"))
    );
}

#[test]
fn test_from_blueprint_includes_configuration() {
    let blueprint = create_test_blueprint();
    let context = VariableContextBuilder::from_blueprint(&blueprint);

    // Check configuration object
    let config = context.get("resources[0].configuration");
    assert!(config.is_some());

    // Verify configuration content through nested access
    assert_eq!(
        context.get("resources[0].configuration.allocated_storage"),
        Some(&JsonValue::number("20"))
    );
    assert_eq!(
        context.get("resources[0].configuration.backup_retention_days"),
        Some(&JsonValue::number("7"))
    );
}

#[test]
fn test_from_blueprint_flattens_cloud_specific_properties() {
    let blueprint = create_test_blueprint();
    let context = VariableContextBuilder::from_blueprint(&blueprint);

    // Check flattened cloud_specific_properties
    assert_eq!(
        context.get("resources[0].cloud_specific_properties.engine"),
        Some(&JsonValue::text("postgres"))
    );
    assert_eq!(
        context.get("resources[0].cloud_specific_properties.engine_version"),
        Some(&JsonValue::text("14.7"))
    );
    assert_eq!(
        context.get("resources[0].cloud_specific_properties.instance_class"),
        Some(&JsonValue::text("db.t3.micro"))
    );
}

#[test]
fn test_from_blueprint_includes_supported_cloud_providers() {
    let blueprint = create_test_blueprint();
    let context = VariableContextBuilder::from_blueprint(&blueprint);

    // Check supported_cloud_providers array
    let providers = context.get("supported_cloud_providers");
    assert!(providers.is_some());

    if let Some(JsonValue::Array(arr)) = providers {
        assert_eq!(arr.len(), 1);
    } else {
        panic!("supported_cloud_providers should be an array");
    }
}

#[test]
fn test_from_blueprint_with_multiple_resources() {
    let cloud_provider = CloudProvider {
        id: "11111111-1111-1111-1111-111111111111".to_string(),
        name: "AWS".to_string(),
        display_name: "Amazon Web Services".to_string(),
    };

    let db_resource_type = ResourceType {
        id: "22222222-2222-2222-2222-222222222222".to_string(),
        name: "RelationalDatabaseServer".to_string(),
        category: "Database".to_string(),
    };

    let cache_resource_type = ResourceType {
        id: "55555555-5555-5555-5555-555555555555".to_string(),
        name: "Cache".to_string(),
        category: "Cache".to_string(),
    };

    let db_resource = BlueprintResource {
        id: "33333333-3333-3333-3333-333333333333".to_string(),
        name: "postgres-db".to_string(),
        description: Some("PostgreSQL database".to_string()),
        resource_type: db_resource_type,
        cloud_provider: cloud_provider.clone(),
        configuration: json(r##"{}"##),
        cloud_specific_properties: Vec::new(),
    };

    let cache_resource = BlueprintResource {
        id: "66666666-6666-6666-6666-666666666666".to_string(),
        name: "redis-cache".to_string(),
        description: Some("Redis cache".to_string()),
        resource_type: cache_resource_type,
        cloud_provider: cloud_provider.clone(),
        configuration: json(r##"{}"##),
        cloud_specific_properties: Vec::new(),
    };

    let blueprint = Blueprint {
        id: "44444444-4444-4444-4444-444444444444".to_string(),
        name: "multi-resource-blueprint".to_string(),
        description: None,
        resources: vec![db_resource, cache_resource],
        supported_cloud_providers: vec![cloud_provider],
    };

    let context = VariableContextBuilder::from_blueprint(&blueprint);

    // Check both resources are accessible
    assert_eq!(
        context.get("resources[0].name"),
        Some(&JsonValue::text("postgres-db"))
    );
    assert_eq!(
        context.get("resources[1].name"),
        Some(&JsonValue::text("redis-cache"))
    );
    assert_eq!(
        context.get("resources[0].resource_type.name"),
        Some(&JsonValue::text("RelationalDatabaseServer"))
    );
    assert_eq!(
        context.get("resources[1].resource_type.name"),
        Some(&JsonValue::text("Cache"))
    );
}

#[test]
fn test_from_blueprint_with_no_description() {
    let cloud_provider = CloudProvider {
        id: "11111111-1111-1111-1111-111111111111".to_string(),
        name: "AWS".to_string(),
        display_name: "Amazon Web Services".to_string(),
    };

    let resource_type = ResourceType {
        id: "22222222-2222-2222-2222-222222222222".to_string(),
        name: "Storage".to_string(),
        category: "Storage".to_string(),
    };

    let resource = BlueprintResource {
        id: "33333333-3333-3333-3333-333333333333".to_string(),
        name: "s3-bucket".to_string(),
        description: None,
        resource_type,
        cloud_provider: cloud_provider.clone(),
        configuration: json(r##"{}"##),
        cloud_specific_properties: Vec::new(),
    };

    let blueprint = Blueprint {
        id: "44444444-4444-4444-4444-444444444444".to_string(),
        name: "minimal-blueprint".to_string(),
        description: None,
        resources: vec![resource],
        supported_cloud_providers: vec![cloud_provider],
    };

    let context = VariableContextBuilder::from_blueprint(&blueprint);

    // Blueprint description should not exist
    assert_eq!(context.get("blueprint.description"), None);

    // Resource description should not exist
    assert_eq!(context.get("resources[0].description"), None);

    // But other fields should exist
    assert_eq!(
        context.get("blueprint.name"),
        Some(&JsonValue::text("minimal-blueprint"))
    );
    assert_eq!(
        context.get("resources[0].name"),
        Some(&JsonValue::text("s3-bucket"))
    );
}

#[test]
fn test_from_blueprint_with_empty_resources() {
    let cloud_provider = CloudProvider {
        id: "11111111-1111-1111-1111-111111111111".to_string(),
        name: "AWS".to_string(),
        display_name: "Amazon Web Services".to_string(),
    };

    let blueprint = Blueprint {
        id: "44444444-4444-4444-4444-444444444444".to_string(),
        name: "empty-blueprint".to_string(),
        description: Some("Blueprint with no resources".to_string()),
        resources: vec![],
        supported_cloud_providers: vec![cloud_provider],
    };

    let context = VariableContextBuilder::from_blueprint(&blueprint);

    // Blueprint metadata should exist
    assert_eq!(
        context.get("blueprint.name"),
        Some(&JsonValue::text("empty-blueprint"))
    );

    // Resources array should exist but be empty
    if let Some(JsonValue::Array(arr)) = context.get("resources") {
        assert_eq!(arr.len(), 0);
    } else {
        panic!("resources should be an array");
    }

    // No resource accessors should exist
    assert_eq!(context.get("resources[0].name"), None);
}

// Tests for from_stack()

fn create_test_stack() -> Stack {
    let cloud_provider = CloudProvider {
        id: "11111111-1111-1111-1111-111111111111".to_string(),
        name: "AWS".to_string(),
        display_name: "Amazon Web Services".to_string(),
    };

    let resource_type = ResourceType {
        id: "22222222-2222-2222-2222-222222222222".to_string(),
        name: "RelationalDatabaseServer".to_string(),
        category: "Database".to_string(),
    };

    let mut configuration = Vec::new();
    configuration.push(("allocated_storage".to_string(), JsonValue::number("20")));
    configuration.push(("backup_retention_days".to_string(), JsonValue::number("7")));
    configuration.push(("engine".to_string(), JsonValue::text("postgres")));

    let stack_resource = StackResource {
        id: "33333333-3333-3333-3333-333333333333".to_string(),
        name: "prod-postgres-db".to_string(),
        description: Some("Production PostgreSQL database".to_string()),
        resource_type,
        cloud_provider,
        configuration,
    };

    Stack {
        id: "44444444-4444-4444-4444-444444444444".to_string(),
        name: "production-stack".to_string(),
        description: Some("Production environment stack".to_string()),
        cloud_name: "aws-us-east-1".to_string(),
        stack_type: "INFRASTRUCTURE_ONLY".to_string(),
        stack_resources: vec![stack_resource],
        blueprint: None,
    }
}

#[test]
fn test_from_stack_extracts_metadata() {
    let stack = create_test_stack();
    let context = VariableContextBuilder::from_stack(&stack);

    // Check stack metadata
    assert_eq!(
        context.get("stack.id"),
        Some(&JsonValue::text("44444444-4444-4444-4444-444444444444"))
    );
    assert_eq!(
        context.get("stack.name"),
        Some(&JsonValue::text("production-stack"))
    );
    assert_eq!(
        context.get("stack.description"),
        Some(&JsonValue::text("Production environment stack"))
    );
    assert_eq!(
        context.get("stack.cloud_name"),
        Some(&JsonValue::text("aws-us-east-1"))
    );
    assert_eq!(
        context.get("stack.stack_type"),
        Some(&JsonValue::text("INFRASTRUCTURE_ONLY"))
    );
}

#[test]
fn test_from_stack_extracts_stack_resources_array() {
    let stack = create_test_stack();
    let context = VariableContextBuilder::from_stack(&stack);

    // Check that stack_resources array exists
    let resources = context.get("stack_resources");
    assert!(resources.is_some());

    // Verify it's an array with one element
    if let Some(JsonValue::Array(arr)) = resources {
        assert_eq!(arr.len(), 1);
    } else {
        panic!("stack_resources should be an array");
    }
}

#[test]
fn test_from_stack_flattens_stack_resource_properties() {
    let stack = create_test_stack();
    let context = VariableContextBuilder::from_stack(&stack);

    // Check flattened stack resource properties
    assert_eq!(
        context.get("stack_resources[0].id"),
        Some(&JsonValue::text("33333333-3333-3333-3333-333333333333"))
    );
    assert_eq!(
        context.get("stack_resources[0].name"),
        Some(&JsonValue::text("prod-postgres-db"))
    );
    assert_eq!(
        context.get("stack_resources[0].description"),
        Some(&JsonValue::text("Production PostgreSQL database"))
    );
}

#[test]
fn test_from_stack_flattens_resource_type() {
    let stack = create_test_stack();
    let context = VariableContextBuilder::from_stack(&stack);

    // Check flattened resource_type
    assert_eq!(
        context.get("stack_resources[0].resource_type.id"),
        Some(&JsonValue::text("22222222-2222-2222-2222-222222222222"))
    );
    assert_eq!(
        context.get("stack_resources[0].resource_type.name"),
        Some(&JsonValue::text("RelationalDatabaseServer"))
    );
    assert_eq!(
        context.get("stack_resources[0].resource_type.category"),
        Some(&JsonValue::text("Database"))
    );
}

#[test]
fn test_from_stack_flattens_cloud_provider() {
    let stack = create_test_stack();
    let context = VariableContextBuilder::from_stack(&stack);

    // Check flattened cloud_provider
    assert_eq!(
        context.get("stack_resources[0].cloud_provider.id"),
        Some(&JsonValue::text("11111111-1111-1111-1111-111111111111"))
    );
    assert_eq!(
        context.get("stack_resources[0].cloud_provider.name"),
        Some(&JsonValue::text("AWS"))
    );
    assert_eq!(
        context.get("stack_resources[0].cloud_provider.display_name"),
        Some(&JsonValue::text("Amazon Web Services"))
    );
}

#[test]
fn test_from_stack_flattens_configuration() {
    let stack = create_test_stack();
    let context = VariableContextBuilder::from_stack(&stack);

    // Check flattened configuration properties
    assert_eq!(
        context.get("stack_resources[0].configuration.allocated_storage"),
        Some(&JsonValue::number("20"))
    );
    assert_eq!(
        context.get("stack_resources[0].configuration.backup_retention_days"),
        Some(&JsonValue::number("7"))
    );
    assert_eq!(
        context.get("stack_resources[0].configuration.engine"),
        Some(&JsonValue::text("postgres"))
    );
}

#[test]
fn test_from_stack_with_multiple_stack_resources() {
    let cloud_provider = CloudProvider {
        id: "11111111-1111-1111-1111-111111111111".to_string(),
        name: "AWS".to_string(),
        display_name: "Amazon Web Services".to_string(),
    };

    let db_resource_type = ResourceType {
        id: "22222222-2222-2222-2222-222222222222".to_string(),
        name: "RelationalDatabaseServer".to_string(),
        category: "Database".to_string(),
    };

    let cache_resource_type = ResourceType {
        id: "55555555-5555-5555-5555-555555555555".to_string(),
        name: "Cache".to_string(),
        category: "Cache".to_string(),
    };

    let db_resource = StackResource {
        id: "33333333-3333-3333-3333-333333333333".to_string(),
        name: "prod-postgres-db".to_string(),
        description: Some("PostgreSQL database".to_string()),
        resource_type: db_resource_type,
        cloud_provider: cloud_provider.clone(),
        configuration: Vec::new(),
    };

    let cache_resource = StackResource {
        id: "66666666-6666-6666-6666-666666666666".to_string(),
        name: "prod-redis-cache".to_string(),
        description: Some("Redis cache".to_string()),
        resource_type: cache_resource_type,
        cloud_provider: cloud_provider.clone(),
        configuration: Vec::new(),
    };

    let stack = Stack {
        id: "44444444-4444-4444-4444-444444444444".to_string(),
        name: "multi-resource-stack".to_string(),
        description: None,
        cloud_name: "aws-us-east-1".to_string(),
        stack_type: "INFRASTRUCTURE_ONLY".to_string(),
        stack_resources: vec![db_resource, cache_resource],
        blueprint: None,
    };

    let context = VariableContextBuilder::from_stack(&stack);

    // Check both stack resources are accessible
    assert_eq!(
        context.get("stack_resources[0].name"),
        Some(&JsonValue::text("prod-postgres-db"))
    );
    assert_eq!(
        context.get("stack_resources[1].name"),
        Some(&JsonValue::text("prod-redis-cache"))
    );
    assert_eq!(
        context.get("stack_resources[0].resource_type.name"),
        Some(&JsonValue::text("RelationalDatabaseServer"))
    );
    assert_eq!(
        context.get("stack_resources[1].resource_type.name"),
        Some(&JsonValue::text("Cache"))
    );
}

#[test]
fn test_from_stack_with_no_description() {
    let cloud_provider = CloudProvider {
        id: "11111111-1111-1111-1111-111111111111".to_string(),
        name: "AWS".to_string(),
        display_name: "Amazon Web Services".to_string(),
    };

    let resource_type = ResourceType {
        id: "22222222-2222-2222-2222-222222222222".to_string(),
        name: "Storage".to_string(),
        category: "Storage".to_string(),
    };

    let stack_resource = StackResource {
        id: "33333333-3333-3333-3333-333333333333".to_string(),
        name: "s3-bucket".to_string(),
        description: None,
        resource_type,
        cloud_provider,
        configuration: Vec::new(),
    };

    let stack = Stack {
        id: "44444444-4444-4444-4444-444444444444".to_string(),
        name: "minimal-stack".to_string(),
        description: None,
        cloud_name: "aws-us-west-2".to_string(),
        stack_type: "INFRASTRUCTURE_ONLY".to_string(),
        stack_resources: vec![stack_resource],
        blueprint: None,
    };

    let context = VariableContextBuilder::from_stack(&stack);

    // Stack description should not exist
    assert_eq!(context.get("stack.description"), None);

    // Stack resource description should not exist
    assert_eq!(context.get("stack_resources[0].description"), None);

    // But other fields should exist
    assert_eq!(
        context.get("stack.name"),
        Some(&JsonValue::text("minimal-stack"))
    );
    assert_eq!(
        context.get("stack_resources[0].name"),
        Some(&JsonValue::text("s3-bucket"))
    );
}

#[test]
fn test_from_stack_with_empty_stack_resources() {
    let stack = Stack {
        id: "44444444-4444-4444-4444-444444444444".to_string(),
        name: "empty-stack".to_string(),
        description: Some("Stack with no resources".to_string()),
        cloud_name: "aws-us-east-1".to_string(),
        stack_type: "INFRASTRUCTURE_ONLY".to_string(),
        stack_resources: vec![],
        blueprint: None,
    };

    let context = VariableContextBuilder::from_stack(&stack);

    // Stack metadata should exist
    assert_eq!(
        context.get("stack.name"),
        Some(&JsonValue::text("empty-stack"))
    );

    // Stack resources array should exist but be empty
    if let Some(JsonValue::Array(arr)) = context.get("stack_resources") {
        assert_eq!(arr.len(), 0);
    } else {
        panic!("stack_resources should be an array");
    }

    // No stack resource accessors should exist
    assert_eq!(context.get("stack_resources[0].name"), None);
}

#[test]
fn test_from_stack_with_blueprint() {
    let cloud_provider = CloudProvider {
        id: "11111111-1111-1111-1111-111111111111".to_string(),
        name: "AWS".to_string(),
        display_name: "Amazon Web Services".to_string(),
    };

    let resource_type = ResourceType {
        id: "22222222-2222-2222-2222-222222222222".to_string(),
        name: "RelationalDatabaseServer".to_string(),
        category: "Database".to_string(),
    };

    let stack_resource = StackResource {
        id: "33333333-3333-3333-3333-333333333333".to_string(),
        name: "prod-db".to_string(),
        description: None,
        resource_type: resource_type.clone(),
        cloud_provider: cloud_provider.clone(),
        configuration: Vec::new(),
    };

    let blueprint_resource = BlueprintResource {
        id: "77777777-7777-7777-7777-777777777777".to_string(),
        name: "blueprint-db".to_string(),
        description: None,
        resource_type,
        cloud_provider: cloud_provider.clone(),
        configuration: json(r##"{}"##),
        cloud_specific_properties: Vec::new(),
    };

    let blueprint = Blueprint {
        id: "88888888-8888-8888-8888-888888888888".to_string(),
        name: "web-app-blueprint".to_string(),
        description: Some("Web application blueprint".to_string()),
        resources: vec![blueprint_resource],
        supported_cloud_providers: vec![cloud_provider],
    };

    let stack = Stack {
        id: "44444444-4444-4444-4444-444444444444".to_string(),
        name: "production-stack".to_string(),
        description: Some("Production stack".to_string()),
        cloud_name: "aws-us-east-1".to_string(),
        stack_type: "INFRASTRUCTURE_ONLY".to_string(),
        stack_resources: vec![stack_resource],
        blueprint: Some(blueprint),
    };

    let context = VariableContextBuilder::from_stack(&stack);

    // Stack metadata should exist
    assert_eq!(
        context.get("stack.name"),
        Some(&JsonValue::text("production-stack"))
    );

    // Blueprint metadata should exist
    assert_eq!(
        context.get("blueprint.id"),
        Some(&JsonValue::text("88888888-8888-8888-8888-888888888888"))
    );
    assert_eq!(
        context.get("blueprint.name"),
        Some(&JsonValue::text("web-app-blueprint"))
    );
    assert_eq!(
        context.get("blueprint.description"),
        Some(&JsonValue::text("Web application blueprint"))
    );
}

#[test]
fn test_from_stack_configuration_nested_access() {
    let cloud_provider = CloudProvider {
        id: "11111111-1111-1111-1111-111111111111".to_string(),
        name: "AWS".to_string(),
        display_name: "Amazon Web Services".to_string(),
    };

    let resource_type = ResourceType {
        id: "22222222-2222-2222-2222-222222222222".to_string(),
        name: "ContainerOrchestrator".to_string(),
        category: "Compute".to_string(),
    };

    let mut configuration = Vec::new();
    configuration.push(("image".to_string(), JsonValue::text("nginx:latest")));
    configuration.push(("port".to_string(), JsonValue::number("80")));
    configuration.push(("replicas".to_string(), JsonValue::number("3")));

    let stack_resource = StackResource {
        id: "33333333-3333-3333-3333-333333333333".to_string(),
        name: "web-app".to_string(),
        description: Some("Web application container".to_string()),
        resource_type,
        cloud_provider,
        configuration,
    };

    let stack = Stack {
        id: "44444444-4444-4444-4444-444444444444".to_string(),
        name: "app-stack".to_string(),
        description: None,
        cloud_name: "aws-us-east-1".to_string(),
        stack_type: "WEB_APPLICATION".to_string(),
        stack_resources: vec![stack_resource],
        blueprint: None,
    };

    let context = VariableContextBuilder::from_stack(&stack);

    // Test nested access to configuration through the array
    assert_eq!(
        context.get("stack_resources[0].configuration.image"),
        Some(&JsonValue::text("nginx:latest"))
    );
    assert_eq!(
        context.get("stack_resources[0].configuration.port"),
        Some(&JsonValue::number("80"))
    );
    assert_eq!(
        context.get("stack_resources[0].configuration.replicas"),
        Some(&JsonValue::number("3"))
    );
}

// Tests for merge_custom_variables()

#[test]
fn test_merge_custom_variables_from_json() {
    let variables_file = "/srv/variables.json";
    let json_content = r#"{
            "environment": "production",
            "region": "us-east-1",
            "custom_value": 42
        }"#;
    let read: Result<String, String> = Ok(json_content.to_string());

    // Create a context with some existing variables
    let mut context = VariableContext::new();
    context.insert("blueprint.name".to_string(), JsonValue::text("test-blueprint"));

    // Merge custom variables
    let result = VariableContextBuilder::merge_custom_variables(&mut context, variables_file, read);
    assert!(result.is_ok());

    // Verify custom variables were added
    assert_eq!(context.get("environment"), Some(&JsonValue::text("production")));
    assert_eq!(context.get("region"), Some(&JsonValue::text("us-east-1")));
    assert_eq!(context.get("custom_value"), Some(&JsonValue::number("42")));

    // Verify existing variables are still present
    assert_eq!(context.get("blueprint.name"), Some(&JsonValue::text("test-blueprint")));
}

#[test]
fn test_merge_custom_variables_from_yaml() {
    let variables_file = "/srv/variables.yaml";
    let yaml_content = r#"
environment: staging
region: eu-west-1
replicas: 5
"#;
    let read: Result<String, String> = Ok(yaml_content.to_string());

    // Create a context
    let mut context = VariableContext::new();
    context.insert("stack.name".to_string(), JsonValue::text("test-stack"));

    // Merge custom variables
    let result = VariableContextBuilder::merge_custom_variables(&mut context, variables_file, read);
    assert!(result.is_ok());

    // Verify custom variables were added
    assert_eq!(context.get("environment"), Some(&JsonValue::text("staging")));
    assert_eq!(context.get("region"), Some(&JsonValue::text("eu-west-1")));
    assert_eq!(context.get("replicas"), Some(&JsonValue::number("5")));

    // Verify existing variables are still present
    assert_eq!(context.get("stack.name"), Some(&JsonValue::text("test-stack")));
}

#[test]
fn test_merge_custom_variables_with_nested_structure() {
    let variables_file = "/srv/variables.json";
    let json_content = r#"{
            "database": {
                "host": "db.example.com",
                "port": 5432,
                "credentials": {
                    "username": "admin",
                    "password": "secret"
                }
            }
        }"#;
    let read: Result<String, String> = Ok(json_content.to_string());

    // Create a context
    let mut context = VariableContext::new();

    // Merge custom variables
    let result = VariableContextBuilder::merge_custom_variables(&mut context, variables_file, read);
    assert!(result.is_ok());

    // Verify nested access works
    assert_eq!(context.get("database.host"), Some(&JsonValue::text("db.example.com")));
    assert_eq!(context.get("database.port"), Some(&JsonValue::number("5432")));
    assert_eq!(context.get("database.credentials.username"), Some(&JsonValue::text("admin")));
    assert_eq!(context.get("database.credentials.password"), Some(&JsonValue::text("secret")));

    // Verify the whole structure is also accessible
    let database = context.get("database");
    assert!(database.is_some());
    assert!(database.unwrap().is_object());
}

#[test]
fn test_merge_custom_variables_with_arrays() {
    let variables_file = "/srv/variables.json";
    let json_content = r#"{
            "servers": [
                {"name": "web-1", "ip": "10.0.1.1"},
                {"name": "web-2", "ip": "10.0.1.2"}
            ],
            "ports": [80, 443, 8080]
        }"#;
    let read: Result<String, String> = Ok(json_content.to_string());

    // Create a context
    let mut context = VariableContext::new();

    // Merge custom variables
    let result = VariableContextBuilder::merge_custom_variables(&mut context, variables_file, read);
    assert!(result.is_ok());

    // Verify array access works
    assert_eq!(context.get("servers[0].name"), Some(&JsonValue::text("web-1")));
    assert_eq!(context.get("servers[0].ip"), Some(&JsonValue::text("10.0.1.1")));
    assert_eq!(context.get("servers[1].name"), Some(&JsonValue::text("web-2")));
    assert_eq!(context.get("servers[1].ip"), Some(&JsonValue::text("10.0.1.2")));
    assert_eq!(context.get("ports[0]"), Some(&JsonValue::number("80")));
    assert_eq!(context.get("ports[1]"), Some(&JsonValue::number("443")));
    assert_eq!(context.get("ports[2]"), Some(&JsonValue::number("8080")));

    // Verify the whole arrays are also accessible
    let servers = context.get("servers");
    assert!(servers.is_some());
    assert!(servers.unwrap().is_array());
}

#[test]
fn test_merge_custom_variables_overrides_existing() {
    let variables_file = "/srv/variables.json";
    let json_content = r#"{
            "blueprint.name": "custom-blueprint",
            "environment": "production"
        }"#;
    let read: Result<String, String> = Ok(json_content.to_string());

    // Create a context with existing variables
    let mut context = VariableContext::new();
    context.insert("blueprint.name".to_string(), JsonValue::text("original-blueprint"));
    context.insert("stack.name".to_string(), JsonValue::text("test-stack"));

    // Merge custom variables (should override blueprint.name)
    let result = VariableContextBuilder::merge_custom_variables(&mut context, variables_file, read);
    assert!(result.is_ok());

    // Verify override occurred
    assert_eq!(context.get("blueprint.name"), Some(&JsonValue::text("custom-blueprint")));

    // Verify new variable was added
    assert_eq!(context.get("environment"), Some(&JsonValue::text("production")));

    // Verify non-overridden variable is still present
    assert_eq!(context.get("stack.name"), Some(&JsonValue::text("test-stack")));
}

#[test]
fn test_merge_custom_variables_invalid_file() {

    let mut context = VariableContext::new();

    // Try to merge from non-existent file
    let result = VariableContextBuilder::merge_custom_variables(
        &mut context,
        "/nonexistent/file.json",
        Err("No such file or directory (os error 2)".to_string()),
    );

    assert!(result.is_err());
    if let Err(e) = result {
        assert!(e.message().contains("Failed to read variables file"));
    }
}

#[test]
fn test_merge_custom_variables_invalid_json() {
    let variables_file = "/srv/variables.json";
    let invalid_json = r#"{ invalid json content }"#;
    let read: Result<String, String> = Ok(invalid_json.to_string());

    let mut context = VariableContext::new();

    // Try to merge invalid JSON
    let result = VariableContextBuilder::merge_custom_variables(&mut context, variables_file, read);

    assert!(result.is_err());
    if let Err(e) = result {
        assert!(e.message().contains("Failed to parse JSON"));
    }
}

#[test]
fn test_merge_custom_variables_invalid_yaml() {
    let variables_file = "/srv/variables.yaml";
    let invalid_yaml = r#"
invalid: yaml: content:
  - this is
  - not: valid
    - yaml
"#;
    let read: Result<String, String> = Ok(invalid_yaml.to_string());

    let mut context = VariableContext::new();

    // Try to merge invalid YAML
    let result = VariableContextBuilder::merge_custom_variables(&mut context, variables_file, read);

    assert!(result.is_err());
    if let Err(e) = result {
        assert!(e.message().contains("Failed to parse YAML"));
    }
}

#[test]
fn test_merge_custom_variables_unsupported_extension() {
    let variables_file = "/srv/variables.txt";
    let read: Result<String, String> = Ok("some content".to_string());

    let mut context = VariableContext::new();

    // Try to merge from unsupported file type
    let result = VariableContextBuilder::merge_custom_variables(&mut context, variables_file, read);

    assert!(result.is_err());
    if let Err(e) = result {
        assert!(e.message().contains("Unsupported file extension"));
    }
}

#[test]
fn test_merge_custom_variables_non_object_root() {
    let variables_file = "/srv/variables.json";
    let json_content = r#"["item1", "item2", "item3"]"#;
    let read: Result<String, String> = Ok(json_content.to_string());

    let mut context = VariableContext::new();

    // Try to merge array at root (should fail)
    let result = VariableContextBuilder::merge_custom_variables(&mut context, variables_file, read);

    assert!(result.is_err());
    if let Err(e) = result {
        assert!(e.message().contains("must contain a JSON/YAML object at the root"));
    }
}

#[test]
fn test_merge_custom_variables_yml_extension() {
    let variables_file = "/srv/variables.yml";
    let yaml_content = r#"
test_key: test_value
number: 123
"#;
    let read: Result<String, String> = Ok(yaml_content.to_string());

    let mut context = VariableContext::new();

    // Merge custom variables (should work with .yml extension)
    let result = VariableContextBuilder::merge_custom_variables(&mut context, variables_file, read);
    assert!(result.is_ok());

    // Verify variables were added
    assert_eq!(context.get("test_key"), Some(&JsonValue::text("test_value")));
    assert_eq!(context.get("number"), Some(&JsonValue::number("123")));
}

#[test]
fn test_merge_custom_variables_complex_nested_override() {

    // Create a context with existing nested structure
    let mut context = VariableContext::new();
    context.insert("resources[0].name".to_string(), JsonValue::text("original-db"));
    context.insert("resources[0].configuration.engine".to_string(), JsonValue::text("mysql"));
    let variables_file = "/srv/variables.json";
    let json_content = r#"{
            "resources": [
                {
                    "name": "custom-db",
                    "configuration": {
                        "engine": "postgres"
                    }
                }
            ]
        }"#;
    let read: Result<String, String> = Ok(json_content.to_string());

    // Merge custom variables
    let result = VariableContextBuilder::merge_custom_variables(&mut context, variables_file, read);
    assert!(result.is_ok());

    // Verify overrides occurred
    assert_eq!(context.get("resources[0].name"), Some(&JsonValue::text("custom-db")));
    assert_eq!(context.get("resources[0].configuration.engine"), Some(&JsonValue::text("postgres")));
}

#[test]
fn test_merge_custom_variables_preserves_types() {
    let variables_file = "/srv/variables.json";
    let json_content = r#"{
            "string_value": "hello",
            "number_value": 42,
            "float_value": 3.14,
            "boolean_value": true,
            "null_value": null
        }"#;
    let read: Result<String, String> = Ok(json_content.to_string());

    let mut context = VariableContext::new();

    // Merge custom variables
    let result = VariableContextBuilder::merge_custom_variables(&mut context, variables_file, read);
    assert!(result.is_ok());

    // Verify types are preserved
    assert_eq!(context.get("string_value"), Some(&JsonValue::text("hello")));
    assert_eq!(context.get("number_value"), Some(&JsonValue::number("42")));
    assert_eq!(context.get("float_value"), Some(&JsonValue::number("3.14")));
    assert_eq!(context.get("boolean_value"), Some(&JsonValue::Bool(true)));
    assert_eq!(context.get("null_value"), Some(&JsonValue::Null));
}

#[test]
fn test_from_stack_holds_the_configuration_whole_and_each_entry() {
    let mut stack = create_test_stack();
    stack.stack_resources[0].configuration =
        vec![("engine".to_string(), JsonValue::text("postgres"))];
    let context = VariableContextBuilder::from_stack(&stack);

    let variables = context.variables();
    let held = |key: &str| variables.iter().find(|(k, _)| k == key).map(|(_, v)| v.clone());
    assert_eq!(held("stack_resources[0].configuration"), Some(json(r#"{"engine": "postgres"}"#)));
    assert_eq!(held("stack_resources[0].configuration.engine"), Some(JsonValue::text("postgres")));

    let listed: Vec<String> = context.list_all().iter().map(|(k, _)| k.clone()).collect();
    assert!(listed.contains(&"stack_resources[0].configuration".to_string()));
    assert!(listed.contains(&"stack_resources[0].configuration.engine".to_string()));
}

#[test]
fn test_from_stack_flattens_what_is_inside_the_configuration() {
    let mut stack = create_test_stack();
    stack.stack_resources[0].configuration = vec![
        ("ports".to_string(), json("[80, 443]")),
        ("limits".to_string(), json(r#"{"cpu": {"max": 4}}"#)),
        ("a.b".to_string(), JsonValue::Bool(true)),
    ];
    let context = VariableContextBuilder::from_stack(&stack);
    let keys: Vec<String> = context
        .paths()
        .into_iter()
        .filter(|k| k.starts_with("stack_resources[0].configuration"))
        .collect();
    assert_eq!(
        keys,
        vec![
            "stack_resources[0].configuration",
            "stack_resources[0].configuration.a.b",
            "stack_resources[0].configuration.limits",
            "stack_resources[0].configuration.limits.cpu",
            "stack_resources[0].configuration.limits.cpu.max",
            "stack_resources[0].configuration.ports",
            "stack_resources[0].configuration.ports[0]",
            "stack_resources[0].configuration.ports[1]",
        ]
    );
    assert_eq!(
        context.get("stack_resources[0].configuration.a.b"),
        Some(&JsonValue::Bool(true))
    );
    assert_eq!(
        context.get("stack_resources[0].configuration.ports[1]"),
        Some(&JsonValue::number("443"))
    );
}

#[test]
fn test_from_blueprint_holds_each_configuration_entry_under_its_own_path() {
    let mut blueprint = create_test_blueprint();
    blueprint.resources[0].configuration =
        json(r#"{"allocated_storage": 20, "net.mask": "/24", "tags": ["a", "b"]}"#);
    let context = VariableContextBuilder::from_blueprint(&blueprint);
    let keys: Vec<String> = context
        .paths()
        .into_iter()
        .filter(|k| k.starts_with("resources[0].configuration"))
        .collect();
    assert_eq!(
        keys,
        vec![
            "resources[0].configuration",
            "resources[0].configuration.allocated_storage",
            "resources[0].configuration.net.mask",
            "resources[0].configuration.tags",
            "resources[0].configuration.tags[0]",
            "resources[0].configuration.tags[1]",
        ]
    );
    assert_eq!(
        context.get("resources[0].configuration"),
        Some(&blueprint.resources[0].configuration)
    );
    assert_eq!(
        context.get("resources[0].configuration.net.mask"),
        Some(&JsonValue::text("/24"))
    );
    assert_eq!(
        context.get("resources[0].configuration.allocated_storage"),
        Some(&JsonValue::number("20"))
    );
    assert_eq!(context.get("resources[1].name"), None);
}

#[test]
fn test_from_blueprint_configuration_that_is_no_mapping_is_held_whole() {
    let mut blueprint = create_test_blueprint();
    blueprint.resources[0].configuration = JsonValue::text("none");
    let context = VariableContextBuilder::from_blueprint(&blueprint);
    let keys: Vec<String> = context
        .paths()
        .into_iter()
        .filter(|k| k.starts_with("resources[0].configuration"))
        .collect();
    assert_eq!(keys, vec!["resources[0].configuration"]);
}
