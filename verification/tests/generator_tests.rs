use idp_cli::engine::read_json;
use idp_cli::generator::CodeGenerator;
use idp_cli::resource_mapper::ResourceMapper;
use idp_cli::models::{
    Blueprint, BlueprintResource, CloudProvider, ResourceType, Stack, StackResource,
};
use idp_cli::value::JsonValue;

fn json(text: &str) -> JsonValue {
    read_json(text).unwrap()
}

fn create_test_cloud_provider(name: &str, display_name: &str) -> CloudProvider {
    CloudProvider {
        id: "00000000-0000-4000-8000-000000000000".to_string(),
        name: name.to_string(),
        display_name: display_name.to_string(),
    }
}

#[test]
fn test_generate_providers_tf_with_aws() {
    let generator = CodeGenerator::new();
    let providers = vec![create_test_cloud_provider("AWS", "Amazon Web Services")];

    let result = generator.generate_providers_tf(&providers);

    // Verify terraform block exists
    assert!(result.contains("terraform {"));
    assert!(result.contains("required_providers {"));

    // Verify AWS provider configuration
    assert!(result.contains("aws = {"));
    assert!(result.contains("source  = \"hashicorp/aws\""));
    assert!(result.contains("version = \"~> 5.0\""));

    // Verify provider block
    assert!(result.contains("provider \"aws\" {"));
    assert!(result.contains("region = var.aws_region"));
}

#[test]
fn test_generate_providers_tf_with_azure() {
    let generator = CodeGenerator::new();
    let providers = vec![create_test_cloud_provider("AZURE", "Microsoft Azure")];

    let result = generator.generate_providers_tf(&providers);

    // Verify Azure provider configuration
    assert!(result.contains("azurerm = {"));
    assert!(result.contains("source  = \"hashicorp/azurerm\""));
    assert!(result.contains("version = \"~> 3.0\""));

    // Verify provider block with features
    assert!(result.contains("provider \"azurerm\" {"));
    assert!(result.contains("features {}"));
}

#[test]
fn test_generate_providers_tf_with_gcp() {
    let generator = CodeGenerator::new();
    let providers = vec![create_test_cloud_provider("GCP", "Google Cloud Platform")];

    let result = generator.generate_providers_tf(&providers);

    // Verify GCP provider configuration
    assert!(result.contains("google = {"));
    assert!(result.contains("source  = \"hashicorp/google\""));
    assert!(result.contains("version = \"~> 5.0\""));

    // Verify provider block with project and region
    assert!(result.contains("provider \"google\" {"));
    assert!(result.contains("project = var.gcp_project"));
    assert!(result.contains("region  = var.gcp_region"));
}

#[test]
fn test_generate_providers_tf_with_multiple_providers() {
    let generator = CodeGenerator::new();
    let providers = vec![
        create_test_cloud_provider("AWS", "Amazon Web Services"),
        create_test_cloud_provider("AZURE", "Microsoft Azure"),
        create_test_cloud_provider("GCP", "Google Cloud Platform"),
    ];

    let result = generator.generate_providers_tf(&providers);

    // Verify all three providers are included
    assert!(result.contains("aws = {"));
    assert!(result.contains("azurerm = {"));
    assert!(result.contains("google = {"));

    // Verify all provider blocks exist
    assert!(result.contains("provider \"aws\" {"));
    assert!(result.contains("provider \"azurerm\" {"));
    assert!(result.contains("provider \"google\" {"));
}

#[test]
fn test_generate_providers_tf_deduplicates_providers() {
    let generator = CodeGenerator::new();
    let providers = vec![
        create_test_cloud_provider("AWS", "Amazon Web Services"),
        create_test_cloud_provider("AWS", "Amazon Web Services"),
        create_test_cloud_provider("AWS", "Amazon Web Services"),
    ];

    let result = generator.generate_providers_tf(&providers);

    // Count occurrences of AWS provider block - should only appear once
    let aws_count = result.matches("provider \"aws\" {").count();
    assert_eq!(aws_count, 1, "AWS provider should only appear once");

    let aws_required_count = result.matches("aws = {").count();
    assert_eq!(aws_required_count, 1, "AWS in required_providers should only appear once");
}

#[test]
fn test_normalize_provider_name() {
    let generator = CodeGenerator::new();

    assert_eq!(generator.normalize_provider_name("AWS"), "aws");
    assert_eq!(generator.normalize_provider_name("aws"), "aws");
    assert_eq!(generator.normalize_provider_name("AZURE"), "azurerm");
    assert_eq!(generator.normalize_provider_name("azure"), "azurerm");
    assert_eq!(generator.normalize_provider_name("GCP"), "google");
    assert_eq!(generator.normalize_provider_name("gcp"), "google");
}

#[test]
fn test_get_provider_source_and_version() {
    let generator = CodeGenerator::new();

    let (source, version) = generator.get_provider_source_and_version("AWS");
    assert_eq!(source, "hashicorp/aws");
    assert_eq!(version, "~> 5.0");

    let (source, version) = generator.get_provider_source_and_version("AZURE");
    assert_eq!(source, "hashicorp/azurerm");
    assert_eq!(version, "~> 3.0");

    let (source, version) = generator.get_provider_source_and_version("GCP");
    assert_eq!(source, "hashicorp/google");
    assert_eq!(version, "~> 5.0");
}

#[test]
fn test_provider_output_format() {
    let generator = CodeGenerator::new();
    let providers = vec![
        create_test_cloud_provider("AWS", "Amazon Web Services"),
    ];

    let result = generator.generate_providers_tf(&providers);

    // Print the output for manual verification
    println!("\n=== Generated providers.tf (AWS only) ===\n{}\n=== End ===\n", result);

    // Verify basic structure
    assert!(result.starts_with("terraform {"));
    assert!(result.contains("required_providers {"));
    assert!(result.contains("provider \"aws\" {"));
}

#[test]
fn test_provider_output_format_multi_cloud() {
    let generator = CodeGenerator::new();
    let providers = vec![
        create_test_cloud_provider("AWS", "Amazon Web Services"),
        create_test_cloud_provider("AZURE", "Microsoft Azure"),
        create_test_cloud_provider("GCP", "Google Cloud Platform"),
    ];

    let result = generator.generate_providers_tf(&providers);

    // Print the output for manual verification
    println!("\n=== Generated providers.tf (Multi-cloud) ===\n{}\n=== End ===\n", result);

    // Verify all providers are present
    assert!(result.contains("aws = {"));
    assert!(result.contains("azurerm = {"));
    assert!(result.contains("google = {"));
}

// Tests for variables generation

fn create_test_resource_type(name: &str) -> ResourceType {
    ResourceType {
        id: "00000000-0000-4000-8000-000000000000".to_string(),
        name: name.to_string(),
        category: "test".to_string(),
    }
}

fn create_test_blueprint_resource(name: &str, cloud_provider: CloudProvider) -> BlueprintResource {
    let mut cloud_specific_properties = Vec::new();
    cloud_specific_properties.push(("engine".to_string(), JsonValue::text("postgres")));
    cloud_specific_properties.push(("engine_version".to_string(), JsonValue::text("14.7")));
    cloud_specific_properties.push(("instance_class".to_string(), JsonValue::text("db.t3.micro")));

    BlueprintResource {
        id: "00000000-0000-4000-8000-000000000000".to_string(),
        name: name.to_string(),
        description: Some("Test database".to_string()),
        resource_type: create_test_resource_type("RelationalDatabaseServer"),
        cloud_provider,
        configuration: json(r##"{}"##),
        cloud_specific_properties,
    }
}

fn create_test_stack_resource(name: &str, cloud_provider: CloudProvider) -> StackResource {
    let mut configuration = Vec::new();
    configuration.push(("engine".to_string(), JsonValue::text("postgres")));
    configuration.push(("engine_version".to_string(), JsonValue::text("14.7")));
    configuration.push(("instance_class".to_string(), JsonValue::text("db.t3.micro")));

    StackResource {
        id: "00000000-0000-4000-8000-000000000000".to_string(),
        name: name.to_string(),
        description: Some("Test database".to_string()),
        resource_type: create_test_resource_type("RelationalDatabaseServer"),
        cloud_provider,
        configuration,
    }
}

#[test]
fn test_generate_variables_tf_from_blueprint_with_aws() {
    let generator = CodeGenerator::new();
    let aws_provider = create_test_cloud_provider("AWS", "Amazon Web Services");

    let blueprint = Blueprint {
        id: "00000000-0000-4000-8000-000000000000".to_string(),
        name: "test-blueprint".to_string(),
        description: Some("Test blueprint".to_string()),
        resources: vec![create_test_blueprint_resource("postgres-db", aws_provider.clone())],
        supported_cloud_providers: vec![aws_provider],
    };

    let result = generator.generate_variables_tf_from_blueprint(&blueprint);

    println!("\n=== Generated variables.tf (Blueprint with AWS) ===\n{}\n=== End ===\n", result);

    // Verify AWS region variable
    assert!(result.contains("variable \"aws_region\" {"));
    assert!(result.contains("description = \"AWS region for resource deployment\""));
    assert!(result.contains("type        = string"));
    assert!(result.contains("default     = \"us-east-1\""));

    // Verify resource identifier variable
    assert!(result.contains("variable \"postgres_db_identifier\" {"));
    assert!(result.contains("Identifier for postgres-db"));

    // Verify resource property variables
    assert!(result.contains("variable \"postgres_db_engine\" {"));
    assert!(result.contains("variable \"postgres_db_engine_version\" {"));
    assert!(result.contains("variable \"postgres_db_instance_class\" {"));
}

#[test]
fn test_generate_variables_tf_from_blueprint_with_gcp() {
    let generator = CodeGenerator::new();
    let gcp_provider = create_test_cloud_provider("GCP", "Google Cloud Platform");

    let blueprint = Blueprint {
        id: "00000000-0000-4000-8000-000000000000".to_string(),
        name: "test-blueprint".to_string(),
        description: Some("Test blueprint".to_string()),
        resources: vec![create_test_blueprint_resource("postgres-db", gcp_provider.clone())],
        supported_cloud_providers: vec![gcp_provider],
    };

    let result = generator.generate_variables_tf_from_blueprint(&blueprint);

    println!("\n=== Generated variables.tf (Blueprint with GCP) ===\n{}\n=== End ===\n", result);

    // Verify GCP region and project variables
    assert!(result.contains("variable \"gcp_project\" {"));
    assert!(result.contains("description = \"GCP project ID\""));
    assert!(result.contains("variable \"gcp_region\" {"));
    assert!(result.contains("description = \"GCP region for resource deployment\""));
    assert!(result.contains("default     = \"us-central1\""));
}

#[test]
fn test_generate_variables_tf_from_stack_with_azure() {
    let generator = CodeGenerator::new();
    let azure_provider = create_test_cloud_provider("AZURE", "Microsoft Azure");

    let stack = Stack {
        id: "00000000-0000-4000-8000-000000000000".to_string(),
        name: "test-stack".to_string(),
        description: Some("Test stack".to_string()),
        cloud_name: "azure-cloud".to_string(),
        stack_type: "infrastructure".to_string(),
        stack_resources: vec![create_test_stack_resource("sql-server", azure_provider)],
        blueprint: None,
    };

    let result = generator.generate_variables_tf_from_stack(&stack);

    println!("\n=== Generated variables.tf (Stack with Azure) ===\n{}\n=== End ===\n", result);

    // Verify Azure location variable
    assert!(result.contains("variable \"azure_location\" {"));
    assert!(result.contains("description = \"Azure location for resource deployment\""));
    assert!(result.contains("default     = \"eastus\""));

    // Verify resource identifier variable
    assert!(result.contains("variable \"sql_server_identifier\" {"));
    assert!(result.contains("Identifier for sql-server"));
}

#[test]
fn test_generate_variables_tf_with_multiple_resources() {
    let generator = CodeGenerator::new();
    let aws_provider = create_test_cloud_provider("AWS", "Amazon Web Services");

    let blueprint = Blueprint {
        id: "00000000-0000-4000-8000-000000000000".to_string(),
        name: "multi-resource-blueprint".to_string(),
        description: Some("Blueprint with multiple resources".to_string()),
        resources: vec![
            create_test_blueprint_resource("postgres-db", aws_provider.clone()),
            create_test_blueprint_resource("mysql-db", aws_provider.clone()),
        ],
        supported_cloud_providers: vec![aws_provider],
    };

    let result = generator.generate_variables_tf_from_blueprint(&blueprint);

    println!("\n=== Generated variables.tf (Multiple Resources) ===\n{}\n=== End ===\n", result);

    // Verify both resource identifiers exist
    assert!(result.contains("variable \"postgres_db_identifier\" {"));
    assert!(result.contains("variable \"mysql_db_identifier\" {"));

    // Verify both sets of resource properties exist
    assert!(result.contains("variable \"postgres_db_engine\" {"));
    assert!(result.contains("variable \"mysql_db_engine\" {"));
}

#[test]
fn test_sanitize_name() {
    let generator = CodeGenerator::new();

    assert_eq!(generator.sanitize_name("postgres-db"), "postgres_db");
    assert_eq!(generator.sanitize_name("My Database"), "my_database");
    assert_eq!(generator.sanitize_name("test.resource"), "test_resource");
    assert_eq!(generator.sanitize_name("UPPERCASE"), "uppercase");
}

#[test]
fn test_infer_variable_type_and_default() {
    let generator = CodeGenerator::new();

    // Test string
    let (var_type, default) = generator.infer_variable_type_and_default(&JsonValue::text("test"));
    assert_eq!(var_type, "string");
    assert_eq!(default, Some("\"test\"".to_string()));

    // Test number
    let (var_type, default) = generator.infer_variable_type_and_default(&JsonValue::number("42"));
    assert_eq!(var_type, "number");
    assert_eq!(default, Some("42".to_string()));

    // Test boolean
    let (var_type, default) = generator.infer_variable_type_and_default(&JsonValue::Bool(true));
    assert_eq!(var_type, "bool");
    assert_eq!(default, Some("true".to_string()));

    // Test array
    let (var_type, default) = generator.infer_variable_type_and_default(&json(r##"["a", "b"]"##));
    assert_eq!(var_type, "list(string)");
    assert_eq!(default, None);

    // Test object
    let (var_type, default) = generator.infer_variable_type_and_default(&json(r##"{"key": "value"}"##));
    assert_eq!(var_type, "map(string)");
    assert_eq!(default, None);
}

#[test]
fn test_variables_output_format() {
    let generator = CodeGenerator::new();
    let aws_provider = create_test_cloud_provider("AWS", "Amazon Web Services");

    let blueprint = Blueprint {
        id: "00000000-0000-4000-8000-000000000000".to_string(),
        name: "format-test".to_string(),
        description: Some("Test formatting".to_string()),
        resources: vec![create_test_blueprint_resource("test-db", aws_provider.clone())],
        supported_cloud_providers: vec![aws_provider],
    };

    let result = generator.generate_variables_tf_from_blueprint(&blueprint);

    // Verify proper HCL formatting
    assert!(result.contains("variable \""));
    assert!(result.contains("description = "));
    assert!(result.contains("type        = "));
    assert!(result.contains("default     = "));

    // Verify blocks are properly closed
    let open_braces = result.matches('{').count();
    let close_braces = result.matches('}').count();
    assert_eq!(open_braces, close_braces, "Braces should be balanced");
}

#[test]
fn test_variables_sorted_output() {
    let generator = CodeGenerator::new();
    let aws_provider = create_test_cloud_provider("AWS", "Amazon Web Services");

    let blueprint = Blueprint {
        id: "00000000-0000-4000-8000-000000000000".to_string(),
        name: "sort-test".to_string(),
        description: Some("Test sorting".to_string()),
        resources: vec![create_test_blueprint_resource("zebra-db", aws_provider.clone())],
        supported_cloud_providers: vec![aws_provider],
    };

    let result = generator.generate_variables_tf_from_blueprint(&blueprint);

    // Variables should appear in alphabetical order
    // aws_region should come before zebra_db_* variables
    let aws_region_pos = result.find("variable \"aws_region\"").unwrap();
    let zebra_db_pos = result.find("variable \"zebra_db_").unwrap();
    assert!(aws_region_pos < zebra_db_pos, "Variables should be sorted alphabetically");
}

// Tests for main.tf generation

#[test]
fn test_generate_main_tf_from_blueprint_with_aws_db() {
    let generator = CodeGenerator::new();
    let aws_provider = create_test_cloud_provider("AWS", "Amazon Web Services");

    let blueprint = Blueprint {
        id: "00000000-0000-4000-8000-000000000000".to_string(),
        name: "web-app-blueprint".to_string(),
        description: Some("Web application blueprint".to_string()),
        resources: vec![create_test_blueprint_resource("postgres-db", aws_provider.clone())],
        supported_cloud_providers: vec![aws_provider],
    };

    let result = generator.generate_main_tf_from_blueprint(&blueprint);

    println!("\n=== Generated main.tf (Blueprint with AWS DB) ===\n{}\n=== End ===\n", result);

    // Verify resource block
    assert!(result.contains("resource \"aws_db_instance\" \"postgres_db\" {"));

    // Verify identifier
    assert!(result.contains("identifier = var.postgres_db_identifier"));

    // Verify properties
    assert!(result.contains("engine"));
    assert!(result.contains("engine_version"));
    assert!(result.contains("instance_class"));

    // Verify tags
    assert!(result.contains("tags = {"));
    assert!(result.contains("Name      = \"postgres-db\""));
    assert!(result.contains("ManagedBy = \"IDP\""));
    assert!(result.contains("Blueprint = \"web-app-blueprint\""));
}

#[test]
fn test_generate_main_tf_from_stack_with_aws_ecs() {
    let generator = CodeGenerator::new();
    let aws_provider = create_test_cloud_provider("AWS", "Amazon Web Services");

    let mut configuration = Vec::new();
    configuration.push(("cluster_name".to_string(), JsonValue::text("my-cluster")));

    let ecs_resource = StackResource {
        id: "00000000-0000-4000-8000-000000000000".to_string(),
        name: "app-cluster".to_string(),
        description: Some("Application cluster".to_string()),
        resource_type: create_test_resource_type("ContainerOrchestrator"),
        cloud_provider: aws_provider.clone(),
        configuration,
    };

    let stack = Stack {
        id: "00000000-0000-4000-8000-000000000000".to_string(),
        name: "production-stack".to_string(),
        description: Some("Production stack".to_string()),
        cloud_name: "aws-prod".to_string(),
        stack_type: "infrastructure".to_string(),
        stack_resources: vec![ecs_resource],
        blueprint: None,
    };

    let result = generator.generate_main_tf_from_stack(&stack);

    println!("\n=== Generated main.tf (Stack with AWS ECS) ===\n{}\n=== End ===\n", result);

    // Verify resource block
    assert!(result.contains("resource \"aws_ecs_cluster\" \"app_cluster\" {"));

    // Verify name attribute
    assert!(result.contains("name = var.app_cluster_identifier"));

    // Verify tags
    assert!(result.contains("tags = {"));
    assert!(result.contains("Name      = \"app-cluster\""));
    assert!(result.contains("ManagedBy = \"IDP\""));
    assert!(result.contains("Stack     = \"production-stack\""));
}

#[test]
fn test_generate_main_tf_with_azure_resources() {
    let generator = CodeGenerator::new();
    let azure_provider = create_test_cloud_provider("Azure", "Microsoft Azure");

    let mut cloud_specific_properties = Vec::new();
    cloud_specific_properties.push(("server_name".to_string(), JsonValue::text("my-sql-server")));
    cloud_specific_properties.push(("version".to_string(), JsonValue::text("12.0")));
    cloud_specific_properties.push(("administrator_login".to_string(), JsonValue::text("sqladmin")));

    let azure_resource = BlueprintResource {
        id: "00000000-0000-4000-8000-000000000000".to_string(),
        name: "sql-server".to_string(),
        description: Some("Azure SQL Server".to_string()),
        resource_type: create_test_resource_type("RelationalDatabaseServer"),
        cloud_provider: azure_provider.clone(),
        configuration: json(r##"{}"##),
        cloud_specific_properties,
    };

    let blueprint = Blueprint {
        id: "00000000-0000-4000-8000-000000000000".to_string(),
        name: "azure-blueprint".to_string(),
        description: Some("Azure blueprint".to_string()),
        resources: vec![azure_resource],
        supported_cloud_providers: vec![azure_provider],
    };

    let result = generator.generate_main_tf_from_blueprint(&blueprint);

    println!("\n=== Generated main.tf (Blueprint with Azure SQL) ===\n{}\n=== End ===\n", result);

    // Verify resource block
    assert!(result.contains("resource \"azurerm_mssql_server\" \"sql_server\" {"));

    // Verify properties
    assert!(result.contains("version"));
    assert!(result.contains("administrator_login"));

    // Verify tags
    assert!(result.contains("tags = {"));
    assert!(result.contains("Name      = \"sql-server\""));
}

#[test]
fn test_generate_main_tf_with_gcp_resources() {
    let generator = CodeGenerator::new();
    let gcp_provider = create_test_cloud_provider("GCP", "Google Cloud Platform");

    let mut configuration = Vec::new();
    configuration.push(("instance_name".to_string(), JsonValue::text("my-db-instance")));
    configuration.push(("database_version".to_string(), JsonValue::text("POSTGRES_14")));
    configuration.push(("tier".to_string(), JsonValue::text("db-f1-micro")));

    let gcp_resource = StackResource {
        id: "00000000-0000-4000-8000-000000000000".to_string(),
        name: "postgres-instance".to_string(),
        description: Some("PostgreSQL instance".to_string()),
        resource_type: create_test_resource_type("RelationalDatabaseServer"),
        cloud_provider: gcp_provider.clone(),
        configuration,
    };

    let stack = Stack {
        id: "00000000-0000-4000-8000-000000000000".to_string(),
        name: "gcp-stack".to_string(),
        description: Some("GCP stack".to_string()),
        cloud_name: "gcp-prod".to_string(),
        stack_type: "infrastructure".to_string(),
        stack_resources: vec![gcp_resource],
        blueprint: None,
    };

    let result = generator.generate_main_tf_from_stack(&stack);

    println!("\n=== Generated main.tf (Stack with GCP SQL) ===\n{}\n=== End ===\n", result);

    // Verify resource block
    assert!(result.contains("resource \"google_sql_database_instance\" \"postgres_instance\" {"));

    // Verify properties
    assert!(result.contains("database_version"));

    // Verify tags
    assert!(result.contains("tags = {"));
    assert!(result.contains("Name      = \"postgres-instance\""));
}

#[test]
fn test_generate_main_tf_with_nested_objects() {
    let generator = CodeGenerator::new();
    let aws_provider = create_test_cloud_provider("AWS", "Amazon Web Services");

    let mut configuration = Vec::new();
    configuration.push(("engine".to_string(), JsonValue::text("postgres")));
    configuration.push(("settings".to_string(), json(r##"{
        "tier": "db.t3.micro",
        "backup": {
            "enabled": true,
            "retention_days": 7
        }
    }"##)));

    let resource = StackResource {
        id: "00000000-0000-4000-8000-000000000000".to_string(),
        name: "complex-db".to_string(),
        description: Some("Database with nested config".to_string()),
        resource_type: create_test_resource_type("RelationalDatabaseServer"),
        cloud_provider: aws_provider.clone(),
        configuration,
    };

    let stack = Stack {
        id: "00000000-0000-4000-8000-000000000000".to_string(),
        name: "test-stack".to_string(),
        description: Some("Test stack".to_string()),
        cloud_name: "aws-test".to_string(),
        stack_type: "infrastructure".to_string(),
        stack_resources: vec![resource],
        blueprint: None,
    };

    let result = generator.generate_main_tf_from_stack(&stack);

    println!("\n=== Generated main.tf (Nested Objects) ===\n{}\n=== End ===\n", result);

    // Verify nested object handling
    assert!(result.contains("settings  = {"));
    assert!(result.contains("tier"));
    assert!(result.contains("backup  = {"));
    assert!(result.contains("enabled"));
    assert!(result.contains("retention_days"));
}

#[test]
fn test_generate_main_tf_with_arrays() {
    let generator = CodeGenerator::new();
    let aws_provider = create_test_cloud_provider("AWS", "Amazon Web Services");

    let mut configuration = Vec::new();
    configuration.push(("cluster_name".to_string(), JsonValue::text("my-cluster")));
    configuration.push(("capacity_providers".to_string(), json(r##"["FARGATE", "FARGATE_SPOT"]"##)));

    let resource = StackResource {
        id: "00000000-0000-4000-8000-000000000000".to_string(),
        name: "ecs-cluster".to_string(),
        description: Some("ECS cluster".to_string()),
        resource_type: create_test_resource_type("ContainerOrchestrator"),
        cloud_provider: aws_provider.clone(),
        configuration,
    };

    let stack = Stack {
        id: "00000000-0000-4000-8000-000000000000".to_string(),
        name: "test-stack".to_string(),
        description: Some("Test stack".to_string()),
        cloud_name: "aws-test".to_string(),
        stack_type: "infrastructure".to_string(),
        stack_resources: vec![resource],
        blueprint: None,
    };

    let result = generator.generate_main_tf_from_stack(&stack);

    println!("\n=== Generated main.tf (Arrays) ===\n{}\n=== End ===\n", result);

    // Verify array handling
    assert!(result.contains("capacity_providers  = ["));
    assert!(result.contains("\"FARGATE\""));
    assert!(result.contains("\"FARGATE_SPOT\""));
}

#[test]
fn test_generate_main_tf_with_unmapped_resource() {
    let generator = CodeGenerator::new();
    let aws_provider = create_test_cloud_provider("AWS", "Amazon Web Services");

    let mut configuration = Vec::new();
    configuration.push(("some_property".to_string(), JsonValue::text("value")));

    let resource = StackResource {
        id: "00000000-0000-4000-8000-000000000000".to_string(),
        name: "unknown-resource".to_string(),
        description: Some("Unknown resource type".to_string()),
        resource_type: create_test_resource_type("UnknownResourceType"),
        cloud_provider: aws_provider.clone(),
        configuration,
    };

    let stack = Stack {
        id: "00000000-0000-4000-8000-000000000000".to_string(),
        name: "test-stack".to_string(),
        description: Some("Test stack".to_string()),
        cloud_name: "aws-test".to_string(),
        stack_type: "infrastructure".to_string(),
        stack_resources: vec![resource],
        blueprint: None,
    };

    let result = generator.generate_main_tf_from_stack(&stack);

    println!("\n=== Generated main.tf (Unmapped Resource) ===\n{}\n=== End ===\n", result);

    // Verify comment for unmapped resource
    assert!(result.contains("# Resource 'unknown-resource' of type 'UnknownResourceType' for provider 'AWS' has no mapping"));
}

// Tests for outputs.tf generation

#[test]
fn test_generate_outputs_tf_from_blueprint() {
    let generator = CodeGenerator::new();
    let aws_provider = create_test_cloud_provider("AWS", "Amazon Web Services");

    let blueprint = Blueprint {
        id: "00000000-0000-4000-8000-000000000000".to_string(),
        name: "test-blueprint".to_string(),
        description: Some("Test blueprint".to_string()),
        resources: vec![create_test_blueprint_resource("postgres-db", aws_provider.clone())],
        supported_cloud_providers: vec![aws_provider],
    };

    let result = generator.generate_outputs_tf_from_blueprint(&blueprint);

    println!("\n=== Generated outputs.tf (Blueprint) ===\n{}\n=== End ===\n", result);

    // Verify ID output
    assert!(result.contains("output \"postgres_db_id\" {"));
    assert!(result.contains("description = \"ID of postgres-db\""));
    assert!(result.contains("value       = aws_db_instance.postgres_db.id"));

    // Verify ARN output for AWS resources
    assert!(result.contains("output \"postgres_db_arn\" {"));
    assert!(result.contains("description = \"ARN of postgres-db\""));
    assert!(result.contains("value       = aws_db_instance.postgres_db.arn"));
}

#[test]
fn test_generate_outputs_tf_from_stack() {
    let generator = CodeGenerator::new();
    let aws_provider = create_test_cloud_provider("AWS", "Amazon Web Services");

    let stack = Stack {
        id: "00000000-0000-4000-8000-000000000000".to_string(),
        name: "test-stack".to_string(),
        description: Some("Test stack".to_string()),
        cloud_name: "aws-test".to_string(),
        stack_type: "infrastructure".to_string(),
        stack_resources: vec![create_test_stack_resource("app-db", aws_provider)],
        blueprint: None,
    };

    let result = generator.generate_outputs_tf_from_stack(&stack);

    println!("\n=== Generated outputs.tf (Stack) ===\n{}\n=== End ===\n", result);

    // Verify ID output
    assert!(result.contains("output \"app_db_id\" {"));
    assert!(result.contains("description = \"ID of app-db\""));
    assert!(result.contains("value       = aws_db_instance.app_db.id"));

    // Verify ARN output
    assert!(result.contains("output \"app_db_arn\" {"));
    assert!(result.contains("description = \"ARN of app-db\""));
    assert!(result.contains("value       = aws_db_instance.app_db.arn"));
}

#[test]
fn test_generate_outputs_tf_no_arn_for_non_aws() {
    let generator = CodeGenerator::new();
    let azure_provider = create_test_cloud_provider("Azure", "Microsoft Azure");

    let mut cloud_specific_properties = Vec::new();
    cloud_specific_properties.push(("server_name".to_string(), JsonValue::text("my-server")));

    let azure_resource = BlueprintResource {
        id: "00000000-0000-4000-8000-000000000000".to_string(),
        name: "sql-server".to_string(),
        description: Some("Azure SQL Server".to_string()),
        resource_type: create_test_resource_type("RelationalDatabaseServer"),
        cloud_provider: azure_provider.clone(),
        configuration: json(r##"{}"##),
        cloud_specific_properties,
    };

    let blueprint = Blueprint {
        id: "00000000-0000-4000-8000-000000000000".to_string(),
        name: "azure-blueprint".to_string(),
        description: Some("Azure blueprint".to_string()),
        resources: vec![azure_resource],
        supported_cloud_providers: vec![azure_provider],
    };

    let result = generator.generate_outputs_tf_from_blueprint(&blueprint);

    println!("\n=== Generated outputs.tf (Azure - No ARN) ===\n{}\n=== End ===\n", result);

    // Verify ID output exists
    assert!(result.contains("output \"sql_server_id\" {"));

    // Verify ARN output does NOT exist for Azure
    assert!(!result.contains("output \"sql_server_arn\" {"));
}

// Integration test for complete code generation

#[test]
fn test_generate_from_blueprint_complete() {
    let generator = CodeGenerator::new();
    let aws_provider = create_test_cloud_provider("AWS", "Amazon Web Services");

    let blueprint = Blueprint {
        id: "00000000-0000-4000-8000-000000000000".to_string(),
        name: "complete-blueprint".to_string(),
        description: Some("Complete test blueprint".to_string()),
        resources: vec![create_test_blueprint_resource("test-db", aws_provider.clone())],
        supported_cloud_providers: vec![aws_provider],
    };

    let generated = generator.generate_from_blueprint(&blueprint);

    println!("\n=== Complete Generated Code (Blueprint) ===");
    println!("\n--- main.tf ---\n{}", generated.main_tf);
    println!("\n--- variables.tf ---\n{}", generated.variables_tf);
    println!("\n--- providers.tf ---\n{}", generated.providers_tf);
    println!("\n--- outputs.tf ---\n{}", generated.outputs_tf);
    println!("\n=== End ===\n");

    // Verify all files are generated
    assert!(!generated.main_tf.is_empty());
    assert!(!generated.variables_tf.is_empty());
    assert!(!generated.providers_tf.is_empty());
    assert!(!generated.outputs_tf.is_empty());

    // Verify main.tf contains resource
    assert!(generated.main_tf.contains("resource \"aws_db_instance\""));

    // Verify variables.tf contains variables
    assert!(generated.variables_tf.contains("variable \"aws_region\""));
    assert!(generated.variables_tf.contains("variable \"test_db_identifier\""));

    // Verify providers.tf contains provider
    assert!(generated.providers_tf.contains("provider \"aws\""));

    // Verify outputs.tf contains outputs
    assert!(generated.outputs_tf.contains("output \"test_db_id\""));
}

#[test]
fn test_generate_from_stack_complete() {
    let generator = CodeGenerator::new();
    let aws_provider = create_test_cloud_provider("AWS", "Amazon Web Services");

    let stack = Stack {
        id: "00000000-0000-4000-8000-000000000000".to_string(),
        name: "complete-stack".to_string(),
        description: Some("Complete test stack".to_string()),
        cloud_name: "aws-prod".to_string(),
        stack_type: "infrastructure".to_string(),
        stack_resources: vec![create_test_stack_resource("prod-db", aws_provider)],
        blueprint: None,
    };

    let generated = generator.generate_from_stack(&stack);

    println!("\n=== Complete Generated Code (Stack) ===");
    println!("\n--- main.tf ---\n{}", generated.main_tf);
    println!("\n--- variables.tf ---\n{}", generated.variables_tf);
    println!("\n--- providers.tf ---\n{}", generated.providers_tf);
    println!("\n--- outputs.tf ---\n{}", generated.outputs_tf);
    println!("\n=== End ===\n");

    // Verify all files are generated
    assert!(!generated.main_tf.is_empty());
    assert!(!generated.variables_tf.is_empty());
    assert!(!generated.providers_tf.is_empty());
    assert!(!generated.outputs_tf.is_empty());

    // Verify main.tf contains resource with stack tag
    assert!(generated.main_tf.contains("resource \"aws_db_instance\""));
    assert!(generated.main_tf.contains("Stack     = \"complete-stack\""));

    // Verify variables.tf contains variables
    assert!(generated.variables_tf.contains("variable \"aws_region\""));
    assert!(generated.variables_tf.contains("variable \"prod_db_identifier\""));

    // Verify providers.tf contains provider
    assert!(generated.providers_tf.contains("provider \"aws\""));

    // Verify outputs.tf contains outputs
    assert!(generated.outputs_tf.contains("output \"prod_db_id\""));
}

#[test]
fn test_normalize_provider_name_unknown_is_lowercased() {
    let generator = CodeGenerator::new();
    assert_eq!(generator.normalize_provider_name("DigitalOcean"), "digitalocean");
    assert_eq!(CodeGenerator::provider_name("AWS", "whatever"), "aws");
    assert_eq!(CodeGenerator::provider_name("aws", "aws"), "aws");
    assert_eq!(CodeGenerator::provider_name("OTHER", "other"), "other");
}

#[test]
fn test_get_provider_source_and_version_unknown() {
    let generator = CodeGenerator::new();
    assert_eq!(
        generator.get_provider_source_and_version("oracle"),
        ("hashicorp/unknown", "~> 1.0")
    );
    assert_eq!(
        generator.get_provider_source_and_version("gcp"),
        ("hashicorp/google", "~> 5.0")
    );
    assert_eq!(CodeGenerator::provider_source("aws"), ("hashicorp/unknown", "~> 1.0"));
}

#[test]
fn test_sanitize_lowercase_keeps_other_characters() {
    assert_eq!(CodeGenerator::sanitize_lowercase("a-b c.d_e/f"), "a_b_c_d_e/f");
    assert_eq!(CodeGenerator::sanitize_lowercase(""), "");
    assert_eq!(CodeGenerator::sanitize_lowercase("Keep"), "Keep");
}

#[test]
fn test_resource_mapper_known_resource_types() {
    let mapper = ResourceMapper::new();
    let database = mapper
        .get_terraform_resource_type("RelationalDatabaseServer", "AWS")
        .unwrap();
    assert_eq!(database.provider, "aws");
    assert_eq!(database.resource_type, "aws_db_instance");
    assert_eq!(database.attribute_mappings.len(), 12);
    assert_eq!(
        database.attribute_mappings[0],
        ("engine".to_string(), "engine".to_string())
    );

    let cluster = mapper
        .get_terraform_resource_type("ContainerOrchestrator", "GCP")
        .unwrap();
    assert_eq!(cluster.provider, "google");
    assert_eq!(cluster.resource_type, "google_container_cluster");
    assert!(cluster
        .attribute_mappings
        .contains(&("machine_type".to_string(), "node_config.machine_type".to_string())));

    let storage = mapper.get_terraform_resource_type("Storage", "AWS").unwrap();
    assert_eq!(storage.resource_type, "aws_s3_bucket");
    assert!(storage.attribute_mappings.contains(&(
        "encryption".to_string(),
        "server_side_encryption_configuration".to_string()
    )));
}

#[test]
fn test_resource_mapper_unknown_resource_types() {
    let mapper = ResourceMapper::new();
    assert!(mapper.get_terraform_resource_type("Storage", "Azure").is_none());
    assert!(mapper.get_terraform_resource_type("Storage", "aws").is_none());
    assert!(mapper.get_terraform_resource_type("", "").is_none());
    assert!(mapper
        .get_terraform_resource_type("RelationalDatabaseServer", "AZURE")
        .is_none());
    assert_eq!(
        mapper
            .get_terraform_resource_type("RelationalDatabaseServer", "Azure")
            .unwrap()
            .resource_type,
        "azurerm_mssql_server"
    );
}
