use idp_cli::api_client::{
    authorization, build_blueprint_url, build_stack_url, build_url, parse_failure, response_error,
};
use idp_cli::cli::DataSource;
use idp_cli::engine::read_json;
use idp_cli::error::CliError;
use idp_cli::lambda_handler::{
    failure, generated, listed, merge_request_variables, output_prefix, parse_data_source,
    status_code,
};
use idp_cli::listing::display_variables;
use idp_cli::report::{
    extract_root_key, format_value_sample, get_next_steps_guidance, get_value_type,
};
use idp_cli::s3_client::{download_name, missing_outputs_bucket, upload_key, Backoff};
use idp_cli::value::JsonValue;
use idp_cli::variable_context::VariableContext;

fn json(text: &str) -> JsonValue {
    read_json(text).unwrap()
}

#[test]
fn test_urls() {
    let id = "550e8400-e29b-41d4-a716-446655440000";
    assert_eq!(build_blueprint_url("b", ""), "b/blueprints?name=");
    assert_eq!(
        build_blueprint_url("http://api/v1", id),
        format!("http://api/v1/blueprints/{}", id)
    );
    assert_eq!(
        build_blueprint_url("http://api/v1", "web-app"),
        "http://api/v1/blueprints?name=web-app"
    );
    assert_eq!(build_stack_url("http://api/v1", id), format!("http://api/v1/stacks/{}", id));
    assert_eq!(build_stack_url("http://api/v1", "prod"), "http://api/v1/stacks?name=prod");
    assert_eq!(build_url("b", "c", "i", true), "b/c/i");
    assert_eq!(build_url("b", "c", "i", false), "b/c?name=i");
    assert_eq!(authorization("secret"), "Bearer secret");
}

#[test]
fn test_response_errors() {
    assert_eq!(response_error(200, "200 OK", None, "x"), None);
    assert_eq!(
        response_error(401, "401 Unauthorized", Some("body"), "x"),
        Some(CliError::AuthenticationError("Invalid or missing API key".to_string()))
    );
    assert_eq!(
        response_error(404, "404 Not Found", None, "web-app"),
        Some(CliError::NotFoundError("web-app".to_string()))
    );
    assert_eq!(
        response_error(500, "500 Internal Server Error", Some("boom"), "x"),
        Some(CliError::ApiError("Server error (500): boom".to_string()))
    );
    assert_eq!(
        response_error(500, "500 Internal Server Error", None, "x"),
        Some(CliError::ApiError("Server error (500): Unknown server error".to_string()))
    );
    assert_eq!(
        response_error(403, "403 Forbidden", Some("no"), "x"),
        Some(CliError::ApiError("Unexpected status code 403 Forbidden: no".to_string()))
    );
    assert_eq!(
        response_error(201, "201 Created", None, "x"),
        Some(CliError::ApiError("Unexpected status code 201 Created: Unknown error".to_string()))
    );
    assert_eq!(
        parse_failure("missing field"),
        CliError::ApiError("Failed to parse response: missing field".to_string())
    );
}

#[test]
fn test_object_keys() {
    assert_eq!(upload_key("", "main.tf"), "main.tf");
    assert_eq!(upload_key("outputs/stack/x", "main.tf"), "outputs/stack/x/main.tf");
    assert_eq!(upload_key("outputs///", "main.tf"), "outputs/main.tf");
    assert_eq!(upload_key("/", "main.tf"), "/main.tf");
    assert_eq!(download_name("templates/k8s/a.yaml", "templates/"), Some("k8s/a.yaml".to_string()));
    assert_eq!(download_name("templates/k8s/", "templates/"), None);
    assert_eq!(download_name("other/a.yaml", "templates/"), Some("other/a.yaml".to_string()));
    assert_eq!(download_name("a.yaml", ""), Some("a.yaml".to_string()));
    assert_eq!(download_name("", ""), Some("".to_string()));
    assert_eq!(
        missing_outputs_bucket(),
        CliError::ConfigError("Outputs bucket not configured".to_string())
    );
}

#[test]
fn test_backoff_doubles_and_gives_up() {
    let mut backoff = Backoff::new();
    assert_eq!(backoff.after_failure(3), Some(100));
    assert_eq!(backoff.after_failure(3), Some(200));
    assert_eq!(backoff.after_failure(3), Some(400));
    assert_eq!(backoff.after_failure(3), None);
    assert_eq!(backoff, Backoff { retries: 3, delay_ms: 800 });
    assert_eq!(Backoff::new().after_failure(0), None);
    let mut late = Backoff { retries: 0, delay_ms: u64::MAX - 1 };
    assert_eq!(late.after_failure(2), Some(u64::MAX - 1));
    assert_eq!(late.after_failure(2), Some(u64::MAX));
}

#[test]
fn test_data_source_and_answers() {
    assert_eq!(parse_data_source("Blueprint"), Ok(DataSource::Blueprint));
    assert_eq!(parse_data_source("STACK"), Ok(DataSource::Stack));
    let refused = parse_data_source("cluster").unwrap_err();
    assert!(!refused.success);
    assert_eq!(refused.message, "Invalid data source");
    assert_eq!(
        refused.error,
        Some("Data source must be 'blueprint' or 'stack', got: cluster".to_string())
    );
    assert_eq!(status_code(&refused), 500);
    assert_eq!(output_prefix(DataSource::Stack, "prod"), "outputs/stack/prod");
    assert_eq!(output_prefix(DataSource::Blueprint, "web"), "outputs/blueprint/web");
    let done = generated(vec!["a".to_string(), "b".to_string()], Some(vec!["k".to_string()]));
    assert!(done.success);
    assert_eq!(done.message, "Successfully generated 2 files");
    assert_eq!(done.files, Some(vec!["a".to_string(), "b".to_string()]));
    assert_eq!(done.s3_keys, Some(vec!["k".to_string()]));
    assert_eq!(status_code(&done), 200);
    let failed = failure("m".to_string(), "e".to_string());
    assert_eq!(failed.error, Some("e".to_string()));
    assert_eq!(failed.files, None);
}

#[test]
fn test_listing_and_request_variables() {
    let mut context = VariableContext::new();
    context.insert("b".to_string(), JsonValue::number("2"));
    context.insert("a".to_string(), json(r#"{"x": 1}"#));
    let answer = listed(&context);
    assert!(answer.success);
    assert_eq!(answer.message, "Retrieved 2 variables");
    assert_eq!(answer.variables, Some(json(r#"[["a", {"x": 1}], ["b", 2]]"#)));

    merge_request_variables(&mut context, &json(r#"{"b": {"deep": true}, "c": [1]}"#));
    // members are put as they are: nothing inside them gets a path of its own
    assert_eq!(context.paths(), vec!["a", "b", "c"]);
    assert_eq!(context.get("b"), Some(&json(r#"{"deep": true}"#)));
    merge_request_variables(&mut context, &json("[1, 2]"));
    assert_eq!(context.paths(), vec!["a", "b", "c"]);
}

#[test]
fn test_report_values() {
    assert_eq!(extract_root_key("blueprint.name"), "blueprint");
    // the first dot ends the root, wherever a bracket stands
    assert_eq!(extract_root_key("resources[0].name"), "resources[0]");
    assert_eq!(extract_root_key("resources[0]"), "resources");
    assert_eq!(extract_root_key("a[0.b"), "a[0");
    assert_eq!(extract_root_key("plain"), "plain");
    assert_eq!(extract_root_key(""), "");
    assert_eq!(get_value_type(&JsonValue::Null), "null");
    assert_eq!(get_value_type(&JsonValue::Bool(true)), "boolean");
    assert_eq!(get_value_type(&JsonValue::number("1")), "number");
    assert_eq!(get_value_type(&JsonValue::text("")), "string");
    assert_eq!(get_value_type(&json("[]")), "array");
    assert_eq!(get_value_type(&json("{}")), "object");
    assert_eq!(format_value_sample(&JsonValue::Null), "null");
    assert_eq!(format_value_sample(&JsonValue::Bool(false)), "false");
    assert_eq!(format_value_sample(&JsonValue::number("2.5")), "2.5");
    assert_eq!(format_value_sample(&JsonValue::text("short")), "\"short\"");
    let fifty = "x".repeat(50);
    assert_eq!(format_value_sample(&JsonValue::text(&fifty)), format!("\"{}\"", fifty));
    let longer = "y".repeat(51);
    assert_eq!(
        format_value_sample(&JsonValue::text(&longer)),
        format!("\"{}...\"", "y".repeat(47))
    );
    assert_eq!(format_value_sample(&json("[1, 2, 3]")), "[3 element(s)]");
    assert_eq!(format_value_sample(&json(r#"{"a": 1}"#)), "{ 1 property }");
    assert_eq!(format_value_sample(&json(r#"{"a": 1, "b": 2}"#)), "{ 2 properties }");
    assert_eq!(format_value_sample(&json("{}")), "{ 0 properties }");
}

#[test]
fn test_next_steps_guidance() {
    let general = "\n\nGeneral tips:\n  - Use version control (git) to track changes to generated files\n  - Review all generated files before applying to production\n  - Use the 'list-variables' command to see available template variables\n  - Regenerate files by running the same command with updated templates in ./templates";
    assert_eq!(
        get_next_steps_guidance(&Vec::new(), "./templates"),
        format!("Next steps:{}", general)
    );
    let json_only = get_next_steps_guidance(&vec!["out/config.json".to_string()], "./templates");
    assert_eq!(
        json_only,
        format!(
            "Next steps:\n\nFor JSON configuration files:\n  1. Review the generated files to ensure they match your requirements\n  2. Validate the JSON syntax:\n     jq . out/config.json > /dev/null\n  3. Use the configuration files with your infrastructure tools{}",
            general
        )
    );
    let mixed = get_next_steps_guidance(
        &vec!["out/main.tf".to_string(), "out/k8s/app.yml".to_string(), "out/c.json".to_string()],
        "./templates",
    );
    assert!(mixed.contains("\n     cd out\n     terraform init"));
    assert!(mixed.contains("kubectl apply --dry-run=client -f out\n"));
    assert!(!mixed.contains("jq ."));
    assert!(mixed.ends_with(general));
    let bare = get_next_steps_guidance(&vec!["main.tf".to_string()], "t");
    assert!(bare.contains("\n     cd \n"));
    let upper = get_next_steps_guidance(&vec!["out/MAIN.TF".to_string()], "./templates");
    assert_eq!(upper, format!("Next steps:{}", general));
}

#[test]
fn test_display_variables() {
    let empty = display_variables(&VariableContext::new(), DataSource::Stack);
    assert_eq!(
        empty,
        vec![
            "".to_string(),
            "Stack Variables".to_string(),
            "=".repeat(80),
            "".to_string(),
            "Available variables for use in templates:".to_string(),
            "".to_string(),
            "No variables available.".to_string(),
        ]
    );

    let mut context = VariableContext::new();
    context.insert("blueprint.name".to_string(), JsonValue::text("web"));
    context.insert("blueprint.id".to_string(), JsonValue::text("1"));
    context.insert("count".to_string(), JsonValue::number("3"));
    context.insert("resources".to_string(), json(r#"[{"name": "db"}, 1, 2, 3]"#));
    context.insert("resources[0]".to_string(), json(r#"{"name": "db"}"#));
    context.insert("resources[0].name".to_string(), JsonValue::text("db"));
    context.insert("resources[1]".to_string(), JsonValue::number("1"));
    context.insert("resources[2]".to_string(), JsonValue::number("2"));
    context.insert("resources[3]".to_string(), JsonValue::number("3"));
    context.insert("settings".to_string(), json(r#"{"b": true, "a": "x"}"#));
    context.insert("settings.a".to_string(), JsonValue::text("x"));
    context.insert("settings.b".to_string(), JsonValue::Bool(true));
    let lines = display_variables(&context, DataSource::Blueprint);
    let body: Vec<&str> = lines.iter().map(|l| l.as_str()).collect();
    assert_eq!(body[1], "Blueprint Variables");
    assert_eq!(
        &body[6..],
        &[
            "blueprint:",
            "  blueprint.id: string = \"1\"",
            "  blueprint.name: string = \"web\"",
            "",
            "count:",
            "  Type: number",
            "  Value: 3",
            "",
            "resources:",
            "  Type: array",
            "  Structure: Array with 4 element(s)",
            "    [0]: object",
            "    [1]: number",
            "    [2]: number",
            "    ... and 1 more element(s)",
            "",
            "resources[0]:",
            "  resources[0].name: string = \"db\"",
            "",
            "settings:",
            "  Type: object",
            "  Structure: Object with properties",
            "    a: string = \"x\"",
            "    b: boolean = true",
            "",
            &"=".repeat(80),
            "",
            "Usage Examples:",
            "  {{variable_name}}                    - Simple variable substitution",
            "  {{object.property}}                  - Nested property access",
            "  {{array[0].property}}                - Array element access",
            "  {{variable|default:\"value\"}}         - Default value if undefined",
            "",
            "For more information on template syntax, see the documentation.",
            "",
        ]
    );
}

#[test]
fn test_lambda_request_deserialization() {
    // Test that we can read request payloads

    let generate_json = r#"{
            "operation": "generate",
            "data_source": "blueprint",
            "identifier": "my-blueprint",
            "template_dir": "/tmp/templates",
            "variables": {"key": "value"}
        }"#;

    let result = read_json(generate_json);
    assert!(result.is_some());
    let request = result.unwrap();
    assert_eq!(request.field("operation"), Some(&JsonValue::text("generate")));
    assert_eq!(request.field("variables"), Some(&json(r#"{"key": "value"}"#)));

    let list_vars_json = r#"{
            "operation": "list-variables",
            "data_source": "stack",
            "identifier": "my-stack"
        }"#;

    let result = read_json(list_vars_json);
    assert!(result.is_some());
    assert_eq!(result.unwrap().field("template_dir"), None);
}

#[test]
fn test_lambda_feature_not_enabled() {
    // what the service decides needs no service to run
    assert_eq!(parse_data_source("Blueprint"), Ok(DataSource::Blueprint));
    assert_eq!(output_prefix(DataSource::Stack, "web"), "outputs/stack/web");
}

#[test]
fn test_s3_integration_tests_compile() {
    // the keys of stored objects need no storage
    assert_eq!(upload_key("outputs/blueprint/web", "main.tf"), "outputs/blueprint/web/main.tf");
    assert_eq!(download_name("templates/main.tf", "templates/"), Some("main.tf".to_string()));
}

#[test]
fn test_handle_list_variables_blueprint_not_found() {
    // the answer of the API for a blueprint that is not there
    let url = build_blueprint_url("http://localhost:9999/api/v1", "nonexistent-blueprint");
    assert_eq!(url, "http://localhost:9999/api/v1/blueprints?name=nonexistent-blueprint");
    let result = response_error(
        404,
        "404 Not Found",
        Some(r#"{"error": "Blueprint not found"}"#),
        "nonexistent-blueprint",
    );

    // Should fail with NotFoundError
    assert!(result.is_some());
    match result.unwrap() {
        CliError::NotFoundError(name) => {
            assert_eq!(name, "nonexistent-blueprint");
        }
        other => {
            panic!("Expected NotFoundError, got: {:?}", other);
        }
    }
}

#[test]
fn test_unknown_data_source_answer_holds_nothing_else() {
    let answer = parse_data_source("database").unwrap_err();
    assert!(!answer.success);
    assert_eq!(answer.message, "Invalid data source");
    assert_eq!(
        answer.error,
        Some("Data source must be 'blueprint' or 'stack', got: database".to_string())
    );
    assert_eq!(answer.files, None);
    assert_eq!(answer.s3_keys, None);
    assert_eq!(answer.variables, None);
    assert_eq!(status_code(&answer), 500);
}
