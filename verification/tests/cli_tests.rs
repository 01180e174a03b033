use idp_cli::cli::{CliArgs, Command, DataSource, PathFacts};
use idp_cli::error::CliError;

/// Everything that the arguments name is there and is what it should be.
fn present() -> PathFacts {
    PathFacts {
        template_dir_exists: true,
        template_dir_is_dir: true,
        variables_file_exists: true,
        variables_file_is_file: true,
    }
}

#[test]
fn test_version_command_does_not_require_api_key() {
    let facts = present();
    let args = CliArgs {
        command: Command::Version,
        api_key: None,
        api_url: Some("http://localhost:8082/api/v1".to_string()),
        output_dir: Some("./output".to_string()),
    };

    assert!(args.validate(&facts).is_ok());
}

#[test]
fn test_generate_command_requires_api_key() {
    let facts = present();
    let template_dir = "/srv/templates".to_string();

    let args = CliArgs {
        command: Command::Generate {
            data_source: DataSource::Blueprint,
            identifier: "test-blueprint".to_string(),
            template_dir: template_dir.clone(),
            variables_file: None,
        },
        api_key: None,
        api_url: Some("http://localhost:8082/api/v1".to_string()),
        output_dir: Some("./output".to_string()),
    };

    let result = args.validate(&facts);
    assert!(result.is_err());
    assert!(result.unwrap_err().message().contains("API key is required"));
}

#[test]
fn test_list_variables_command_requires_api_key() {
    let facts = present();
    let args = CliArgs {
        command: Command::ListVariables {
            data_source: DataSource::Stack,
            identifier: "test-stack".to_string(),
        },
        api_key: None,
        api_url: Some("http://localhost:8082/api/v1".to_string()),
        output_dir: Some("./output".to_string()),
    };

    let result = args.validate(&facts);
    assert!(result.is_err());
    assert!(result.unwrap_err().message().contains("API key is required"));
}

#[test]
fn test_empty_api_key_is_invalid() {
    let facts = present();
    let template_dir = "/srv/templates".to_string();

    let args = CliArgs {
        command: Command::Generate {
            data_source: DataSource::Blueprint,
            identifier: "test-blueprint".to_string(),
            template_dir: template_dir.clone(),
            variables_file: None,
        },
        api_key: Some("   ".to_string()),
        api_url: Some("http://localhost:8082/api/v1".to_string()),
        output_dir: Some("./output".to_string()),
    };

    let result = args.validate(&facts);
    assert!(result.is_err());
    assert!(result.unwrap_err().message().contains("cannot be empty"));
}

#[test]
fn test_invalid_api_url_format() {
    let facts = present();
    let template_dir = "/srv/templates".to_string();

    let args = CliArgs {
        command: Command::Generate {
            data_source: DataSource::Blueprint,
            identifier: "test-blueprint".to_string(),
            template_dir: template_dir.clone(),
            variables_file: None,
        },
        api_key: Some("test-key".to_string()),
        api_url: Some("invalid-url".to_string()),
        output_dir: Some("./output".to_string()),
    };

    let result = args.validate(&facts);
    assert!(result.is_err());
    assert!(result.unwrap_err().message().contains("Invalid API URL"));
}

#[test]
fn test_valid_http_url() {
    let facts = present();
    let template_dir = "/srv/templates".to_string();

    let args = CliArgs {
        command: Command::Generate {
            data_source: DataSource::Blueprint,
            identifier: "test-blueprint".to_string(),
            template_dir: template_dir.clone(),
            variables_file: None,
        },
        api_key: Some("test-key".to_string()),
        api_url: Some("http://localhost:8082/api/v1".to_string()),
        output_dir: Some("./output".to_string()),
    };

    assert!(args.validate(&facts).is_ok());
}

#[test]
fn test_valid_https_url() {
    let facts = present();
    let template_dir = "/srv/templates".to_string();

    let args = CliArgs {
        command: Command::Generate {
            data_source: DataSource::Blueprint,
            identifier: "test-blueprint".to_string(),
            template_dir: template_dir.clone(),
            variables_file: None,
        },
        api_key: Some("test-key".to_string()),
        api_url: Some("https://api.example.com/v1".to_string()),
        output_dir: Some("./output".to_string()),
    };

    assert!(args.validate(&facts).is_ok());
}

#[test]
fn test_template_dir_must_exist() {
    let facts = PathFacts { template_dir_exists: false, template_dir_is_dir: false, ..present() };
    let args = CliArgs {
        command: Command::Generate {
            data_source: DataSource::Blueprint,
            identifier: "test-blueprint".to_string(),
            template_dir: "/nonexistent/path".to_string(),
            variables_file: None,
        },
        api_key: Some("test-key".to_string()),
        api_url: Some("http://localhost:8082/api/v1".to_string()),
        output_dir: Some("./output".to_string()),
    };

    let result = args.validate(&facts);
    assert!(result.is_err());
    assert!(result.unwrap_err().message().contains("Template directory does not exist"));
}

#[test]
fn test_template_dir_must_be_directory() {
    let facts = PathFacts { template_dir_is_dir: false, ..present() };
    let template_file = "/srv/templates.txt".to_string();

    let args = CliArgs {
        command: Command::Generate {
            data_source: DataSource::Blueprint,
            identifier: "test-blueprint".to_string(),
            template_dir: template_file.clone(),
            variables_file: None,
        },
        api_key: Some("test-key".to_string()),
        api_url: Some("http://localhost:8082/api/v1".to_string()),
        output_dir: Some("./output".to_string()),
    };

    let result = args.validate(&facts);
    assert!(result.is_err());
    assert!(result.unwrap_err().message().contains("not a directory"));
}

#[test]
fn test_variables_file_must_exist_if_provided() {
    let facts = PathFacts { variables_file_exists: false, variables_file_is_file: false, ..present() };
    let template_dir = "/srv/templates".to_string();

    let args = CliArgs {
        command: Command::Generate {
            data_source: DataSource::Blueprint,
            identifier: "test-blueprint".to_string(),
            template_dir: template_dir.clone(),
            variables_file: Some("/nonexistent/vars.yaml".to_string()),
        },
        api_key: Some("test-key".to_string()),
        api_url: Some("http://localhost:8082/api/v1".to_string()),
        output_dir: Some("./output".to_string()),
    };

    let result = args.validate(&facts);
    assert!(result.is_err());
    assert!(result.unwrap_err().message().contains("Variables file does not exist"));
}

#[test]
fn test_get_api_key_returns_key() {
    let args = CliArgs {
        command: Command::ListVariables {
            data_source: DataSource::Blueprint,
            identifier: "test-blueprint".to_string(),
        },
        api_key: Some("my-api-key".to_string()),
        api_url: Some("http://localhost:8082/api/v1".to_string()),
        output_dir: Some("./output".to_string()),
    };

    assert_eq!(args.get_api_key().unwrap(), "my-api-key");
}

#[test]
fn test_get_api_key_returns_error_when_missing() {
    let args = CliArgs {
        command: Command::Version,
        api_key: None,
        api_url: Some("http://localhost:8082/api/v1".to_string()),
        output_dir: Some("./output".to_string()),
    };

    assert!(args.get_api_key().is_err());
}

#[test]
fn test_get_api_url_returns_provided_url() {
    let args = CliArgs {
        command: Command::ListVariables {
            data_source: DataSource::Blueprint,
            identifier: "test-blueprint".to_string(),
        },
        api_key: Some("test-key".to_string()),
        api_url: Some("https://api.example.com/v1".to_string()),
        output_dir: Some("./output".to_string()),
    };

    assert_eq!(args.get_api_url(), "https://api.example.com/v1");
}

#[test]
fn test_get_api_url_returns_default() {
    let args = CliArgs {
        command: Command::ListVariables {
            data_source: DataSource::Blueprint,
            identifier: "test-blueprint".to_string(),
        },
        api_key: Some("test-key".to_string()),
        api_url: None,
        output_dir: Some("./output".to_string()),
    };

    assert_eq!(args.get_api_url(), "http://localhost:8082/api/v1");
}

#[test]
fn test_get_output_dir_returns_provided_path() {
    let args = CliArgs {
        command: Command::ListVariables {
            data_source: DataSource::Blueprint,
            identifier: "test-blueprint".to_string(),
        },
        api_key: Some("test-key".to_string()),
        api_url: Some("http://localhost:8082/api/v1".to_string()),
        output_dir: Some("/custom/path".to_string()),
    };

    assert_eq!(args.get_output_dir(), "/custom/path".to_string());
}

#[test]
fn test_get_output_dir_returns_default() {
    let args = CliArgs {
        command: Command::ListVariables {
            data_source: DataSource::Blueprint,
            identifier: "test-blueprint".to_string(),
        },
        api_key: Some("test-key".to_string()),
        api_url: Some("http://localhost:8082/api/v1".to_string()),
        output_dir: None,
    };

    assert_eq!(args.get_output_dir(), "./output".to_string());
}

#[test]
fn test_data_source_blueprint_variant() {
    let template_dir = "/srv/templates".to_string();

    let args = CliArgs {
        command: Command::Generate {
            data_source: DataSource::Blueprint,
            identifier: "my-blueprint".to_string(),
            template_dir: template_dir.clone(),
            variables_file: None,
        },
        api_key: Some("test-key".to_string()),
        api_url: Some("http://localhost:8082/api/v1".to_string()),
        output_dir: Some("./output".to_string()),
    };

    if let Command::Generate { data_source, identifier, .. } = &args.command {
        assert!(matches!(data_source, DataSource::Blueprint));
        assert_eq!(identifier, "my-blueprint");
    } else {
        panic!("Expected Generate command");
    }
}

#[test]
fn test_data_source_stack_variant() {
    let args = CliArgs {
        command: Command::ListVariables {
            data_source: DataSource::Stack,
            identifier: "my-stack".to_string(),
        },
        api_key: Some("test-key".to_string()),
        api_url: Some("http://localhost:8082/api/v1".to_string()),
        output_dir: Some("./output".to_string()),
    };

    if let Command::ListVariables { data_source, identifier } = &args.command {
        assert!(matches!(data_source, DataSource::Stack));
        assert_eq!(identifier, "my-stack");
    } else {
        panic!("Expected ListVariables command");
    }
}

#[test]
fn test_variables_file_must_be_file() {
    let facts = PathFacts { variables_file_is_file: false, ..present() };
    let args = CliArgs {
        command: Command::Generate {
            data_source: DataSource::Stack,
            identifier: "test-stack".to_string(),
            template_dir: "/tmp/templates".to_string(),
            variables_file: Some("/tmp/vars".to_string()),
        },
        api_key: Some("test-key".to_string()),
        api_url: None,
        output_dir: None,
    };
    assert_eq!(
        args.validate(&facts),
        Err(CliError::ConfigurationError(
            "Variables path is not a file: /tmp/vars".to_string()
        ))
    );
}

#[test]
fn test_first_broken_rule_is_reported() {
    let facts = PathFacts { template_dir_exists: false, ..present() };
    let args = CliArgs {
        command: Command::Generate {
            data_source: DataSource::Blueprint,
            identifier: "b".to_string(),
            template_dir: "/missing".to_string(),
            variables_file: None,
        },
        api_key: Some("key".to_string()),
        api_url: Some("ftp://example.com".to_string()),
        output_dir: None,
    };
    assert_eq!(
        args.validate(&facts),
        Err(CliError::ConfigurationError(
            "Invalid API URL 'ftp://example.com'. URL must start with http:// or https://"
                .to_string()
        ))
    );
}

#[test]
fn test_parse_and_validate_hands_valid_arguments_back() {
    let args = CliArgs {
        command: Command::Version,
        api_key: None,
        api_url: None,
        output_dir: None,
    };
    let valid = CliArgs::parse_and_validate(args, &present()).unwrap();
    assert_eq!(valid.command, Command::Version);
    let args = CliArgs {
        command: Command::ListVariables {
            data_source: DataSource::Stack,
            identifier: "s".to_string(),
        },
        api_key: None,
        api_url: None,
        output_dir: None,
    };
    assert_eq!(
        CliArgs::parse_and_validate(args, &present()),
        Err(CliError::ConfigurationError(
            "API key is required. Provide it via --api-key flag or IDP_API_KEY environment variable."
                .to_string()
        ))
    );
}
