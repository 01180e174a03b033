//! Variable resolution and template rendering for infrastructure templates.

pub mod text;
pub mod paths;
pub mod error;
pub mod value;
pub mod models;
pub mod path;
pub mod variable_context;
pub mod flatten;
pub mod dual_index;
pub mod precedence;
pub mod plain_keys;
pub mod navigation;
pub mod nesting;
pub mod tree_laws;
pub mod leaf_laws;
pub mod builder;
pub mod builder_laws;
pub mod overrides;
pub mod template_discovery;
pub mod suggestions;
pub mod diagnostics;
pub mod helpers;
pub mod partials;
pub mod engine;
pub mod template_processor;
pub mod file_writer;
pub mod pipeline;
pub mod resource_mapper;
pub mod generator;
pub mod cli;
pub mod report;
pub mod listing;
pub mod api_client;
pub mod s3_client;
pub mod lambda_handler;
