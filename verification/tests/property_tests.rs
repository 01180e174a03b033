use idp_cli::file_writer::{FileWriter, StepOutcome, WriteJob, WriteStep};
use idp_cli::pipeline::{generate_files, GenerateError};
use idp_cli::template_discovery::{TemplateDiscovery, TemplateFile, TemplateFileType, WalkEvent};
use idp_cli::template_processor::TemplateProcessor;
use idp_cli::value::JsonValue;
use idp_cli::variable_context::VariableContext;
use std::cell::RefCell;
use std::collections::BTreeMap;
use std::time::{Duration, Instant};

/// Numbers that look drawn by chance and are the same in every run.
struct Draw(u64);

impl Draw {
    fn next(&mut self) -> u64 {
        self.0 ^= self.0 << 13;
        self.0 ^= self.0 >> 7;
        self.0 ^= self.0 << 17;
        self.0
    }

    fn below(&mut self, bound: usize) -> usize {
        (self.next() % bound as u64) as usize
    }

    fn text(&mut self, first: &str, rest: &str, longest: usize) -> String {
        let first: Vec<char> = first.chars().collect();
        let rest: Vec<char> = rest.chars().collect();
        let mut text = String::new();
        text.push(first[self.below(first.len())]);
        for _ in 0..self.below(longest) {
            text.push(rest[self.below(rest.len())]);
        }
        text
    }
}

const LOWER: &str = "abcdefghijklmnopqrstuvwxyz";
const NAME_REST: &str = "abcdefghijklmnopqrstuvwxyz0123456789_";
const VALUE: &str = "abcdefghijklmnopqrstuvwxyzABCDEFGHIJKLMNOPQRSTUVWXYZ0123456789_";

/// A store of one to ten variables that hold a text, a number from 1 to
/// 100, or a truth value.
fn some_context(draw: &mut Draw) -> VariableContext {
    let mut context = VariableContext::new();
    for _ in 0..1 + draw.below(10) {
        let key = format!("v_{}", draw.text(LOWER, NAME_REST, 18));
        let value = match draw.below(3) {
            0 => JsonValue::text(&draw.text(VALUE, VALUE, 30)),
            1 => JsonValue::number(&(1 + draw.below(100)).to_string()),
            _ => JsonValue::Bool(draw.below(2) == 0),
        };
        context.insert(key, value);
    }
    context
}

const KINDS: [(TemplateFileType, &str); 3] = [
    (TemplateFileType::Terraform, "tf"),
    (TemplateFileType::Yaml, "yaml"),
    (TemplateFileType::Json, "json"),
];

const CONTENTS: [&str; 5] = [
    // Simple variable substitution
    "resource \"aws_instance\" \"{{name}}\" { ami = \"{{ami}}\" }",
    // Nested variable access
    "name: {{resource.name}}\ntype: {{resource.type}}",
    // Array indexing
    "first: {{items.0.name}}\nsecond: {{items.1.name}}",
    // Conditional logic
    "{{#if enabled}}enabled: true{{else}}enabled: false{{/if}}",
    // Loop iteration
    "{{#each resources}}resource: {{name}}\n{{/each}}",
];

/// Template files and written files in memory.
struct Files {
    templates: BTreeMap<String, String>,
    written: RefCell<BTreeMap<String, String>>,
}

impl Files {
    fn new() -> Files {
        Files { templates: BTreeMap::new(), written: RefCell::new(BTreeMap::new()) }
    }

    fn add(&mut self, relative: &str, content: String) {
        self.templates.insert(format!("/templates/{}", relative), content);
    }

    fn walk(&self) -> Vec<WalkEvent> {
        let mut events =
            vec![WalkEvent::Entry { path: "/templates".to_string(), is_file: false }];
        let mut directory = String::new();
        for path in self.templates.keys() {
            let parent = &path[..path.rfind('/').unwrap()];
            if parent != "/templates" && parent != directory {
                directory = parent.to_string();
                events.push(WalkEvent::Entry { path: directory.clone(), is_file: false });
            }
            events.push(WalkEvent::Entry { path: path.clone(), is_file: true });
        }
        events
    }

    fn discover(&self) -> Vec<TemplateFile> {
        TemplateDiscovery::new("/templates".to_string())
            .discover_templates(true, true, &self.walk())
            .unwrap()
    }

    fn read(&self, file: &TemplateFile) -> Result<String, String> {
        self.templates.get(&file.path).cloned().ok_or_else(|| "not found".to_string())
    }

    fn perform(&self, job: &WriteJob, step: WriteStep) -> StepOutcome {
        match step {
            WriteStep::CheckTarget => {
                StepOutcome::Exists(self.written.borrow().contains_key(&job.target))
            }
            WriteStep::WriteTemporary => {
                self.written.borrow_mut().insert(job.temporary.clone(), job.content.clone());
                StepOutcome::Done
            }
            WriteStep::Rename => {
                let content = self.written.borrow_mut().remove(&job.temporary).unwrap();
                self.written.borrow_mut().insert(job.target.clone(), content);
                StepOutcome::Done
            }
            WriteStep::RemoveTemporary => {
                self.written.borrow_mut().remove(&job.temporary);
                StepOutcome::Done
            }
            WriteStep::EnsureDirectory | WriteStep::RestrictPermissions => StepOutcome::Done,
        }
    }

    fn generate(&self, context: &VariableContext) -> Result<Vec<String>, GenerateError> {
        let discovery = TemplateDiscovery::new("/templates".to_string());
        let processor = TemplateProcessor::new(context);
        let writer = FileWriter::new("/output".to_string());
        generate_files(
            &discovery,
            true,
            true,
            &self.walk(),
            &processor,
            |file: &TemplateFile| self.read(file),
            &writer,
            |job: &WriteJob, step: WriteStep| self.perform(job, step),
            &mut Vec::new(),
        )
    }
}

#[test]
fn test_property_tests_compile() {
    let mut draw = Draw(0x9E3779B97F4A7C15);
    let context = some_context(&mut draw);
    assert!(!context.is_empty());
    assert!(context.len() <= 10);
}

#[test]
fn cli_processing_completes_within_timeout() {
    for (template_count, template_lines, variable_count) in [(1, 10, 5), (7, 120, 23), (20, 500, 50)] {
        let start = Instant::now();

        let mut context = VariableContext::new();
        for i in 0..variable_count {
            context.insert(format!("var_{}", i), JsonValue::text(&format!("value_{}", i)));
        }
        let mut files = Files::new();
        for i in 0..template_count {
            let mut content = String::new();
            for line_num in 0..template_lines {
                content.push_str(&format!(
                    "# Line {} - Variable: {{{{var_{}}}}}\n",
                    line_num,
                    line_num % variable_count
                ));
            }
            files.add(&format!("template_{}.tf", i), content);
        }

        let result = files.generate(&context);
        let duration = start.elapsed();

        assert!(result.is_ok(), "CLI processing failed: {:?}", result.err());
        assert_eq!(result.unwrap().len(), template_count);
        assert!(
            duration < Duration::from_secs(60),
            "CLI processing took {:?}, which exceeds the 60-second timeout",
            duration
        );
        let written = files.written.borrow();
        let first = written.get("/output/template_0.tf").unwrap();
        assert!(first.starts_with("# Line 0 - Variable: value_0\n# Line 1 - Variable: value_1\n"));
        assert_eq!(first.lines().count(), template_lines);
    }
}

#[test]
fn cli_processing_time_scales_reasonably() {
    let start = Instant::now();
    let mut context = VariableContext::new();
    for i in 0..50 {
        context.insert(format!("var_{}", i), JsonValue::text(&format!("value_{}", i)));
    }
    let mut files = Files::new();
    for i in 0..20 {
        let mut content = String::new();
        for line_num in 0..500 {
            content.push_str(&format!("# Line {} - Variable: {{{{var_{}}}}}\n", line_num, line_num % 50));
        }
        files.add(&format!("template_{}.tf", i), content);
    }
    let result = files.generate(&context);
    let duration = start.elapsed();

    assert!(result.is_ok(), "CLI processing failed: {:?}", result.err());
    assert!(
        duration < Duration::from_secs(30),
        "CLI processing time {:?} is too slow. Should complete well under 60-second timeout.",
        duration
    );
}

#[test]
fn cli_supports_all_template_types() {
    let mut draw = Draw(0x2545F4914F6CDD1D);
    for (template_type, extension) in KINDS {
        for template_content in CONTENTS {
            let context = some_context(&mut draw);
            let mut files = Files::new();
            files.add(&format!("template.{}", extension), format!("{}\n", template_content));

            let template_files = files.discover();
            assert!(
                !template_files.is_empty(),
                "Template discovery failed for {:?} file type",
                template_type
            );
            assert_eq!(template_files[0].file_type, template_type);

            let written_files = files.generate(&context);
            assert!(written_files.is_ok(), "Failed to generate: {:?}", written_files.err());
            let written_files = written_files.unwrap();
            assert_eq!(
                written_files.len(),
                1,
                "CLI should generate exactly 1 file for {:?} template",
                template_type
            );
            assert!(
                files.written.borrow().contains_key(&written_files[0]),
                "Output file should exist for {:?} template",
                template_type
            );
        }
    }
}

#[test]
fn template_processing_is_deterministic() {
    let mut draw = Draw(0xD1B54A32D192ED03);
    for (_, extension) in KINDS {
        for template_content in CONTENTS {
            let context = some_context(&mut draw);
            let mut files = Files::new();
            files.add(&format!("template.{}", extension), format!("{}\n", template_content));
            let template_files = files.discover();

            let processor = TemplateProcessor::new(&context);
            let processed1 = processor
                .process_file(&template_files[0], files.read(&template_files[0]))
                .expect("First processing failed");
            let processed2 = processor
                .process_file(&template_files[0], files.read(&template_files[0]))
                .expect("Second processing failed");

            assert_eq!(
                processed1.content, processed2.content,
                "Template processing should be deterministic - same input should produce same output"
            );

            let again = TemplateProcessor::new(&context)
                .process_file(&template_files[0], files.read(&template_files[0]))
                .expect("Third processing failed");
            assert_eq!(processed1, again);
        }
    }
}

#[test]
fn variable_substitution_works_correctly() {
    let mut draw = Draw(0x94D049BB133111EB);
    for round in 0..30 {
        let (_, extension) = KINDS[round % 3];
        let context = some_context(&mut draw);

        // Get first variable from context
        let all_vars = context.list_all();
        let (var_name, var_value) = &all_vars[0];

        let mut files = Files::new();
        files.add(&format!("template.{}", extension), format!("test_value: {{{{{}}}}}\n", var_name));
        let template_files = files.discover();

        let processor = TemplateProcessor::new(&context);
        let processed = processor
            .process_file(&template_files[0], files.read(&template_files[0]))
            .expect("Failed to process template");

        // Verify variable was substituted
        let expected_value = match var_value {
            JsonValue::Text(s) => s.clone(),
            JsonValue::Number(n) => n.clone(),
            JsonValue::Bool(b) => b.to_string(),
            _ => "unknown".to_string(),
        };
        assert_eq!(processed.content, format!("test_value: {}\n", expected_value));

        // Verify template placeholder was removed
        assert!(
            !processed.content.contains(&format!("{{{{{}}}}}", var_name)),
            "Processed template should not contain template placeholder {{{{{}}}}}",
            var_name
        );
    }
}

#[test]
fn multiple_templates_processed_independently() {
    let mut draw = Draw(0xBF58476D1CE4E5B9);
    for template_count in 2usize..=5 {
        let context = some_context(&mut draw);
        let mut files = Files::new();
        for i in 0..template_count {
            files.add(&format!("template_{}.tf", i), format!("# Template {}\n", i));
        }

        let template_files = files.discover();
        assert_eq!(
            template_files.len(),
            template_count,
            "Should discover all {} template files",
            template_count
        );

        let written_files = files.generate(&context).expect("Failed to generate");
        assert_eq!(
            written_files.len(),
            template_count,
            "Should write all {} output files",
            template_count
        );
        for (i, output_file) in written_files.iter().enumerate() {
            assert_eq!(
                files.written.borrow().get(output_file),
                Some(&format!("# Template {}\n", i)),
                "Output file {} should exist",
                output_file
            );
        }
    }
}

#[test]
fn directory_structure_preserved() {
    let mut draw = Draw(0x369DEA0F31A53F85);
    for subdirs in 1usize..=3 {
        let context = some_context(&mut draw);
        let mut files = Files::new();
        let mut expected_paths = Vec::new();
        for i in 0..subdirs {
            files.add(
                &format!("subdir_{}/template.tf", i),
                format!("# Template in subdir {}\n", i),
            );
            expected_paths.push(format!("subdir_{}/template.tf", i));
        }

        let written_files = files.generate(&context).expect("Failed to generate");
        assert_eq!(written_files.len(), subdirs);

        // Verify directory structure is preserved
        for expected_path in &expected_paths {
            assert!(
                files.written.borrow().contains_key(&format!("/output/{}", expected_path)),
                "Output file should exist at preserved path: {}",
                expected_path
            );
        }
    }
}
