use idp_cli::diagnostics::{
    enhance_template_error, extract_line_number, extract_variable_name, get_template_line,
};
use idp_cli::error::CliError;
use idp_cli::suggestions::{is_similar, levenshtein_distance, suggest};

fn names(list: &[&str]) -> Vec<String> {
    list.iter().map(|s| s.to_string()).collect()
}

#[test]
fn test_edit_distance_values() {
    assert_eq!(levenshtein_distance("", ""), 0);
    assert_eq!(levenshtein_distance("", "abc"), 3);
    assert_eq!(levenshtein_distance("abc", ""), 3);
    assert_eq!(levenshtein_distance("flaw", "lawn"), 2);
    assert_eq!(levenshtein_distance("saturday", "sunday"), 3);
    assert_eq!(levenshtein_distance("abc", "acb"), 2);
    assert_eq!(levenshtein_distance("a", "b"), 1);
    // characters count, not bytes
    assert_eq!(levenshtein_distance("é", "e"), 1);
    assert_eq!(levenshtein_distance("naïve", "naive"), 1);
    assert_eq!(levenshtein_distance("日本語", "日本"), 1);
}

#[test]
fn test_similar_by_each_rule() {
    // the same
    assert!(is_similar("xy", "xy"));
    // one stands inside the other
    assert!(is_similar("stack", "my.stack.name"));
    assert!(is_similar("my.stack.name", "stack"));
    // the same first three characters
    assert!(is_similar("abcdefgh", "abcxyzuvw"));
    assert!(!is_similar("abdefghi", "abcxyzuvw"));
    // edit distance of two or less
    assert!(is_similar("kitten", "mitteny"));
    assert!(!is_similar("kitten", "sitting"));
    // the empty name stands inside every name
    assert!(is_similar("", "anything"));
    // case matters
    assert!(!is_similar("BLUEPRINT", "blueprint"));
    assert!(is_similar("Blu", "blu"));
}

#[test]
fn test_suggest_one_edit_away() {
    let known = names(&["alpha.size", "blueprint.name", "stack.name", "zeta"]);
    let text = suggest(&known, "blueprint.nam");
    assert_eq!(text, "Did you mean one of these?\n  - blueprint.name");
    let text = suggest(&known, "stack.names");
    assert_eq!(text, "Did you mean one of these?\n  - stack.name");
    let text = suggest(&known, "zeto");
    assert_eq!(text, "Did you mean one of these?\n  - zeta");
}

#[test]
fn test_suggest_gives_five_at_most() {
    let known = names(&["res.a", "res.b", "res.c", "res.d", "res.e", "res.f", "res.g"]);
    assert_eq!(
        suggest(&known, "res.x"),
        "Did you mean one of these?\n  - res.a\n  - res.b\n  - res.c\n  - res.d\n  - res.e"
    );
    // a name one edit away can be crowded out by five that come before it
    assert!(!suggest(&known, "res.gg").contains("res.g\n"));
    assert!(!suggest(&known, "res.gg").ends_with("res.g"));
}

#[test]
fn test_suggest_sample_of_ten() {
    let known = names(&[
        "k01", "k02", "k03", "k04", "k05", "k06", "k07", "k08", "k09", "k10", "k11", "k12",
    ]);
    assert_eq!(
        suggest(&known, "completely_different"),
        "Did you mean one of these variables?\n  - k01\n  - k02\n  - k03\n  - k04\n  - k05\n  - k06\n  - k07\n  - k08\n  - k09\n  - k10\n\nUse the 'list-variables' command to see all available variables."
    );
    assert_eq!(
        suggest(&names(&["only"]), "completely_different"),
        "Did you mean one of these variables?\n  - only\n\nUse the 'list-variables' command to see all available variables."
    );
}

#[test]
fn test_suggest_without_names() {
    assert_eq!(
        suggest(&Vec::new(), "any"),
        "No variables are available in the current context.\nUse the 'list-variables' command to see what variables are available."
    );
}

#[test]
fn test_extract_line_number_takes_the_number_after_the_first_line() {
    assert_eq!(extract_line_number("line 42"), Some(42));
    assert_eq!(extract_line_number("failed at line 7"), Some(7));
    assert_eq!(extract_line_number("line "), None);
    assert_eq!(extract_line_number("line 42."), Some(42));
    assert_eq!(extract_line_number("line  42."), None);
    assert_eq!(extract_line_number("line x, then line 3,"), None);
    assert_eq!(extract_line_number("Line 3,"), None);
    assert_eq!(extract_line_number("outline 7)"), Some(7));
    assert_eq!(extract_line_number("line 007,"), Some(7));
    assert_eq!(extract_line_number("line 99999999999999999999999999,"), None);
    assert_eq!(extract_line_number("line ٣,"), None);
    assert_eq!(extract_line_number(""), None);
    assert_eq!(
        extract_line_number("Error rendering \"Unnamed template\" line 2, col 5: bad"),
        Some(2)
    );
}

#[test]
fn test_extract_variable_name_order() {
    assert_eq!(
        extract_variable_name("variable a: \"b\" missing"),
        Some("b".to_string())
    );
    assert_eq!(extract_variable_name("only \"one quote"), None);
    assert_eq!(
        extract_variable_name("one \" quote, variable x is gone"),
        Some("x".to_string())
    );
    assert_eq!(extract_variable_name("variable x"), None);
    assert_eq!(extract_variable_name("Variable y:"), Some("y".to_string()));
    assert_eq!(
        extract_variable_name("variable x, Variable y done"),
        Some("x,".to_string())
    );
    assert_eq!(extract_variable_name("\"\""), Some("".to_string()));
    assert_eq!(extract_variable_name("variable  z"), Some("".to_string()));
}

#[test]
fn test_get_template_line_edges() {
    assert_eq!(get_template_line("a\r\nb\n", 1), "a");
    assert_eq!(get_template_line("a\r\nb\n", 2), "b");
    assert_eq!(get_template_line("a\r\nb\n", 3), "<line not found>");
    assert_eq!(get_template_line("a\n\nb", 2), "");
    assert_eq!(get_template_line("a\nb", 0), "a");
    assert_eq!(get_template_line("", 1), "<line not found>");
    assert_eq!(get_template_line("\n", 1), "");
    assert_eq!(get_template_line("\n", 2), "<line not found>");
    assert_eq!(get_template_line("a\r", 1), "a");
}

#[test]
fn test_enhance_line_number_comes_first() {
    let error = enhance_template_error(
        "Error rendering \"t\" line 2, col 3: variable \"x\" not found",
        "first\nsecond {{x}}\nthird",
        &names(&["xy"]),
    );
    assert_eq!(
        error,
        CliError::TemplateSyntaxError {
            line: 2,
            message: "Error rendering \"t\" line 2, col 3: variable \"x\" not found\n\nCommon template syntax issues:\n- Unclosed braces: {{ variable (missing closing }})\n- Invalid helper syntax: {{helper param1 param2}}\n- Mismatched block helpers: {{#if}} without {{/if}}\n\nTemplate line 2:\nsecond {{x}}"
                .to_string(),
        }
    );
}

#[test]
fn test_enhance_missing_variable() {
    let error = enhance_template_error(
        "Variable \"blueprint.nme\" not found in strict mode.",
        "{{blueprint.nme}}",
        &names(&["blueprint.name", "stack.name"]),
    );
    assert_eq!(
        error,
        CliError::VariableNotFoundError {
            variable: "blueprint.nme".to_string(),
            suggestion: "Did you mean one of these?\n  - blueprint.name".to_string(),
        }
    );
    let error = enhance_template_error("value is undefined for variable port: sorry", "", &Vec::new());
    assert_eq!(
        error,
        CliError::VariableNotFoundError {
            variable: "port".to_string(),
            suggestion: "No variables are available in the current context.\nUse the 'list-variables' command to see what variables are available.".to_string(),
        }
    );
}

#[test]
fn test_enhance_general() {
    let expected = |message: &str| {
        CliError::ProcessingError(format!(
            "Template processing failed: {}\n\nTroubleshooting tips:\n- Verify all {{{{variable}}}} placeholders have corresponding values\n- Check that nested access paths are correct (e.g., {{{{resource.name}}}})\n- Ensure array indices are valid (e.g., {{{{resources.0.name}}}})\n- Use the 'list-variables' command to see available variables",
            message
        ))
    };
    // something is missing but no variable is named
    assert_eq!(
        enhance_template_error("helper not found", "", &Vec::new()),
        expected("helper not found")
    );
    // a variable is named but nothing is said to be missing
    assert_eq!(
        enhance_template_error("bad \"x\" here", "", &Vec::new()),
        expected("bad \"x\" here")
    );
    assert_eq!(enhance_template_error("", "", &Vec::new()), expected(""));
}

#[test]
fn test_white_space_is_what_unicode_says() {
    for n in 0..=0x10FFFFu32 {
        if let Some(c) = char::from_u32(n) {
            assert_eq!(
                idp_cli::diagnostics::char_is_whitespace(c),
                c.is_whitespace(),
                "U+{:04X}",
                n
            );
        }
    }
}
