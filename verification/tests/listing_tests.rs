use idp_cli::engine::read_json;
use idp_cli::listing::{
    display_array_elements, display_nested_properties, display_object_properties,
    display_variable_group, find_entry, indentation, insert_index, insert_name, variable_line,
};
use idp_cli::value::JsonValue;

fn json(text: &str) -> JsonValue {
    read_json(text).unwrap()
}

fn entries<'a>(pairs: &'a [(&str, JsonValue)]) -> Vec<(String, &'a JsonValue)> {
    pairs.iter().map(|(key, value)| (key.to_string(), value)).collect()
}

#[test]
fn test_insert_name_keeps_order_and_each_name_once() {
    let mut names = Vec::new();
    for name in ["m", "b", "z", "b", "a", "m", ""] {
        insert_name(&mut names, name.to_string());
    }
    assert_eq!(names, vec!["", "a", "b", "m", "z"]);
}

#[test]
fn test_insert_index_keeps_order_and_each_number_once() {
    let mut indices = Vec::new();
    for index in [5, 1, 9, 5, 0, 10, 1] {
        insert_index(&mut indices, index);
    }
    assert_eq!(indices, vec![0, 1, 5, 9, 10]);
}

#[test]
fn test_find_entry_takes_the_exact_path() {
    let pairs = [
        ("a".to_string(), JsonValue::number("1")),
        ("a.b".to_string(), JsonValue::number("2")),
    ];
    let vars: Vec<(String, &JsonValue)> = pairs.iter().map(|(k, v)| (k.clone(), v)).collect();
    assert_eq!(find_entry(&vars, "a.b"), Some(&JsonValue::number("2")));
    assert_eq!(find_entry(&vars, "a"), Some(&JsonValue::number("1")));
    assert_eq!(find_entry(&vars, "b"), None);
    assert_eq!(find_entry(&vars, "a."), None);
    assert_eq!(find_entry(&Vec::new(), "a"), None);
}

#[test]
fn test_indentation_and_variable_line() {
    assert_eq!(indentation(0), "");
    assert_eq!(indentation(3), "      ");
    assert_eq!(variable_line("  ", "name", &JsonValue::text("db")), "  name: string = \"db\"");
    assert_eq!(variable_line("", "on", &JsonValue::Bool(false)), "on: boolean = false");
    assert_eq!(variable_line("    ", "list", &json("[1, 2]")), "    list: array = [2 element(s)]");
}

#[test]
fn test_object_properties_come_in_the_order_of_their_names() {
    let pairs = [
        ("cfg", json(r#"{"zone": "a", "size": 2, "tags": {"k": "v"}}"#)),
        ("cfg.zone", JsonValue::text("a")),
        ("cfg.size", JsonValue::number("2")),
        ("cfg.tags", json(r#"{"k": "v"}"#)),
        ("cfg.tags.k", JsonValue::text("v")),
        ("cfg.list[0]", JsonValue::number("7")),
        ("cfgx.other", JsonValue::Null),
        ("other", JsonValue::Null),
    ];
    let vars = entries(&pairs);
    let mut lines = vec!["kept".to_string()];
    display_object_properties("cfg", &vars, 2, &mut lines);
    assert_eq!(
        lines,
        vec![
            "kept",
            // `list` is asked for, and no entry stands under `cfg.list`
            "    size: number = 2",
            "    tags: object = { 1 property }",
            "    zone: string = \"a\"",
        ]
    );

    let mut none = Vec::new();
    display_object_properties("missing", &vars, 0, &mut none);
    assert!(none.is_empty());
}

#[test]
fn test_array_elements_show_the_first_three() {
    let pairs = [
        ("r", json("[0, 1, 2, 3, 4]")),
        ("r[0]", json(r#"{"n": "a"}"#)),
        ("r[0].n", JsonValue::text("a")),
        ("r[10]", JsonValue::number("10")),
        ("r[2]", JsonValue::Bool(true)),
        ("r[3]", JsonValue::Null),
        ("r[4]", JsonValue::text("t")),
        ("r[x]", JsonValue::Null),
        ("rr[7]", JsonValue::Null),
    ];
    let vars = entries(&pairs);
    let mut lines = Vec::new();
    display_array_elements("r", &vars, 1, &mut lines);
    assert_eq!(
        lines,
        vec![
            "  [0]: object",
            "    n: string = \"a\"",
            "  [2]: boolean",
            "  [3]: null",
            "  ... and 2 more element(s)",
        ]
    );
}

#[test]
fn test_array_elements_without_more() {
    let pairs = [("r[1]", JsonValue::number("1")), ("r[0]", JsonValue::number("0"))];
    let vars = entries(&pairs);
    let mut lines = Vec::new();
    display_array_elements("r", &vars, 0, &mut lines);
    assert_eq!(lines, vec!["[0]: number", "[1]: number"]);

    // an index that only a longer path names is counted and not shown
    let deep = [("r[0].n", JsonValue::number("1"))];
    let vars = entries(&deep);
    let mut lines = Vec::new();
    display_array_elements("r", &vars, 0, &mut lines);
    assert!(lines.is_empty());

    let mut lines = Vec::new();
    display_array_elements("r", &Vec::new(), 0, &mut lines);
    assert!(lines.is_empty());
}

#[test]
fn test_nested_properties_show_every_entry_under_the_prefix() {
    let pairs = [
        ("blueprint.id", JsonValue::text("1")),
        ("blueprint.name", JsonValue::text("web")),
        ("other.name", JsonValue::text("x")),
        ("blueprints", JsonValue::Null),
    ];
    let vars = entries(&pairs);
    let mut lines = Vec::new();
    display_nested_properties("blueprint", &vars, 1, &mut lines);
    assert_eq!(
        lines,
        vec![
            "  blueprint.id: string = \"1\"",
            "  blueprint.name: string = \"web\"",
            "  blueprints: null = null",
        ]
    );
}

#[test]
fn test_variable_group_of_each_kind() {
    let scalar = [("count", JsonValue::number("3"))];
    assert_eq!(
        display_variable_group("count", &entries(&scalar)),
        vec!["count:", "  Type: number", "  Value: 3"]
    );

    let object = [
        ("settings", json(r#"{"a": "x"}"#)),
        ("settings.a", JsonValue::text("x")),
    ];
    assert_eq!(
        display_variable_group("settings", &entries(&object)),
        vec![
            "settings:",
            "  Type: object",
            "  Structure: Object with properties",
            "    a: string = \"x\"",
        ]
    );

    let empty_list = [("items", json("[]"))];
    assert_eq!(
        display_variable_group("items", &entries(&empty_list)),
        vec!["items:", "  Type: array", "  Structure: Array with 0 element(s)"]
    );

    let list = [("items", json("[true]")), ("items[0]", JsonValue::Bool(true))];
    assert_eq!(
        display_variable_group("items", &entries(&list)),
        vec![
            "items:",
            "  Type: array",
            "  Structure: Array with 1 element(s)",
            "    [0]: boolean",
        ]
    );

    let flat = [("stack.name", JsonValue::text("s"))];
    assert_eq!(
        display_variable_group("stack", &entries(&flat)),
        vec!["stack:", "  stack.name: string = \"s\""]
    );

    assert_eq!(display_variable_group("none", &Vec::new()), vec!["none:"]);
}
