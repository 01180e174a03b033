use idp_cli::paths::{join_paths, parent_path, temporary_path};
use idp_cli::text::{
    chars_of, decimal_string, find_text, has_prefix, last_index_of, matches_here, read_index,
    slice_of, split_text, string_of,
};

fn chars(text: &str) -> Vec<char> {
    text.chars().collect()
}

#[test]
fn test_chars_and_back() {
    assert_eq!(chars_of("aé✓"), vec!['a', 'é', '✓']);
    assert_eq!(chars_of(""), Vec::<char>::new());
    assert_eq!(string_of(&vec!['a', 'é', '✓']), "aé✓");
    assert_eq!(string_of(&Vec::new()), "");
}

#[test]
fn test_decimal_string() {
    assert_eq!(decimal_string(0), "0");
    assert_eq!(decimal_string(7), "7");
    assert_eq!(decimal_string(10), "10");
    assert_eq!(decimal_string(12345), "12345");
    assert_eq!(decimal_string(usize::MAX), usize::MAX.to_string());
}

#[test]
fn test_read_index() {
    let text = chars("x12y+7z007");
    assert_eq!(read_index(&text, 1, 3), Some(12));
    assert_eq!(read_index(&text, 4, 6), Some(7));
    assert_eq!(read_index(&text, 7, 10), Some(7));
    assert_eq!(read_index(&text, 0, 3), None);
    assert_eq!(read_index(&text, 1, 1), None);
    assert_eq!(read_index(&text, 4, 5), None);
    assert_eq!(read_index(&chars("-1"), 0, 2), None);
    assert_eq!(read_index(&chars(" 1"), 0, 2), None);
    assert_eq!(read_index(&chars("١"), 0, 1), None);
}

#[test]
fn test_read_index_at_the_limit() {
    let max = usize::MAX.to_string();
    assert_eq!(read_index(&chars(&max), 0, max.len()), Some(usize::MAX));
    let beyond = format!("{}0", max);
    assert_eq!(read_index(&chars(&beyond), 0, beyond.len()), None);
    // one more than the largest
    let mut digits: Vec<char> = max.chars().collect();
    let last = digits.len() - 1;
    digits[last] = ((digits[last] as u8) + 1) as char;
    assert_eq!(read_index(&digits, 0, digits.len()), None);
    let padded = format!("000{}", max);
    assert_eq!(read_index(&chars(&padded), 0, padded.len()), Some(usize::MAX));
}

#[test]
fn test_find_and_match() {
    let hay = chars("abcabc");
    assert_eq!(find_text(&hay, &chars("bc"), 0), Some(1));
    assert_eq!(find_text(&hay, &chars("bc"), 2), Some(4));
    assert_eq!(find_text(&hay, &chars("bc"), 5), None);
    assert_eq!(find_text(&hay, &chars("x"), 0), None);
    assert_eq!(find_text(&hay, &chars(""), 0), Some(0));
    assert_eq!(find_text(&hay, &chars(""), 6), Some(6));
    assert_eq!(find_text(&hay, &chars(""), 7), None);
    assert_eq!(find_text(&hay, &chars("abcabcd"), 0), None);
    assert!(matches_here(&hay, &chars("cab"), 2));
    assert!(!matches_here(&hay, &chars("cab"), 3));
    assert!(!matches_here(&hay, &chars("bc"), 5));
    assert!(has_prefix(&hay, &chars("abc")));
    assert!(has_prefix(&hay, &chars("")));
    assert!(!has_prefix(&hay, &chars("bc")));
    assert_eq!(last_index_of(&hay, 'b'), Some(4));
    assert_eq!(last_index_of(&hay, 'x'), None);
    assert_eq!(slice_of(&hay, 1, 4), chars("bca"));
}

#[test]
fn test_split_text() {
    let pieces = |text: &str, sep: &str| -> Vec<String> {
        split_text(&chars(text), &chars(sep)).iter().map(|p| p.iter().collect()).collect()
    };
    assert_eq!(pieces("a.b.c", "."), vec!["a", "b", "c"]);
    assert_eq!(pieces("abc", "."), vec!["abc"]);
    assert_eq!(pieces("", "."), vec![""]);
    assert_eq!(pieces(".", "."), vec!["", ""]);
    assert_eq!(pieces("a..b.", "."), vec!["a", "", "b", ""]);
    assert_eq!(pieces("a\n---\nb\n---\n", "\n---\n"), vec!["a", "b", ""]);
    assert_eq!(pieces("aaa", "aa"), vec!["", "a"]);
}

#[test]
fn test_join_paths() {
    assert_eq!(join_paths("out", "main.tf"), "out/main.tf");
    assert_eq!(join_paths("out/", "main.tf"), "out/main.tf");
    assert_eq!(join_paths("", "main.tf"), "main.tf");
    assert_eq!(join_paths("out", "/abs/main.tf"), "/abs/main.tf");
    assert_eq!(join_paths("/", "a"), "/a");
    assert_eq!(join_paths("out", ""), "out/");
}

#[test]
fn test_parent_path() {
    assert_eq!(parent_path("out/k8s/a.yaml"), Some("out/k8s".to_string()));
    assert_eq!(parent_path("a.yaml"), Some("".to_string()));
    assert_eq!(parent_path("/a.yaml"), Some("/".to_string()));
    assert_eq!(parent_path("/"), None);
    assert_eq!(parent_path(""), None);
}

#[test]
fn test_temporary_path() {
    assert_eq!(temporary_path("out/main.tf"), "out/main.tmp");
    assert_eq!(temporary_path("out/archive.tar.gz"), "out/archive.tar.tmp");
    assert_eq!(temporary_path("out/Makefile"), "out/Makefile.tmp");
    assert_eq!(temporary_path("out/.hidden"), "out/.hidden.tmp");
    assert_eq!(temporary_path("out.d/file"), "out.d/file.tmp");
    assert_eq!(temporary_path("file."), "file.tmp");
    assert_eq!(temporary_path("x.tmp"), "x.tmp");
}

#[test]
fn test_str_lt_and_str_eq_are_the_order_and_equality_of_texts() {
    let samples = [
        "", "a", "A", "a.b", "a[0]", "a-b", "ab", "abc", "b", "z", "é", "e\u{301}", "日本", "日",
        "\u{10FFFF}", "\u{FFFF}", "\u{7f}", "\u{80}", "resources[10]", "resources[2]", " ",
    ];
    for a in samples {
        for b in samples {
            assert_eq!(idp_cli::text::str_lt(a, b), a < b, "{:?} < {:?}", a, b);
            assert_eq!(idp_cli::text::str_eq(a, b), a == b, "{:?} == {:?}", a, b);
        }
    }
}
