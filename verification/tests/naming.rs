use stmo_cli::naming::{
    leading_query_id, query_file_base, query_sql_path, query_yaml_path, slugify, yaml_file_query_id,
};
use stmo_cli::text::{decimal_chars, parse_u64_range};

#[test]
fn slugify_examples() {
    assert_eq!(slugify("Test Query"), "test-query");
    assert_eq!(slugify("  Crash -- Rate (Daily)!! "), "crash-rate-daily");
    assert_eq!(slugify("Ünïcödé Straße"), "ünïcödé-straße");
    assert_eq!(slugify("---"), "");
    assert_eq!(slugify(""), "");
    assert_eq!(slugify("a/b.c"), "a-b-c");
    assert_eq!(slugify("日本語 クエリ"), "日本語-クエリ");
}

#[test]
fn file_names_of_a_query() {
    assert_eq!(query_file_base(123, "Mobile Crashes"), "123-mobile-crashes");
    assert_eq!(query_sql_path(0, "Test Query"), "queries/0-test-query.sql");
    assert_eq!(query_yaml_path(42, "Test Query"), "queries/42-test-query.yaml");
    assert_eq!(query_file_base(7, "!!!"), "7-");
}

#[test]
fn ids_read_back_from_file_names() {
    assert_eq!(leading_query_id("123-mobile-crashes.yaml"), Some(123));
    assert_eq!(leading_query_id("123.yaml"), None);
    assert_eq!(leading_query_id("-1-x.yaml"), None);
    assert_eq!(leading_query_id("18446744073709551616-x.yaml"), None);
    assert_eq!(leading_query_id("18446744073709551615-x.yaml"), Some(u64::MAX));
    assert_eq!(yaml_file_query_id("123-mobile-crashes.yaml"), Some(123));
    assert_eq!(yaml_file_query_id("123-mobile-crashes.sql"), None);
    assert_eq!(yaml_file_query_id("123-mobile-crashes.YAML"), None);
    assert_eq!(yaml_file_query_id(".yaml"), None);
    assert_eq!(yaml_file_query_id("5-a.b.yaml"), Some(5));
}

#[test]
fn written_file_name_reads_back() {
    for (id, name) in [(0u64, "Test Query"), (9_999, "x - y"), (u64::MAX, "")] {
        let yaml = format!("{}.yaml", query_file_base(id, name));
        assert_eq!(yaml_file_query_id(&yaml), Some(id));
    }
}

#[test]
fn decimal_writing_and_parsing() {
    let d: String = decimal_chars(0).into_iter().collect();
    assert_eq!(d, "0");
    let d: String = decimal_chars(1_234_567_890).into_iter().collect();
    assert_eq!(d, "1234567890");
    let s: Vec<char> = "x+42y".chars().collect();
    assert_eq!(parse_u64_range(&s, 1, 4), Some(42));
    assert_eq!(parse_u64_range(&s, 1, 2), None);
    assert_eq!(parse_u64_range(&s, 0, 0), None);
}

#[test]
fn yaml_file_names() {
    assert!(stmo_cli::naming::is_yaml_file("1-a.yaml"));
    assert!(stmo_cli::naming::is_yaml_file("x.tar.yaml"));
    assert!(!stmo_cli::naming::is_yaml_file(".yaml"));
    assert!(!stmo_cli::naming::is_yaml_file("yaml"));
    assert!(!stmo_cli::naming::is_yaml_file("a.yml"));
    assert!(!stmo_cli::naming::is_yaml_file(".."));
}

#[test]
fn slugify_twice_changes_nothing() {
    for name in ["Test Query", "  Crash -- Rate (Daily)!! ", "Ünïcödé Straße", "---", "a/b.c", "日本語 クエリ"] {
        let once = slugify(name);
        assert_eq!(slugify(&once), once);
    }
}
