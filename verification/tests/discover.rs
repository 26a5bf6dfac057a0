use stmo_cli::commands::discover::{format_resource_line, next_steps, own_query_line};

#[test]
fn format_resource_line_plain() {
    let line = format_resource_line(42, "My Dashboard", "https://example.com/dashboard/my", false);
    assert!(line.contains("42"));
    assert!(line.contains("My Dashboard"));
    assert!(line.contains("https://example.com/dashboard/my"));
    assert!(!line.contains("[DRAFT]"));
}

#[test]
fn format_resource_line_draft() {
    let line = format_resource_line(7, "WIP", "https://example.com/dashboard/wip", true);
    assert!(line.contains("[DRAFT]"));
    assert!(line.contains("WIP"));
}

#[test]
fn format_resource_line_exact_text() {
    assert_eq!(
        format_resource_line(7, "WIP", "https://x/d/wip", true),
        "  7 - WIP [DRAFT]\n  https://x/d/wip"
    );
    assert_eq!(format_resource_line(0, "", "", false), "  0 - \n  ");
}

#[test]
fn next_steps_dir_exists_suggests_fetch() {
    let message = next_steps(true, Some(123));
    assert!(message.contains("fetch 123"));
    assert!(!message.contains("init"));
}

#[test]
fn next_steps_dir_missing_suggests_init() {
    let message = next_steps(false, Some(123));
    assert!(message.contains("queries/"));
    assert!(message.contains("stmo-cli init"));
}

#[test]
fn next_steps_no_queries_suggests_search() {
    let message = next_steps(false, None);
    assert!(message.contains("--search"));
    assert!(!message.contains("stmo-cli init"));
}

#[test]
fn next_steps_exact_text() {
    assert_eq!(next_steps(true, Some(18446744073709551615)), "\nNext: stmo-cli fetch 18446744073709551615");
    assert_eq!(
        next_steps(false, Some(5)),
        "\nNo queries/ directory here.\nRun 'stmo-cli init <dir>' to set one up, then 'stmo-cli fetch 5'."
    );
}

#[test]
fn own_query_line_tags() {
    assert_eq!(own_query_line(1, "A", false, false), "  1 - A");
    assert_eq!(own_query_line(1, "A", true, true), "  1 - A [ARCHIVED] [DRAFT]");
    assert_eq!(own_query_line(10, "B", false, true), "  10 - B [DRAFT]");
}

use stmo_cli::commands::discover::{
    dashboard_page_url, query_page_url, search_section, SearchHit, SearchKind,
};

#[test]
fn resource_pages() {
    assert_eq!(query_page_url("https://r.example", 12), "https://r.example/queries/12");
    assert_eq!(dashboard_page_url("https://r.example", "main-kpis"), "https://r.example/dashboard/main-kpis");
}

#[test]
fn search_sections() {
    let hits = vec![
        SearchHit { id: 1, name: "A".to_string(), url: "u1".to_string(), is_draft: false },
        SearchHit { id: 2, name: "B".to_string(), url: "u2".to_string(), is_draft: true },
    ];
    assert_eq!(
        search_section(SearchKind::Queries, "crash", 2, &hits),
        vec![
            "=== QUERIES (2) ===\n",
            "  1 - A\n  u1",
            "  2 - B [DRAFT]\n  u2",
            "\n  (showing first 2; raise --limit for more)",
        ]
    );
    assert_eq!(search_section(SearchKind::Queries, "crash", 5, &hits).len(), 3);
    assert_eq!(
        search_section(SearchKind::Dashboards, "crash", 5, &vec![]),
        vec!["=== DASHBOARDS (0) ===\n", "  No dashboards found for 'crash'."]
    );
}
