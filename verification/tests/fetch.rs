use stmo_cli::commands::fetch::{plan_fetch, query_ids_from_file_names, FetchPlan};
use stmo_cli::commands::OutputFormat;
use stmo_cli::id_set::{contains_id, insert_id};

fn names(list: &[&str]) -> Vec<String> {
    list.iter().map(|s| s.to_string()).collect()
}

#[test]
fn tracked_ids_are_sorted_and_unique() {
    let ids = query_ids_from_file_names(&names(&[
        "42-b.yaml",
        "42-b.sql",
        "7-a.yaml",
        "notes.yaml",
        "42-old-name.yaml",
        "100-c.yaml",
        ".gitkeep",
    ]));
    assert_eq!(ids, vec![7, 42, 100]);
    assert_eq!(query_ids_from_file_names(&vec![]), Vec::<u64>::new());
}

#[test]
fn id_set_operations() {
    let mut v = vec![];
    for x in [5u64, 1, 5, 3, u64::MAX, 0] {
        insert_id(&mut v, x);
    }
    assert_eq!(v, vec![0, 1, 3, 5, u64::MAX]);
    assert!(contains_id(&v, 3));
    assert!(!contains_id(&v, 4));
}

#[test]
fn output_format_names() {
    assert_eq!("json".parse::<OutputFormat>().unwrap(), OutputFormat::Json);
    assert_eq!("TABLE".parse::<OutputFormat>().unwrap(), OutputFormat::Table);
    assert_eq!(OutputFormat::parse_format("Json").unwrap(), OutputFormat::Json);
    let err = "csv".parse::<OutputFormat>().unwrap_err();
    assert_eq!(err.to_string(), "Invalid format. Use: json or table");
}

#[test]
fn fetch_plan_choices() {
    // ids asked for win over those on disk
    match plan_fetch(vec![5, 6], vec![1], false) {
        FetchPlan::Ids(v) => assert_eq!(v, vec![5, 6]),
        other => panic!("unexpected {other:?}"),
    }
    match plan_fetch(vec![], vec![1, 2], true) {
        FetchPlan::Ids(v) => assert_eq!(v, vec![1, 2]),
        other => panic!("unexpected {other:?}"),
    }
    assert!(matches!(plan_fetch(vec![], vec![], false), FetchPlan::AllOfUser));
    assert!(matches!(plan_fetch(vec![], vec![], true), FetchPlan::Nothing));
}
