use stmo_cli::by_id::sort_by_id;
use stmo_cli::commands::deploy::{
    changed_query_ids, deploy_source, plan_new_query_visualizations, plan_visualizations, select_by_ids,
    select_for_deploy, select_requested, status_line_id, validate_enum_options, DeploySelection, DeploySource,
    VisualizationDeploy,
};
use stmo_cli::models::{Parameter, Query, QueryMetadata, QueryOptions, QueryUser, Visualization};
use stmo_cli::naming::query_sql_path;

fn metadata_with(param_type: &str, enum_options: Option<&str>) -> QueryMetadata {
    QueryMetadata {
        id: 1,
        name: "Test Query".to_string(),
        description: None,
        data_source_id: 1,
        user_id: None,
        schedule: None,
        options: QueryOptions {
            parameters: vec![Parameter {
                name: "test_param".to_string(),
                title: "Test Param".to_string(),
                param_type: param_type.to_string(),
                enum_options: enum_options.map(str::to_string),
                query_id: Some(1),
                value: None,
                multi_values_options: None,
            }],
        },
        visualizations: vec![],
        tags: None,
    }
}

#[test]
fn test_validate_enum_options_rejects_escaped_newlines() {
    let metadata = metadata_with("enum", Some("option1\\noption2\\noption3"));
    let result = validate_enum_options(&metadata, "test.yaml");
    assert!(result.is_err());
    let err_msg = result.unwrap_err().to_string();
    assert!(err_msg.contains("escaped newlines"));
    assert!(err_msg.contains("test_param"));
    assert!(err_msg.contains("YAML multiline format"));
}

#[test]
fn test_validate_enum_options_accepts_multiline() {
    let metadata = metadata_with("enum", Some("option1\noption2\noption3"));
    let result = validate_enum_options(&metadata, "test.yaml");
    assert!(result.is_ok());
}

#[test]
fn test_validate_enum_options_accepts_no_enum() {
    let metadata = metadata_with("text", None);
    let result = validate_enum_options(&metadata, "test.yaml");
    assert!(result.is_ok());
}

#[test]
fn escaped_newline_message_text() {
    let metadata = metadata_with("enum", Some("a\\nb"));
    let err = validate_enum_options(&metadata, "queries/1-x.yaml").unwrap_err();
    assert_eq!(err.yaml_path, "queries/1-x.yaml");
    assert_eq!(err.parameter, "test_param");
    assert_eq!(
        err.to_string(),
        "In queries/1-x.yaml: parameter 'test_param' has enumOptions with escaped newlines. Use YAML \
         multiline format instead:\n\nenumOptions: |-\n  option1\n  option2"
    );
    // a lone backslash or a trailing one is fine
    assert!(validate_enum_options(&metadata_with("enum", Some("a\\")), "x").is_ok());
    assert!(validate_enum_options(&metadata_with("enum", Some("\\t")), "x").is_ok());
}

fn chars(s: &str) -> Vec<char> {
    s.chars().collect()
}

#[test]
fn status_line_ids() {
    assert_eq!(status_line_id(&chars(" M queries/123-crash-rate.sql")), Some(123));
    assert_eq!(status_line_id(&chars("?? queries/7-x.YAML")), Some(7));
    assert_eq!(status_line_id(&chars("?? queries/7-x.txt")), None);
    assert_eq!(status_line_id(&chars("?? dashboards/7-x.yaml")), None);
    assert_eq!(status_line_id(&chars("?? queries/")), None);
    assert_eq!(status_line_id(&chars("?? queries/abc-x.sql")), None);
    assert_eq!(status_line_id(&chars("?? queries/+5-x.sql")), Some(5));
    assert_eq!(status_line_id(&chars("?? queries/5.sql")), None);
    assert_eq!(status_line_id(&chars(" M")), None);
    assert_eq!(status_line_id(&chars("")), None);
    // a directory that git reports with a trailing slash has no extension of its own
    assert_eq!(status_line_id(&chars("?? queries/9-x.sql/")), Some(9));
    assert_eq!(status_line_id(&chars("?? queries/9-x/")), None);
    // a three-byte character fills the status field
    assert_eq!(status_line_id(&chars("→queries/4-a.sql")), Some(4));
}

#[test]
fn changed_ids_from_git_status() {
    let out = " M queries/12-b.sql\n M queries/12-b.yaml\r\n?? queries/3-a.sql\n M src/main.rs\n M queries/40-z.yaml";
    assert_eq!(changed_query_ids(out), vec![3, 12, 40]);
    assert_eq!(changed_query_ids(""), Vec::<u64>::new());
    assert_eq!(changed_query_ids("\n\n"), Vec::<u64>::new());
    // a carriage return is only dropped before a newline
    assert_eq!(changed_query_ids(" M queries/8-a.sql\r"), Vec::<u64>::new());
    assert_eq!(changed_query_ids(" M queries/8-a.sql\r\n"), vec![8]);
}

#[test]
fn written_paths_are_recognised_as_changes() {
    let path = query_sql_path(77, "Weekly / Monthly: Report");
    assert_eq!(path, "queries/77-weekly-monthly-report.sql");
    let line = format!("?? {path}");
    assert_eq!(changed_query_ids(&line), vec![77]);
}

fn entries(list: &[(u64, &str)]) -> Vec<(u64, String)> {
    list.iter().map(|(i, n)| (*i, n.to_string())).collect()
}

#[test]
fn sort_by_id_is_stable() {
    let sorted = sort_by_id(entries(&[(5, "e"), (1, "a"), (5, "f"), (0, "z"), (1, "b")]));
    assert_eq!(sorted, entries(&[(0, "z"), (1, "a"), (1, "b"), (5, "e"), (5, "f")]));
    assert_eq!(sort_by_id(Vec::<(u64, String)>::new()), Vec::<(u64, String)>::new());
}

#[test]
fn selection_by_requested_ids() {
    let all = entries(&[(1, "a"), (2, "b"), (3, "c")]);
    assert_eq!(select_by_ids(all.clone(), &vec![3, 1]), entries(&[(1, "a"), (3, "c")]));
    assert_eq!(select_requested(all.clone(), &vec![2]).unwrap(), entries(&[(2, "b")]));
    let err = select_requested(all, &vec![9]).unwrap_err();
    assert_eq!(err.to_string(), "None of the specified query IDs were found in queries/ directory");
}

fn viz(id: u64, name: &str) -> Visualization {
    Visualization {
        id,
        name: name.to_string(),
        viz_type: "TABLE".to_string(),
        options: serde_json::Value::String("x".to_string()),
        description: None,
    }
}

#[test]
fn visualization_plan() {
    let plan = plan_visualizations(42, vec![viz(0, "new"), viz(9, "old")]);
    assert_eq!(plan.len(), 2);
    match &plan[0] {
        VisualizationDeploy::Create(c) => {
            assert_eq!(c.query_id, 42);
            assert_eq!(c.name, "new");
            assert_eq!(c.options, serde_json::Value::String("x".to_string()));
        },
        VisualizationDeploy::Update(_) => panic!("expected a creation"),
    }
    match &plan[1] {
        VisualizationDeploy::Update(v) => assert_eq!(v.id, 9),
        VisualizationDeploy::Create(_) => panic!("expected an update"),
    }
}

fn update_id(step: &VisualizationDeploy) -> Option<u64> {
    match step {
        VisualizationDeploy::Update(v) => Some(v.id),
        VisualizationDeploy::Create(_) => None,
    }
}

#[test]
fn new_query_reuses_visualizations_redash_made() {
    // the one visualization Redash made for the new query is taken over
    let plan = plan_new_query_visualizations(42, vec![viz(0, "Chart")], &vec![501]);
    assert_eq!(plan.len(), 1);
    match &plan[0] {
        VisualizationDeploy::Update(v) => {
            assert_eq!(v.id, 501);
            assert_eq!(v.name, "Chart");
            assert_eq!(v.viz_type, "TABLE");
        },
        VisualizationDeploy::Create(_) => panic!("expected the visualization to be reused"),
    }
    // new visualizations beyond those Redash made are created; others are overwritten
    let plan = plan_new_query_visualizations(
        42,
        vec![viz(0, "first"), viz(9, "kept"), viz(0, "second"), viz(0, "third")],
        &vec![501, 502],
    );
    let ids: Vec<Option<u64>> = plan.iter().map(update_id).collect();
    assert_eq!(ids, vec![Some(501), Some(9), Some(502), None]);
    match &plan[3] {
        VisualizationDeploy::Create(c) => {
            assert_eq!(c.query_id, 42);
            assert_eq!(c.name, "third");
        },
        VisualizationDeploy::Update(_) => panic!("expected a creation"),
    }
    // nothing to reuse: every new visualization is created
    let plan = plan_new_query_visualizations(42, vec![viz(0, "a"), viz(0, "b")], &vec![]);
    let ids: Vec<Option<u64>> = plan.iter().map(update_id).collect();
    assert_eq!(ids, vec![None, None]);
    // unused visualizations of Redash's are left alone
    let plan = plan_new_query_visualizations(42, vec![viz(7, "x")], &vec![501]);
    let ids: Vec<Option<u64>> = plan.iter().map(update_id).collect();
    assert_eq!(ids, vec![Some(7)]);
}

fn query_with(visualizations: Vec<Visualization>) -> Query {
    Query {
        id: 12,
        name: "Crash rate".to_string(),
        description: Some("d".to_string()),
        sql: "select 1".to_string(),
        data_source_id: 3,
        user: Some(QueryUser { id: 8, name: "u".to_string(), email: "u@example.com".to_string() }),
        schedule: None,
        options: QueryOptions { parameters: vec![] },
        visualizations,
        tags: Some(vec!["t".to_string()]),
        is_archived: false,
        is_draft: false,
        updated_at: "now".to_string(),
        created_at: "then".to_string(),
    }
}

#[test]
fn metadata_rewritten_after_deploy_sorts_visualizations() {
    let m = QueryMetadata::after_deploy(query_with(vec![viz(30, "c"), viz(10, "a"), viz(20, "b"), viz(10, "a2")]));
    let order: Vec<(u64, String)> = m.visualizations.iter().map(|v| (v.id, v.name.clone())).collect();
    assert_eq!(order, entries(&[(10, "a"), (10, "a2"), (20, "b"), (30, "c")]));
    assert_eq!(m.id, 12);
    assert_eq!(m.name, "Crash rate");
    assert_eq!(m.user_id, Some(8));
    assert_eq!(m.data_source_id, 3);
    assert_eq!(m.tags, Some(vec!["t".to_string()]));
    let sorted = sort_by_id(vec![viz(2, "y"), viz(1, "x")]);
    assert_eq!(sorted.iter().map(|v| v.id).collect::<Vec<u64>>(), vec![1, 2]);
}

fn queries_of(selection: DeploySelection) -> Vec<(u64, String)> {
    match selection {
        DeploySelection::Queries(v) => v,
        DeploySelection::NothingChanged => panic!("expected queries"),
    }
}

#[test]
fn deploy_selection() {
    let all = entries(&[(1, "a"), (2, "b"), (3, "c")]);
    assert_eq!(deploy_source(&vec![2], true), DeploySource::Requested);
    assert_eq!(deploy_source(&vec![], true), DeploySource::All);
    assert_eq!(deploy_source(&vec![], false), DeploySource::Changed);
    // requested ids win over --all and over git changes
    let chosen = queries_of(select_for_deploy(all.clone(), &vec![3], true, &vec![1]).unwrap());
    assert_eq!(chosen, entries(&[(3, "c")]));
    let err = select_for_deploy(all.clone(), &vec![9], false, &vec![]).unwrap_err();
    assert_eq!(err.to_string(), "None of the specified query IDs were found in queries/ directory");
    // --all takes every local query
    assert_eq!(queries_of(select_for_deploy(all.clone(), &vec![], true, &vec![]).unwrap()), all);
    // else the changed ones, or nothing when nothing changed
    let chosen = queries_of(select_for_deploy(all.clone(), &vec![], false, &vec![2, 7]).unwrap());
    assert_eq!(chosen, entries(&[(2, "b")]));
    assert!(matches!(
        select_for_deploy(all, &vec![], false, &vec![]).unwrap(),
        DeploySelection::NothingChanged
    ));
}
