use stmo_cli::models::{
    InvalidJobStatus, JobStatus, Query, QueryMetadata, QueryOptions, QueryUser, CreateQuery,
};

#[test]
fn test_job_status_from_u8_valid() {
    assert!(matches!(JobStatus::from_u8(1).unwrap(), JobStatus::Pending));
    assert!(matches!(JobStatus::from_u8(2).unwrap(), JobStatus::Started));
    assert!(matches!(JobStatus::from_u8(3).unwrap(), JobStatus::Success));
    assert!(matches!(JobStatus::from_u8(4).unwrap(), JobStatus::Failure));
    assert!(matches!(JobStatus::from_u8(5).unwrap(), JobStatus::Cancelled));
}

#[test]
fn test_job_status_from_u8_invalid() {
    assert!(JobStatus::from_u8(0).is_err());
    assert!(JobStatus::from_u8(6).is_err());
    assert!(JobStatus::from_u8(255).is_err());

    let err = JobStatus::from_u8(10).unwrap_err();
    assert!(err.to_string().contains("Invalid job status"));
}

#[test]
fn invalid_job_status_message_names_the_code() {
    assert_eq!(JobStatus::from_u8(0).unwrap_err(), InvalidJobStatus { status: 0 });
    assert_eq!(JobStatus::from_u8(200).unwrap_err().to_string(), "Invalid job status: 200");
    assert_eq!(InvalidJobStatus { status: 7 }.to_string(), "Invalid job status: 7");
}

fn sample_query() -> Query {
    Query {
        id: 42,
        name: "Crash Rate".to_string(),
        description: Some("daily".to_string()),
        sql: "SELECT 1".to_string(),
        data_source_id: 63,
        user: Some(QueryUser { id: 530, name: "A".to_string(), email: "a@example.com".to_string() }),
        schedule: None,
        options: QueryOptions { parameters: vec![] },
        visualizations: vec![],
        tags: Some(vec!["tag".to_string()]),
        is_archived: true,
        is_draft: true,
        updated_at: "2026-01-21".to_string(),
        created_at: "2026-01-20".to_string(),
    }
}

#[test]
fn metadata_from_query_keeps_owner_id() {
    let m = QueryMetadata::from_query(sample_query());
    assert_eq!(m.id, 42);
    assert_eq!(m.name, "Crash Rate");
    assert_eq!(m.description, Some("daily".to_string()));
    assert_eq!(m.data_source_id, 63);
    assert_eq!(m.user_id, Some(530));
    assert_eq!(m.tags, Some(vec!["tag".to_string()]));
}

#[test]
fn create_and_update_requests_from_metadata() {
    let m = QueryMetadata::from_query(sample_query());
    let c = CreateQuery::from_metadata(m, "SELECT 2".to_string());
    assert_eq!(c.name, "Crash Rate");
    assert_eq!(c.sql, "SELECT 2");
    assert!(c.options.is_some());
    assert!(!c.is_archived);
    assert!(!c.is_draft);

    let m = QueryMetadata::from_query(sample_query());
    let q = Query::from_metadata(m, "SELECT 3".to_string());
    assert_eq!(q.id, 42);
    assert_eq!(q.sql, "SELECT 3");
    assert!(q.user.is_none());
    assert!(!q.is_archived);
    assert!(!q.is_draft);
    assert_eq!(q.updated_at, "");
    assert_eq!(q.created_at, "");
}
