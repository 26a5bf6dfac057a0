//! The records exchanged with Redash and kept in the metadata files, and the
//! status codes of query-execution jobs.
use vstd::prelude::*;
use crate::text::{chars_of, decimal, push_decimal, string_of};
use crate::by_id::{entries_with_id, sort_by_id, sorted_by_id, Identified};

verus! {

/// A JSON value of `serde_json`, carried through unchanged.
#[verifier::external_type_specification]
#[verifier::external_body]
pub struct ExJsonValue(serde_json::Value);

/// A saved query as Redash returns it.
#[derive(Debug)]
pub struct Query {
    pub id: u64,
    pub name: String,
    pub description: Option<String>,
    pub sql: String,
    pub data_source_id: u64,
    pub user: Option<QueryUser>,
    pub schedule: Option<Schedule>,
    pub options: QueryOptions,
    pub visualizations: Vec<Visualization>,
    pub tags: Option<Vec<String>>,
    pub is_archived: bool,
    pub is_draft: bool,
    pub updated_at: String,
    pub created_at: String,
}

/// The body of a request that creates a query.
#[derive(Debug)]
pub struct CreateQuery {
    pub name: String,
    pub description: Option<String>,
    pub sql: String,
    pub data_source_id: u64,
    pub schedule: Option<Schedule>,
    pub options: Option<QueryOptions>,
    pub tags: Option<Vec<String>>,
    pub is_archived: bool,
    pub is_draft: bool,
}

/// The owner of a query.
#[derive(Debug, Clone)]
pub struct QueryUser {
    pub id: u64,
    pub name: String,
    pub email: String,
}

/// The options of a query: its parameters.
#[derive(Debug)]
pub struct QueryOptions {
    pub parameters: Vec<Parameter>,
}

/// A query parameter.
#[derive(Debug)]
pub struct Parameter {
    pub name: String,
    pub title: String,
    pub param_type: String,
    pub value: Option<serde_json::Value>,
    pub enum_options: Option<String>,
    pub query_id: Option<u64>,
    pub multi_values_options: Option<MultiValuesOptions>,
}

/// How the values of a multi-valued parameter are written into the SQL.
#[derive(Debug, Clone)]
pub struct MultiValuesOptions {
    pub prefix: Option<String>,
    pub suffix: Option<String>,
    pub separator: Option<String>,
    pub quote_character: Option<String>,
}

/// When a query is refreshed on its own.
#[derive(Debug, Clone)]
pub struct Schedule {
    pub interval: Option<u64>,
    pub time: Option<String>,
    pub day_of_week: Option<String>,
    pub until: Option<String>,
}

/// A visualization of a query's results.
#[derive(Debug)]
pub struct Visualization {
    pub id: u64,
    pub name: String,
    pub viz_type: String,
    pub options: serde_json::Value,
    pub description: Option<String>,
}

/// The body of a request that creates a visualization.
#[derive(Debug)]
pub struct CreateVisualization {
    pub query_id: u64,
    pub name: String,
    pub viz_type: String,
    pub options: serde_json::Value,
    pub description: Option<String>,
}

/// One page of the caller's own queries.
#[derive(Debug)]
pub struct QueriesResponse {
    pub results: Vec<Query>,
    pub count: u64,
    pub page: u64,
    pub page_size: u64,
}

/// What a query's `.yaml` file holds.
#[derive(Debug)]
pub struct QueryMetadata {
    pub id: u64,
    pub name: String,
    pub description: Option<String>,
    pub data_source_id: u64,
    pub user_id: Option<u64>,
    pub schedule: Option<Schedule>,
    pub options: QueryOptions,
    pub visualizations: Vec<Visualization>,
    pub tags: Option<Vec<String>>,
}

/// A Redash user.
#[derive(Debug, Clone)]
pub struct User {
    pub id: u64,
    pub name: String,
    pub email: String,
    pub profile_image_url: Option<String>,
}

/// A data source that queries run against.
#[derive(Debug)]
pub struct DataSource {
    pub id: u64,
    pub name: String,
    pub ds_type: String,
    pub syntax: Option<String>,
    pub description: Option<String>,
    pub paused: u8,
    pub pause_reason: Option<String>,
    pub view_only: bool,
    pub queue_name: Option<String>,
    pub scheduled_queue_name: Option<String>,
    pub groups: Option<serde_json::Value>,
    pub options: Option<serde_json::Value>,
}

/// The tables of a data source.
#[derive(Debug)]
pub struct DataSourceSchema {
    pub schema: Vec<SchemaTable>,
}

/// A table and its columns.
#[derive(Debug)]
pub struct SchemaTable {
    pub name: String,
    pub columns: Vec<String>,
}

/// The answer to a refresh or a poll: the job.
#[derive(Debug)]
pub struct JobResponse {
    pub job: Job,
}

/// A query-execution job.
#[derive(Debug)]
pub struct Job {
    pub id: String,
    pub status: u8,
    pub query_result_id: Option<u64>,
    pub error: Option<String>,
}

/// The rows of a query result.
#[derive(Debug)]
pub struct QueryResultData {
    pub columns: Vec<Column>,
    pub rows: Vec<serde_json::Value>,
}

/// A column of a query result.
#[derive(Debug)]
pub struct Column {
    pub name: String,
    pub column_type: String,
    pub friendly_name: Option<String>,
}

/// The state of a query-execution job, as Redash numbers it from 1 to 5.
#[derive(Debug, Clone, Copy, PartialEq, Eq, Structural)]
pub enum JobStatus {
    Pending,
    Started,
    Success,
    Failure,
    Cancelled,
}

/// A job status code outside 1 to 5.
#[derive(Debug, Clone, Copy, PartialEq, Eq, Structural)]
pub struct InvalidJobStatus {
    pub status: u8,
}

/// The status that a code stands for, if any.
pub open spec fn job_status_of(status: u8) -> Option<JobStatus> {
    if status == 1 {
        Some(JobStatus::Pending)
    } else if status == 2 {
        Some(JobStatus::Started)
    } else if status == 3 {
        Some(JobStatus::Success)
    } else if status == 4 {
        Some(JobStatus::Failure)
    } else if status == 5 {
        Some(JobStatus::Cancelled)
    } else {
        None
    }
}

impl JobStatus {
    /// Reads a job status code: 1 pending, 2 started, 3 success, 4 failure,
    /// 5 cancelled; any other code is refused.
    pub fn from_u8(status: u8) -> (r: Result<JobStatus, InvalidJobStatus>)
        ensures
            match job_status_of(status) {
                Some(s) => r == Ok::<JobStatus, InvalidJobStatus>(s),
                None => r == Err::<JobStatus, InvalidJobStatus>(InvalidJobStatus { status }),
            },
    {
        match status {
            1 => Ok(JobStatus::Pending),
            2 => Ok(JobStatus::Started),
            3 => Ok(JobStatus::Success),
            4 => Ok(JobStatus::Failure),
            5 => Ok(JobStatus::Cancelled),
            _ => Err(InvalidJobStatus { status }),
        }
    }
}

impl InvalidJobStatus {
    /// The message `Invalid job status: {status}`.
    pub fn to_string(&self) -> (r: String)
        ensures
            r@ == "Invalid job status: "@ + decimal(self.status as nat),
    {
        let mut out = chars_of("Invalid job status: ");
        push_decimal(&mut out, self.status as u64);
        string_of(&out)
    }
}

/// The id of a query's owner, if it has one.
pub open spec fn owner_id(user: Option<QueryUser>) -> Option<u64> {
    match user {
        Some(u) => Some(u.id),
        None => None,
    }
}

impl QueryMetadata {
    /// The metadata file's content for a query fetched from Redash: all its
    /// fields but the SQL, the flags and the dates, with the owner kept by id.
    pub fn from_query(query: Query) -> (m: QueryMetadata)
        ensures
            m.id == query.id,
            m.name == query.name,
            m.description == query.description,
            m.data_source_id == query.data_source_id,
            m.user_id == owner_id(query.user),
            m.schedule == query.schedule,
            m.options == query.options,
            m.visualizations == query.visualizations,
            m.tags == query.tags,
    {
        let user_id = match &query.user {
            Some(u) => Some(u.id),
            None => None,
        };
        QueryMetadata {
            id: query.id,
            name: query.name,
            description: query.description,
            data_source_id: query.data_source_id,
            user_id,
            schedule: query.schedule,
            options: query.options,
            visualizations: query.visualizations,
            tags: query.tags,
        }
    }
}

impl CreateQuery {
    /// The request that creates a new query from a metadata file and its SQL:
    /// not archived, not a draft, with the file's options.
    pub fn from_metadata(metadata: QueryMetadata, sql: String) -> (c: CreateQuery)
        ensures
            c.name == metadata.name,
            c.description == metadata.description,
            c.sql == sql,
            c.data_source_id == metadata.data_source_id,
            c.schedule == metadata.schedule,
            c.options == Some(metadata.options),
            c.tags == metadata.tags,
            !c.is_archived,
            !c.is_draft,
    {
        CreateQuery {
            name: metadata.name,
            description: metadata.description,
            sql,
            data_source_id: metadata.data_source_id,
            schedule: metadata.schedule,
            options: Some(metadata.options),
            tags: metadata.tags,
            is_archived: false,
            is_draft: false,
        }
    }
}

impl Query {
    /// The query that overwrites an existing one on Redash from a metadata
    /// file and its SQL: not archived, not a draft, no owner and no dates.
    pub fn from_metadata(metadata: QueryMetadata, sql: String) -> (q: Query)
        ensures
            q.id == metadata.id,
            q.name == metadata.name,
            q.description == metadata.description,
            q.sql == sql,
            q.data_source_id == metadata.data_source_id,
            q.user is None,
            q.schedule == metadata.schedule,
            q.options == metadata.options,
            q.visualizations == metadata.visualizations,
            q.tags == metadata.tags,
            !q.is_archived,
            !q.is_draft,
            q.updated_at@.len() == 0,
            q.created_at@.len() == 0,
    {
        Query {
            id: metadata.id,
            name: metadata.name,
            description: metadata.description,
            sql,
            data_source_id: metadata.data_source_id,
            user: None,
            schedule: metadata.schedule,
            options: metadata.options,
            visualizations: metadata.visualizations,
            tags: metadata.tags,
            is_archived: false,
            is_draft: false,
            updated_at: String::new(),
            created_at: String::new(),
        }
    }
}


impl Identified for Visualization {
    open spec fn key_id(&self) -> u64 {
        self.id
    }

    fn id_key(&self) -> (r: u64) {
        self.id
    }
}

impl QueryMetadata {
    /// The metadata file written back once a query is deployed: that of the
    /// query as Redash now has it, with its visualizations in increasing
    /// order of id (those with equal ids in the order they came).
    pub fn after_deploy(query: Query) -> (m: QueryMetadata)
        ensures
            m.id == query.id,
            m.name == query.name,
            m.description == query.description,
            m.data_source_id == query.data_source_id,
            m.user_id == owner_id(query.user),
            m.schedule == query.schedule,
            m.options == query.options,
            m.tags == query.tags,
            sorted_by_id(m.visualizations@),
            forall|k: u64| entries_with_id(m.visualizations@, k) == entries_with_id(query.visualizations@, k),
    {
        let user_id = match &query.user {
            Some(u) => Some(u.id),
            None => None,
        };
        QueryMetadata {
            id: query.id,
            name: query.name,
            description: query.description,
            data_source_id: query.data_source_id,
            user_id,
            schedule: query.schedule,
            options: query.options,
            visualizations: sort_by_id(query.visualizations),
            tags: query.tags,
        }
    }
}

} // verus!
