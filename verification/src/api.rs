//! The decisions taken between the calls to the Redash API: when to stop
//! paging through the caller's queries, and what to do after each poll of a
//! query-execution job.
use vstd::prelude::*;
use crate::models::{job_status_of, InvalidJobStatus, Job, JobStatus};
use crate::text::{chars_of, decimal, extend_chars, push_decimal, string_of};

verus! {

/// The size of the pages in which the caller's queries are listed.
pub const QUERIES_PAGE_SIZE: u32 = 100;

/// The page to ask for after one that brought `results_len` queries, when
/// `fetched_total` have arrived in all and the server counts `count`: none
/// when the page was empty or all counted queries have arrived.
pub open spec fn page_after(results_len: usize, fetched_total: usize, count: u64, page: u32) -> Option<u32> {
    if results_len == 0 || fetched_total >= count as usize {
        None
    } else {
        Some((page + 1) as u32)
    }
}

/// Decides whether to ask for another page of the caller's queries, and
/// which.
pub fn next_page(results_len: usize, fetched_total: usize, count: u64, page: u32) -> (r: Option<u32>)
    requires
        results_len == 0 || fetched_total >= count as usize || page < u32::MAX,
    ensures
        r == page_after(results_len, fetched_total, count, page),
{
    if results_len == 0 {
        return None;
    }
    if fetched_total >= count as usize {
        return None;
    }
    Some(page + 1)
}

/// Paging goes on while it has something to fetch: after a non-empty page,
/// as long as fewer queries have arrived in all (this page included) than
/// the server counts, the next page is asked for.
pub proof fn lemma_paging_continues_until_all_arrived(results_len: usize, fetched_total: usize, count: u64, page: u32)
    requires
        results_len > 0,
        fetched_total < count as usize,
        page < u32::MAX,
    ensures
        page_after(results_len, fetched_total, count, page) == Some((page + 1) as u32),
        (page + 1) as u32 == page + 1,
{
}

/// Paging stops after an empty page, and once every query the server counts
/// has arrived.
pub proof fn lemma_paging_stops(results_len: usize, fetched_total: usize, count: u64, page: u32)
    requires
        results_len == 0 || fetched_total >= count as usize,
    ensures
        page_after(results_len, fetched_total, count, page) is None,
{
}

/// What to do after looking at a job.
#[derive(Debug, Clone, Copy, PartialEq, Eq, Structural)]
pub enum PollStep {
    /// The job succeeded: fetch the result with this id.
    FetchResult(u64),
    /// The job is still pending or running: wait and poll again.
    Wait,
}

/// Why a query execution ended without a result.
#[derive(Debug)]
pub enum ExecutionError {
    /// The time allowed, in seconds, ran out.
    TimedOut(u64),
    /// The job reported a status code outside 1 to 5.
    InvalidStatus(InvalidJobStatus),
    /// The job succeeded but named no result.
    MissingResultId,
    /// The job failed, with this message.
    Failed(String),
    /// The job was cancelled.
    Cancelled,
}

/// The message of a failed job: its error, or `Unknown error`.
pub open spec fn failure_message(error: Option<String>) -> Seq<char> {
    match error {
        Some(e) => e@,
        None => "Unknown error"@,
    }
}

/// What happens after a look at `job`: a timeout when the time has run out;
/// otherwise the job's status decides: waiting while it is pending or
/// started, fetching its result when it succeeded, and an error when it
/// failed, was cancelled, or has no valid status.
pub open spec fn poll_outcome(job: Job, timed_out: bool, timeout_secs: u64, r: Result<
    PollStep,
    ExecutionError,
>) -> bool {
    if timed_out {
        r matches Err(ExecutionError::TimedOut(t)) && t == timeout_secs
    } else {
        match job_status_of(job.status) {
            None => r matches Err(ExecutionError::InvalidStatus(e)) && e.status == job.status,
            Some(JobStatus::Pending) => r == Ok::<PollStep, ExecutionError>(PollStep::Wait),
            Some(JobStatus::Started) => r == Ok::<PollStep, ExecutionError>(PollStep::Wait),
            Some(JobStatus::Success) => match job.query_result_id {
                Some(id) => r == Ok::<PollStep, ExecutionError>(PollStep::FetchResult(id)),
                None => r matches Err(ExecutionError::MissingResultId),
            },
            Some(JobStatus::Failure) => r matches Err(ExecutionError::Failed(m)) && m@ == failure_message(
                job.error,
            ),
            Some(JobStatus::Cancelled) => r matches Err(ExecutionError::Cancelled),
        }
    }
}

/// Decides what to do after polling a job.
pub fn poll_step(job: &Job, timed_out: bool, timeout_secs: u64) -> (r: Result<PollStep, ExecutionError>)
    ensures
        poll_outcome(*job, timed_out, timeout_secs, r),
{
    if timed_out {
        return Err(ExecutionError::TimedOut(timeout_secs));
    }
    match JobStatus::from_u8(job.status) {
        Err(e) => Err(ExecutionError::InvalidStatus(e)),
        Ok(JobStatus::Success) => match job.query_result_id {
            Some(id) => Ok(PollStep::FetchResult(id)),
            None => Err(ExecutionError::MissingResultId),
        },
        Ok(JobStatus::Failure) => {
            let message = match &job.error {
                Some(e) => e.clone(),
                None => {
                    let c = chars_of("Unknown error");
                    string_of(&c)
                },
            };
            Err(ExecutionError::Failed(message))
        },
        Ok(JobStatus::Cancelled) => Err(ExecutionError::Cancelled),
        Ok(JobStatus::Pending) => Ok(PollStep::Wait),
        Ok(JobStatus::Started) => Ok(PollStep::Wait),
    }
}

/// Once the time allowed has run out, the execution ends with a timeout
/// naming that time, whatever the job's status, result or error.
pub proof fn lemma_timeout_ends_execution(
    job: Job,
    timeout_secs: u64,
    r: Result<PollStep, ExecutionError>,
)
    requires
        poll_outcome(job, true, timeout_secs, r),
    ensures
        (r matches Err(ExecutionError::TimedOut(t)) && t == timeout_secs),
{
}

/// Within the time allowed, the job's status code decides: pending (1) or
/// started (2) is polled again; succeeded (3) fetches its result, or fails
/// when it names none; failed (4) ends with the job's error, or `Unknown
/// error`; cancelled (5) ends as cancelled; any other code is invalid.
pub proof fn lemma_running_job_waits_and_success_fetches(
    job: Job,
    timeout_secs: u64,
    r: Result<PollStep, ExecutionError>,
)
    requires
        poll_outcome(job, false, timeout_secs, r),
    ensures
        job.status == 1 || job.status == 2 ==> r == Ok::<PollStep, ExecutionError>(PollStep::Wait),
        job.status == 3 ==> match job.query_result_id {
            Some(id) => r == Ok::<PollStep, ExecutionError>(PollStep::FetchResult(id)),
            None => r matches Err(ExecutionError::MissingResultId),
        },
        job.status == 4 ==> (r matches Err(ExecutionError::Failed(m)) && m@ == match job.error {
            Some(e) => e@,
            None => seq!['U', 'n', 'k', 'n', 'o', 'w', 'n', ' ', 'e', 'r', 'r', 'o', 'r'],
        }),
        job.status == 5 ==> (r matches Err(ExecutionError::Cancelled)),
        (job.status == 0 || job.status > 5) ==> (r matches Err(ExecutionError::InvalidStatus(e)) && e.status
            == job.status),
{
    reveal_strlit("Unknown error");
    assert("Unknown error"@ =~= seq!['U', 'n', 'k', 'n', 'o', 'w', 'n', ' ', 'e', 'r', 'r', 'o', 'r']);
}

/// The message that explains why an execution ended.
pub open spec fn execution_message(e: ExecutionError) -> Seq<char> {
    match e {
        ExecutionError::TimedOut(t) => "Query execution timed out after "@ + decimal(t as nat) + " seconds"@,
        ExecutionError::InvalidStatus(s) => "Invalid job status: "@ + decimal(s.status as nat),
        ExecutionError::MissingResultId => "Job succeeded but no result_id returned"@,
        ExecutionError::Failed(m) => "Query execution failed: "@ + m@,
        ExecutionError::Cancelled => "Query execution was cancelled"@,
    }
}

impl ExecutionError {
    /// The message that explains why the execution ended.
    pub fn to_string(&self) -> (r: String)
        ensures
            r@ == execution_message(*self),
    {
        match self {
            ExecutionError::TimedOut(t) => {
                let mut out = chars_of("Query execution timed out after ");
                push_decimal(&mut out, *t);
                let tail = chars_of(" seconds");
                extend_chars(&mut out, &tail);
                string_of(&out)
            },
            ExecutionError::InvalidStatus(s) => s.to_string(),
            ExecutionError::MissingResultId => {
                let c = chars_of("Job succeeded but no result_id returned");
                string_of(&c)
            },
            ExecutionError::Failed(m) => {
                let mut out = chars_of("Query execution failed: ");
                let tail = chars_of(m.as_str());
                extend_chars(&mut out, &tail);
                string_of(&out)
            },
            ExecutionError::Cancelled => {
                let c = chars_of("Query execution was cancelled");
                string_of(&c)
            },
        }
    }
}

/// The value of the `Authorization` header that carries an API key.
pub fn authorization_value(api_key: &str) -> (r: String)
    ensures
        r@ == "Key "@ + api_key@,
{
    let mut out = chars_of("Key ");
    let k = chars_of(api_key);
    extend_chars(&mut out, &k);
    string_of(&out)
}

/// `base` followed by the literal `path`.
fn url_with(base: &str, path: &str) -> (r: Vec<char>)
    ensures
        r@ == base@ + path@,
{
    let mut out = chars_of(base);
    let p = chars_of(path);
    extend_chars(&mut out, &p);
    out
}

/// The URL of one page of the caller's own queries.
pub fn my_queries_url(base: &str, page: u32, page_size: u32) -> (r: String)
    ensures
        r@ == base@ + "/api/queries/my?page="@ + decimal(page as nat) + "&page_size="@ + decimal(
            page_size as nat,
        ),
{
    let mut out = url_with(base, "/api/queries/my?page=");
    push_decimal(&mut out, page as u64);
    let p = chars_of("&page_size=");
    extend_chars(&mut out, &p);
    push_decimal(&mut out, page_size as u64);
    string_of(&out)
}

/// The URL that creates queries.
pub fn queries_url(base: &str) -> (r: String)
    ensures
        r@ == base@ + "/api/queries"@,
{
    let out = url_with(base, "/api/queries");
    string_of(&out)
}

/// The URL of one query, which reads it and, posted to, updates it.
pub fn query_url(base: &str, query_id: u64) -> (r: String)
    ensures
        r@ == base@ + "/api/queries/"@ + decimal(query_id as nat),
{
    let mut out = url_with(base, "/api/queries/");
    push_decimal(&mut out, query_id);
    string_of(&out)
}

/// The URL that starts an execution of a query.
pub fn query_results_url(base: &str, query_id: u64) -> (r: String)
    ensures
        r@ == base@ + "/api/queries/"@ + decimal(query_id as nat) + "/results"@,
{
    let mut out = url_with(base, "/api/queries/");
    push_decimal(&mut out, query_id);
    let p = chars_of("/results");
    extend_chars(&mut out, &p);
    string_of(&out)
}

/// The URL of one result of a query, as JSON.
pub fn query_result_url(base: &str, query_id: u64, result_id: u64) -> (r: String)
    ensures
        r@ == base@ + "/api/queries/"@ + decimal(query_id as nat) + "/results/"@ + decimal(result_id as nat)
            + ".json"@,
{
    let mut out = url_with(base, "/api/queries/");
    push_decimal(&mut out, query_id);
    let p = chars_of("/results/");
    extend_chars(&mut out, &p);
    push_decimal(&mut out, result_id);
    let j = chars_of(".json");
    extend_chars(&mut out, &j);
    string_of(&out)
}

/// The URL of a job.
pub fn job_url(base: &str, job_id: &str) -> (r: String)
    ensures
        r@ == base@ + "/api/jobs/"@ + job_id@,
{
    let mut out = url_with(base, "/api/jobs/");
    let j = chars_of(job_id);
    extend_chars(&mut out, &j);
    string_of(&out)
}

/// The URL that creates visualizations.
pub fn visualizations_url(base: &str) -> (r: String)
    ensures
        r@ == base@ + "/api/visualizations"@,
{
    let out = url_with(base, "/api/visualizations");
    string_of(&out)
}

/// The URL of one visualization, which, posted to, updates it.
pub fn visualization_url(base: &str, visualization_id: u64) -> (r: String)
    ensures
        r@ == base@ + "/api/visualizations/"@ + decimal(visualization_id as nat),
{
    let mut out = url_with(base, "/api/visualizations/");
    push_decimal(&mut out, visualization_id);
    string_of(&out)
}

} // verus!
