//! Health reporting: the status record the health endpoint returns and
//! the summary computed from connectivity-test reports.

use vstd::prelude::*;

verus! {

/// What the health endpoint reports.
#[derive(Debug)]
pub struct HealthResponse {
    pub status: String,
    pub database: String,
    pub posts_count: usize,
    pub projects_count: usize,
}

/// Builds the health report: the service reports itself up, the database
/// field reflects whether its ping succeeded, and the counts are passed
/// through.
pub fn health_response(db_ok: bool, posts_count: usize, projects_count: usize) -> (r:
    HealthResponse)
    ensures
        r.status@ == "ok"@,
        db_ok ==> r.database@ == "ok"@,
        !db_ok ==> r.database@ == "error"@,
        r.posts_count == posts_count,
        r.projects_count == projects_count,
{
    HealthResponse {
        status: String::from_str("ok"),
        database: if db_ok {
            String::from_str("ok")
        } else {
            String::from_str("error")
        },
        posts_count,
        projects_count,
    }
}

/// One connectivity measurement from a reporting client.
#[derive(Debug)]
pub struct CdnTestResult {
    pub name: String,
    pub url: String,
    pub success: bool,
    pub timing_ms: u32,
    pub error: Option<String>,
}

/// A client's batch of connectivity measurements.
#[derive(Debug)]
pub struct CdnReportRequest {
    pub timestamp: String,
    pub user_agent: String,
    pub results: Vec<CdnTestResult>,
}

/// What the report endpoint answers.
#[derive(Debug)]
pub struct ReportResponse {
    pub status: String,
}

/// How many measurements in a prefix succeeded.
pub open spec fn successes_in(rs: Seq<CdnTestResult>) -> nat
    decreases rs.len(),
{
    if rs.len() == 0 {
        0
    } else {
        successes_in(rs.drop_last()) + (if rs.last().success {
            1nat
        } else {
            0nat
        })
    }
}

/// Counts the successful measurements of a report.
pub fn cdn_success_count(results: &Vec<CdnTestResult>) -> (r: usize)
    ensures
        r == successes_in(results@),
        r <= results@.len(),
{
    let n = results.len();
    let mut count: usize = 0;
    let mut i: usize = 0;
    while i < n
        invariant
            n == results@.len(),
            i <= n,
            count == successes_in(results@.subrange(0, i as int)),
            count <= i,
        decreases n - i,
    {
        proof {
            assert(results@.subrange(0, i + 1).drop_last() =~= results@.subrange(0, i as int));
            assert(results@.subrange(0, i + 1).last() == results@[i as int]);
        }
        if results[i].success {
            count = count + 1;
        }
        i = i + 1;
    }
    proof {
        assert(results@.subrange(0, n as int) =~= results@);
    }
    count
}

/// The acknowledgement the report endpoint returns.
pub fn report_acknowledged() -> (r: ReportResponse)
    ensures
        r.status@ == "ok"@,
{
    ReportResponse { status: String::from_str("ok") }
}

} // verus!
