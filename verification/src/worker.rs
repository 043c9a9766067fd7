//! The decisions of a synchronisation worker: under which key a job's status
//! is kept and which statuses a finished job is given, in order.
use vstd::prelude::*;
use crate::models::{uuid_text, uuid_to_string, ArticleRef, Collection};

verus! {

broadcast use vstd::string::group_string_axioms;

/// A job of the synchronisation workers.
#[derive(Debug)]
pub enum SyncJob {
    SyncCollection(Collection),
    SyncArticle(ArticleRef, Collection),
}

/// The status of a job.
#[derive(Debug, PartialEq, Eq)]
pub enum JobStatus {
    Running,
    Completed,
    Failed(String),
}

/// The key of a job: the collection's identifier as text, or the article's
/// identifier.
pub open spec fn sync_job_key(job: SyncJob) -> Seq<char> {
    match job {
        SyncJob::SyncCollection(c) => uuid_text(c.id),
        SyncJob::SyncArticle(a, _) => a.id@,
    }
}

/// The message kept for a failed job.
pub open spec fn failure_message(error: Seq<char>) -> Seq<char> {
    "Sync job failed: "@ + error
}

impl SyncJob {
    /// The key under which the job's status is kept.
    pub fn job_id(&self) -> (id: String)
        ensures
            id@ == sync_job_key(*self),
    {
        match self {
            SyncJob::SyncCollection(c) => uuid_to_string(c.id),
            SyncJob::SyncArticle(a, _) => a.id.clone(),
        }
    }

    /// The status updates of a job whose synchronisation ended with `result`,
    /// in the order they are made: first `Running`, then `Completed` or the
    /// failure with its message.
    pub fn status_updates(&self, result: Result<(), String>) -> (u: Vec<(String, JobStatus)>)
        ensures
            u.len() == 2,
            u[0].0@ == sync_job_key(*self),
            u[1].0@ == sync_job_key(*self),
            u[0].1 == JobStatus::Running,
            match result {
                Ok(()) => u[1].1 == JobStatus::Completed,
                Err(e) => u[1].1 matches JobStatus::Failed(m) && m@ == failure_message(e@),
            },
    {
        let mut u: Vec<(String, JobStatus)> = Vec::new();
        u.push((self.job_id(), JobStatus::Running));
        let last = match result {
            Ok(()) => JobStatus::Completed,
            Err(e) => {
                let mut m = "Sync job failed: ".to_owned();
                m.append(e.as_str());
                JobStatus::Failed(m)
            },
        };
        u.push((self.job_id(), last));
        u
    }
}

}
