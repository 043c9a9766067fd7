//! The jobs of the synchronisation queue and the decisions taken while one is
//! processed: which work each job asks for, and what the processing reports.
use vstd::prelude::*;
use crate::models::{is_v4, new_uuid_v4, Article, ArticleRef, Collection};

verus! {

/// A unit of work of the queue.
#[derive(Debug)]
pub enum Job {
    SyncCollection(Collection),
    StoreCollection(Collection),
    SyncArticle(ArticleRef, Collection),
    StoreArticle(Article),
    ConvertHtmlToMarkdown(Article),
    EnqueueJobs(Vec<Job>),
}

impl Clone for Job {
    /// A copy of the job, its list of jobs copied one by one.
    fn clone(&self) -> (r: Job)
        decreases self,
    {
        match self {
            Job::SyncCollection(c) => Job::SyncCollection(c.clone()),
            Job::StoreCollection(c) => Job::StoreCollection(c.clone()),
            Job::SyncArticle(a, c) => Job::SyncArticle(a.clone(), c.clone()),
            Job::StoreArticle(a) => Job::StoreArticle(a.clone()),
            Job::ConvertHtmlToMarkdown(a) => Job::ConvertHtmlToMarkdown(a.clone()),
            Job::EnqueueJobs(jobs) => {
                let mut out: Vec<Job> = Vec::new();
                let mut i: usize = 0;
                while i < jobs.len()
                    invariant
                        i <= jobs.len(),
                        *self == Job::EnqueueJobs(*jobs),
                    decreases jobs.len() - i,
                {
                    proof {
                        let v = (*self)->EnqueueJobs_0;
                        assert(v == *jobs);
                        assert(decreases_to!(*self => v));
                        assert(decreases_to!(v => v@));
                        assert(decreases_to!(v@ => v@[i as int]));
                        assert(decreases_to!(*self => jobs@[i as int]));
                    }
                    out.push(jobs[i].clone());
                    i += 1;
                }
                Job::EnqueueJobs(out)
            },
        }
    }
}

/// Why the processing of a job failed as a whole.
#[derive(Debug, PartialEq, Eq)]
pub enum JobError {
    /// A job could not be put on the queue.
    JobEnqueue(String),
    /// An article could not be stored.
    Store(String),
}

/// What the processing of a job reports.
#[derive(Debug, PartialEq, Eq)]
pub enum JobOutcome {
    /// The job was processed under `job_id`; `result` is the work's own result.
    Processed { job_id: u128, result: Result<(), String> },
    /// The processing itself failed.
    Failed(JobError),
}

/// The next thing the caller does for the job being processed.
#[derive(Debug)]
pub enum JobAction {
    /// Prepare the synchronisation of a collection.
    PrepareSyncCollection(Collection),
    /// Synchronise (store) a collection.
    SyncCollection(Collection),
    /// Synchronise one article of a collection.
    SyncArticle(ArticleRef, Collection),
    /// Store an article.
    StoreArticle(Article),
    /// Convert an article's HTML to Markdown.
    ConvertHtmlToMarkdown(Article),
    /// Put a job on the queue.
    Enqueue(Job),
    /// The processing is over.
    Finish(JobOutcome),
}

/// Where the processing of a job stands.
#[derive(Debug)]
pub enum RunState {
    /// Waiting for the result of the work asked for; when `escalate`, a
    /// failure of that work fails the processing itself.
    Awaiting { escalate: bool },
    /// Waiting for the result of putting a job on the queue; `remaining` are
    /// the jobs still to put there, in order.
    Enqueuing { remaining: Vec<Job> },
    /// Finished.
    Done,
}

/// The processing of one job.
#[derive(Debug)]
pub struct JobRun {
    pub job_id: u128,
    pub state: RunState,
}

/// The view of where the processing of a job stands.
pub enum RunView {
    Awaiting { escalate: bool },
    Enqueuing(Seq<Job>),
    Done,
}

impl View for RunState {
    type V = RunView;

    open spec fn view(&self) -> RunView {
        match self {
            RunState::Awaiting { escalate } => RunView::Awaiting { escalate: *escalate },
            RunState::Enqueuing { remaining } => RunView::Enqueuing(remaining@),
            RunState::Done => RunView::Done,
        }
    }
}

/// How the processing of `job` under `job_id` begins: the state it is in and
/// the first thing asked for.
pub open spec fn start_step(job: Job, job_id: u128) -> (RunView, JobAction) {
    match job {
        Job::SyncCollection(c) => (
            RunView::Awaiting { escalate: false },
            JobAction::PrepareSyncCollection(c),
        ),
        Job::StoreCollection(c) => (RunView::Awaiting { escalate: false }, JobAction::SyncCollection(c)),
        Job::SyncArticle(a, c) => (RunView::Awaiting { escalate: false }, JobAction::SyncArticle(a, c)),
        Job::StoreArticle(a) => (RunView::Awaiting { escalate: true }, JobAction::StoreArticle(a)),
        Job::ConvertHtmlToMarkdown(a) => (
            RunView::Awaiting { escalate: false },
            JobAction::ConvertHtmlToMarkdown(a),
        ),
        Job::EnqueueJobs(jobs) => if jobs@.len() == 0 {
            (RunView::Done, JobAction::Finish(JobOutcome::Processed { job_id, result: Ok(()) }))
        } else {
            (RunView::Enqueuing(jobs@.drop_first()), JobAction::Enqueue(jobs@[0]))
        },
    }
}

/// The next state and request once `result` comes back in `state`.
pub open spec fn resume_step(state: RunView, job_id: u128, result: Result<(), String>) -> (
    RunView,
    JobAction,
) {
    match state {
        RunView::Awaiting { escalate } => (
            RunView::Done,
            JobAction::Finish(
                match result {
                    Err(e) => if escalate {
                        JobOutcome::Failed(JobError::Store(e))
                    } else {
                        JobOutcome::Processed { job_id, result: Err(e) }
                    },
                    Ok(()) => JobOutcome::Processed { job_id, result: Ok(()) },
                },
            ),
        ),
        RunView::Enqueuing(remaining) => match result {
            Err(e) => (RunView::Done, JobAction::Finish(JobOutcome::Failed(JobError::JobEnqueue(e)))),
            Ok(()) => if remaining.len() == 0 {
                (RunView::Done, JobAction::Finish(JobOutcome::Processed { job_id, result: Ok(()) }))
            } else {
                (RunView::Enqueuing(remaining.drop_first()), JobAction::Enqueue(remaining[0]))
            },
        },
        RunView::Done => (RunView::Done, JobAction::Finish(JobOutcome::Processed { job_id, result: Ok(()) })),
    }
}

/// The state after `k` successful results from `state`.
pub open spec fn after_successes(state: RunView, job_id: u128, k: nat) -> RunView
    decreases k,
{
    if k == 0 {
        state
    } else {
        resume_step(after_successes(state, job_id, (k - 1) as nat), job_id, Ok(())).0
    }
}

/// The result of a job's work decides its outcome: success is reported as the
/// job's success under its identifier; a failure of the work is reported as
/// the job's own result, and the processing itself succeeds, for every kind
/// of work but storing an article, whose failure fails the processing.
pub proof fn lemma_work_result_outcome(job: Job, job_id: u128, e: String)
    requires
        !(job is EnqueueJobs),
    ensures
        resume_step(start_step(job, job_id).0, job_id, Ok(())) == (
            RunView::Done,
            JobAction::Finish(JobOutcome::Processed { job_id, result: Ok(()) }),
        ),
        job is StoreArticle ==> resume_step(start_step(job, job_id).0, job_id, Err(e)) == (
            RunView::Done,
            JobAction::Finish(JobOutcome::Failed(JobError::Store(e))),
        ),
        !(job is StoreArticle) ==> resume_step(start_step(job, job_id).0, job_id, Err(e)) == (
            RunView::Done,
            JobAction::Finish(JobOutcome::Processed { job_id, result: Err(e) }),
        ),
{
}

/// Processing a list of jobs puts them on the queue one after another, in
/// their order: after the first `k` of them were enqueued, the `k`-th is asked
/// for next, and after all of them the processing succeeds; a failure to
/// enqueue ends the processing with that failure.
pub proof fn lemma_enqueue_in_order(jobs: Vec<Job>, job_id: u128, k: nat)
    requires
        k < jobs@.len(),
    ensures
        start_step(Job::EnqueueJobs(jobs), job_id) == (RunView::Enqueuing(jobs@.drop_first()), JobAction::Enqueue(jobs@[0])),
        after_successes(RunView::Enqueuing(jobs@.drop_first()), job_id, k) == RunView::Enqueuing(
            jobs@.skip(k as int + 1),
        ),
        k + 1 < jobs@.len() ==> resume_step(
            after_successes(RunView::Enqueuing(jobs@.drop_first()), job_id, k),
            job_id,
            Ok(()),
        ).1 == JobAction::Enqueue(jobs@[k as int + 1]),
        k + 1 == jobs@.len() ==> resume_step(
            after_successes(RunView::Enqueuing(jobs@.drop_first()), job_id, k),
            job_id,
            Ok(()),
        ) == (RunView::Done, JobAction::Finish(JobOutcome::Processed { job_id, result: Ok(()) })),
        forall|e: String|
            #[trigger] resume_step(
                after_successes(RunView::Enqueuing(jobs@.drop_first()), job_id, k),
                job_id,
                Err::<(), String>(e),
            ) == (RunView::Done, JobAction::Finish(JobOutcome::Failed(JobError::JobEnqueue(e)))),
    decreases k,
{
    if k == 0 {
        assert(jobs@.drop_first() =~= jobs@.skip(1));
    } else {
        lemma_enqueue_in_order(jobs, job_id, (k - 1) as nat);
        assert(jobs@.skip(k as int).drop_first() =~= jobs@.skip(k as int + 1));
    }
    let rest = jobs@.skip(k as int + 1);
    if k + 1 < jobs@.len() {
        assert(rest[0] == jobs@[k as int + 1]);
    } else {
        assert(rest.len() == 0);
    }
}

impl Job {
    /// Starts processing the job under a fresh identifier and says what to do
    /// first: the work the job stands for, or, for a list of jobs, putting
    /// the first of them on the queue.
    pub fn start_processing(self) -> (r: (JobRun, JobAction))
        ensures
            is_v4(r.0.job_id),
            (r.0.state@, r.1) == start_step(self, r.0.job_id),
    {
        let job_id = new_uuid_v4();
        match self {
            Job::SyncCollection(c) => (
                JobRun { job_id, state: RunState::Awaiting { escalate: false } },
                JobAction::PrepareSyncCollection(c),
            ),
            Job::StoreCollection(c) => (
                JobRun { job_id, state: RunState::Awaiting { escalate: false } },
                JobAction::SyncCollection(c),
            ),
            Job::SyncArticle(a, c) => (
                JobRun { job_id, state: RunState::Awaiting { escalate: false } },
                JobAction::SyncArticle(a, c),
            ),
            Job::StoreArticle(a) => (
                JobRun { job_id, state: RunState::Awaiting { escalate: true } },
                JobAction::StoreArticle(a),
            ),
            Job::ConvertHtmlToMarkdown(a) => (
                JobRun { job_id, state: RunState::Awaiting { escalate: false } },
                JobAction::ConvertHtmlToMarkdown(a),
            ),
            Job::EnqueueJobs(jobs) => {
                let mut remaining = jobs;
                if remaining.len() == 0 {
                    (
                        JobRun { job_id, state: RunState::Done },
                        JobAction::Finish(JobOutcome::Processed { job_id, result: Ok(()) }),
                    )
                } else {
                    let first = remaining.remove(0);
                    (
                        JobRun { job_id, state: RunState::Enqueuing { remaining } },
                        JobAction::Enqueue(first),
                    )
                }
            },
        }
    }
}

impl JobRun {
    /// Takes the result of the work or of the enqueueing last asked for and
    /// says what to do next. The work's own result is reported as it is,
    /// except that a failed store fails the processing; a failed enqueueing
    /// fails the processing at once, and after the last job is enqueued the
    /// processing reports success.
    pub fn resume(self, result: Result<(), String>) -> (r: (JobRun, JobAction))
        requires
            !(self.state is Done),
        ensures
            r.0.job_id == self.job_id,
            (r.0.state@, r.1) == resume_step(self.state@, self.job_id, result),
    {
        let job_id = self.job_id;
        match self.state {
            RunState::Awaiting { escalate } => {
                let outcome = match result {
                    Err(e) => if escalate {
                        JobOutcome::Failed(JobError::Store(e))
                    } else {
                        JobOutcome::Processed { job_id, result: Err(e) }
                    },
                    Ok(()) => JobOutcome::Processed { job_id, result: Ok(()) },
                };
                (JobRun { job_id, state: RunState::Done }, JobAction::Finish(outcome))
            },
            RunState::Enqueuing { remaining } => match result {
                Err(e) => (
                    JobRun { job_id, state: RunState::Done },
                    JobAction::Finish(JobOutcome::Failed(JobError::JobEnqueue(e))),
                ),
                Ok(()) => {
                    let mut remaining = remaining;
                    if remaining.len() == 0 {
                        (
                            JobRun { job_id, state: RunState::Done },
                            JobAction::Finish(JobOutcome::Processed { job_id, result: Ok(()) }),
                        )
                    } else {
                        let next = remaining.remove(0);
                        (
                            JobRun { job_id, state: RunState::Enqueuing { remaining } },
                            JobAction::Enqueue(next),
                        )
                    }
                },
            },
            RunState::Done => (JobRun { job_id, state: RunState::Done }, JobAction::Finish(
                JobOutcome::Processed { job_id, result: Ok(()) },
            )),
        }
    }
}

}
