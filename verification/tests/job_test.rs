use backend::job::{Job, JobAction, JobError, JobOutcome, RunState};
use backend::models::{Article, ArticleRef, Collection};

fn collection(name: &str) -> Collection {
    Collection::new(name.into(), None, name.into(), name.into())
}

fn article(title: &str) -> Article {
    Article::new(1, "h".into(), None, title.into(), title.into(), None)
}

#[test]
fn each_job_asks_for_its_work() {
    let (_, a) = Job::SyncCollection(collection("c")).start_processing();
    assert!(matches!(a, JobAction::PrepareSyncCollection(c) if c.name == "c"));
    let (_, a) = Job::StoreCollection(collection("c")).start_processing();
    assert!(matches!(a, JobAction::SyncCollection(_)));
    let (_, a) = Job::SyncArticle(ArticleRef { id: "r".into(), name: "n".into() }, collection("c")).start_processing();
    assert!(matches!(a, JobAction::SyncArticle(r, _) if r.id == "r"));
    let (_, a) = Job::StoreArticle(article("t")).start_processing();
    assert!(matches!(a, JobAction::StoreArticle(_)));
    let (_, a) = Job::ConvertHtmlToMarkdown(article("t")).start_processing();
    assert!(matches!(a, JobAction::ConvertHtmlToMarkdown(_)));
}

#[test]
fn work_result_is_reported_as_is() {
    let (run, _) = Job::SyncCollection(collection("c")).start_processing();
    let id = run.job_id;
    let (run, a) = run.resume(Err("boom".into()));
    assert!(matches!(run.state, RunState::Done));
    match a {
        JobAction::Finish(o) => assert_eq!(o, JobOutcome::Processed { job_id: id, result: Err("boom".into()) }),
        _ => panic!(),
    }
}

#[test]
fn failed_store_fails_the_processing() {
    let (run, _) = Job::StoreArticle(article("t")).start_processing();
    let (_, a) = run.resume(Err("db down".into()));
    match a {
        JobAction::Finish(o) => assert_eq!(o, JobOutcome::Failed(JobError::Store("db down".into()))),
        _ => panic!(),
    }
}

#[test]
fn enqueue_jobs_in_order() {
    let jobs = vec![
        Job::StoreArticle(article("a")),
        Job::StoreArticle(article("b")),
        Job::StoreArticle(article("c")),
    ];
    let (mut run, mut action) = Job::EnqueueJobs(jobs).start_processing();
    let id = run.job_id;
    let mut seen = Vec::new();
    loop {
        match action {
            JobAction::Enqueue(Job::StoreArticle(a)) => {
                seen.push(a.title.clone());
                let (r, next) = run.resume(Ok(()));
                run = r;
                action = next;
            }
            JobAction::Finish(o) => {
                assert_eq!(o, JobOutcome::Processed { job_id: id, result: Ok(()) });
                break;
            }
            _ => panic!("unexpected action"),
        }
    }
    assert_eq!(seen, vec!["a", "b", "c"]);
}

#[test]
fn enqueue_stops_at_first_failure() {
    let jobs = vec![Job::StoreArticle(article("a")), Job::StoreArticle(article("b"))];
    let (run, action) = Job::EnqueueJobs(jobs).start_processing();
    assert!(matches!(action, JobAction::Enqueue(_)));
    let (run, action) = run.resume(Err("queue closed".into()));
    assert!(matches!(run.state, RunState::Done));
    match action {
        JobAction::Finish(o) => assert_eq!(o, JobOutcome::Failed(JobError::JobEnqueue("queue closed".into()))),
        _ => panic!(),
    }
}

#[test]
fn empty_list_succeeds_at_once() {
    let (run, action) = Job::EnqueueJobs(vec![]).start_processing();
    let id = run.job_id;
    match action {
        JobAction::Finish(o) => assert_eq!(o, JobOutcome::Processed { job_id: id, result: Ok(()) }),
        _ => panic!(),
    }
}

#[test]
fn cloned_job_list_keeps_its_jobs() {
    let job = Job::EnqueueJobs(vec![Job::StoreArticle(article("a")), Job::EnqueueJobs(vec![Job::StoreArticle(article("b"))])]);
    match job.clone() {
        Job::EnqueueJobs(jobs) => {
            assert_eq!(jobs.len(), 2);
            assert!(matches!(&jobs[0], Job::StoreArticle(a) if a.title == "a"));
            assert!(matches!(&jobs[1], Job::EnqueueJobs(inner) if inner.len() == 1));
        }
        _ => panic!(),
    }
}
