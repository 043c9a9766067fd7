use backend::checkpoint::Checkpoint;
use backend::embedding::plan_embedding;
use backend::health::{health_reply, HealthProbe};
use backend::metadata::parse_metadata;
use backend::models::{Article, Collection, ArticleRef};
use backend::vector_db::{embeddings_collection_config, needs_embeddings_collection, Distance};
use backend::worker::{JobStatus, SyncJob};

/// The same numbered parsing written directly with `str` methods, to compare against.
fn reference_metadata(response: &str) -> (String, String, String) {
    let mut paragraph = String::new();
    let mut bullets = String::new();
    let mut keywords = String::new();
    let mut current_section = 0;
    for line in response.lines() {
        if line.starts_with("1.") {
            current_section = 1;
        } else if line.starts_with("2.") {
            current_section = 2;
        } else if line.starts_with("3.") {
            current_section = 3;
        } else if line.starts_with("4.") {
            current_section = 4;
        } else {
            match current_section {
                1 => paragraph.push_str(line),
                2 => bullets.push_str(line),
                3 => keywords.push_str(line),
                _ => {}
            }
        }
    }
    (paragraph.trim().to_string(), bullets.trim().to_string(), keywords.trim().to_string())
}

#[test]
fn numbered_metadata_matches_reference() {
    let samples = [
        "",
        "no numbers",
        "1. Paragraph\n This is it.\n2. Bullets\n- a\n- b\n3. Keywords\nx, y\n4. Other\nignored",
        "2.\r\nb1\r\nb2\r\n1.\r\n  p  \r\n",
        "intro\n1.\n\u{3000}wide\u{a0}\n4.\nz\n3.\nk",
        "11. not a marker? it is: starts with 1.",
    ];
    for s in samples {
        assert_eq!(parse_metadata(s), reference_metadata(s), "sample {:?}", s);
    }
}

#[test]
fn numbered_metadata_example() {
    let (p, b, k) = parse_metadata("1. Summary\nFirst.\nSecond.\n2. Facts\n- a\n3. Keywords\n k1, k2 \n");
    assert_eq!(p, "First.Second.");
    assert_eq!(b, "- a");
    assert_eq!(k, "k1, k2");
}

#[test]
fn unnumbered_answer_gives_nothing() {
    assert_eq!(parse_metadata("just text\n4. tail\nmore"), (String::new(), String::new(), String::new()));
}

#[test]
fn checkpoint_records_in_order() {
    let mut c = Checkpoint::default();
    assert!(c.processed_article_ids.is_empty() && c.processed_collection_ids.is_empty());
    c.record(Some(1), None);
    c.record(Some(2), Some(10));
    c.record(None, None);
    assert_eq!(c.processed_article_ids, vec![1, 2]);
    assert_eq!(c.processed_collection_ids, vec![10]);
    let d = Checkpoint::loaded_or_default(None);
    assert!(d.processed_article_ids.is_empty());
    let e = Checkpoint::loaded_or_default(Some(c));
    assert_eq!(e.processed_article_ids, vec![1, 2]);
}

#[test]
fn embeddings_collection_created_only_when_missing() {
    assert!(needs_embeddings_collection(&vec![]));
    assert!(needs_embeddings_collection(&vec!["other".to_string()]));
    assert!(!needs_embeddings_collection(&vec!["other".to_string(), "article_embeddings".to_string()]));
    let cfg = embeddings_collection_config();
    assert_eq!(cfg.collection_name, "article_embeddings");
    assert_eq!(cfg.vector_size, 768);
    assert_eq!(cfg.distance, Distance::Cosine);
}

#[test]
fn embedding_plan_uses_article_identity() {
    let mut a = Article::new(5, "h".into(), None, "Title".into(), "s".into(), None);
    a.id = 0x67e5_5044_10b1_426f_9247_bb68_0e5f_e0c8;
    let p = plan_embedding(&a);
    assert_eq!(p.text, "Title");
    assert_eq!(p.point_id, "67e55044-10b1-426f-9247-bb680e5fe0c8");
    assert_eq!(p.payload, vec![("article_id".to_string(), "67e55044-10b1-426f-9247-bb680e5fe0c8".to_string())]);
    assert_eq!(p.embedding_id, a.id);
    assert_eq!(p.article_id, a.id);
}

#[test]
fn health_answers() {
    assert_eq!(
        health_reply(HealthProbe::Responded { status: 200, status_text: "200 OK".into() }),
        (200, "Embedding service is healthy".to_string())
    );
    assert_eq!(
        health_reply(HealthProbe::Responded { status: 503, status_text: "503 Service Unavailable".into() }),
        (500, "Embedding service error: Status 503 Service Unavailable".to_string())
    );
    assert_eq!(
        health_reply(HealthProbe::Unreachable { error: "connection refused".into() }),
        (500, "Failed to connect to embedding service: connection refused".to_string())
    );
}

#[test]
fn worker_status_updates() {
    let mut c = Collection::new("n".into(), None, "s".into(), "h".into());
    c.id = 0x67e5_5044_10b1_426f_9247_bb68_0e5f_e0c8;
    let job = SyncJob::SyncCollection(c.clone());
    assert_eq!(job.job_id(), "67e55044-10b1-426f-9247-bb680e5fe0c8");
    let u = job.status_updates(Ok(()));
    assert_eq!(u[0], ("67e55044-10b1-426f-9247-bb680e5fe0c8".to_string(), JobStatus::Running));
    assert_eq!(u[1].1, JobStatus::Completed);
    let job = SyncJob::SyncArticle(ArticleRef { id: "art-9".into(), name: "x".into() }, c);
    let u = job.status_updates(Err("timeout".into()));
    assert_eq!(u.len(), 2);
    assert_eq!(u[0], ("art-9".to_string(), JobStatus::Running));
    assert_eq!(u[1], ("art-9".to_string(), JobStatus::Failed("Sync job failed: timeout".into())));
}
