use scylla::job::{ChapterRef, JobId, JobKind, JobStatus};
use scylla::messenger::{AppCommand, AppEvent};
use scylla::urls::{clean_url, extract_domain};
use scylla::worker::{JobScheduler, WorkerAction};

#[test]
fn test_clean_url_no_brackets() {
    assert_eq!(clean_url("https://example.com"), "https://example.com");
}

#[test]
fn test_clean_url_markdown() {
    let input = "[click here](https://example.com/page)";
    assert_eq!(clean_url(input), "https://example.com/page");
}

#[test]
fn test_clean_url_markdown_with_trailing_text() {
    let input = "[text](https://example.com) and more";
    assert_eq!(clean_url(input), "https://example.com");
}

#[test]
fn test_clean_url_trims_whitespace() {
    assert_eq!(clean_url("  https://example.com  "), "https://example.com");
}

#[test]
fn test_clean_url_empty_input() {
    assert_eq!(clean_url(""), "");
}

#[test]
fn test_clean_url_nested_parens() {
    let input = "[link](https://en.wikipedia.org/wiki/Rust_(programming_language))";
    assert_eq!(clean_url(input), "https://en.wikipedia.org/wiki/Rust_(programming_language)");
}

#[test]
fn test_clean_url_no_close_bracket() {
    let input = "[text](https://example.com";
    assert_eq!(clean_url(input), "[text](https://example.com");
}

#[test]
fn test_clean_url_trailing_parens_text() {
    let input = "[link](https://url.com) and (stuff)";
    assert_eq!(clean_url(input), "https://url.com");
}

#[test]
fn test_extract_domain_simple() {
    assert_eq!(extract_domain("https://example.com/path"), Some("example.com".into()));
}

#[test]
fn test_extract_domain_empty() {
    assert_eq!(extract_domain(""), None);
}

fn emitted(acts: &[WorkerAction]) -> Vec<&AppEvent> {
    acts.iter()
        .filter_map(|a| match a {
            WorkerAction::Emit(e) => Some(e),
            _ => None,
        })
        .collect()
}

#[test]
fn test_retry_job_emits_queued_event() {
    let mut manager = JobScheduler::new(4, 2);
    let first = manager.handle_command(AppCommand::Scrape("http://example.com".into()), 0);
    let id = manager.job_queue[0].id;
    manager.job_queue[0].status = JobStatus::Failed("boom".into());

    let acts = manager.handle_command(AppCommand::RetryJob(id), 0);

    // The Scrape command reported the job enqueued.
    assert!(matches!(emitted(&first)[0], AppEvent::JobEnqueued(_)));
    let events = emitted(&acts);
    assert!(matches!(
        events[0],
        AppEvent::JobStatusChanged(jid, JobStatus::Queued) if *jid == id
    ));
    // Original failed job + re-queued retry.
    assert_eq!(manager.job_queue.len(), 2);
    assert_eq!(manager.job_queue[1].status, JobStatus::Queued);
    assert_eq!(manager.job_queue[1].error, None);
}

#[test]
fn test_retry_all_failed_emits_queued_events() {
    let mut manager = JobScheduler::new(4, 2);
    let a = manager.handle_command(AppCommand::Scrape("http://example.com/a".into()), 0);
    let b = manager.handle_command(AppCommand::Scrape("http://example.com/b".into()), 0);
    let ids: Vec<JobId> = manager.job_queue.iter().map(|j| j.id).collect();
    for job in manager.job_queue.iter_mut() {
        job.status = JobStatus::Failed("boom".into());
    }

    let acts = manager.handle_command(AppCommand::RetryAllFailed, 0);

    // Two JobEnqueued events from the Scrape commands.
    assert!(matches!(emitted(&a)[0], AppEvent::JobEnqueued(_)));
    assert!(matches!(emitted(&b)[0], AppEvent::JobEnqueued(_)));
    let events = emitted(&acts);
    assert!(matches!(
        events[0],
        AppEvent::JobStatusChanged(jid, JobStatus::Queued) if ids.contains(jid)
    ));
    assert!(matches!(
        events[1],
        AppEvent::JobStatusChanged(jid, JobStatus::Queued) if ids.contains(jid)
    ));
    // Original failed jobs + two re-queued retries.
    assert_eq!(manager.job_queue.len(), 4);
    assert!(manager.job_queue.iter().filter(|j| j.status == JobStatus::Queued).count() == 2);
}

#[test]
fn test_embed_batch_enqueue_sets_detail() {
    let mut manager = JobScheduler::new(4, 2);
    let chapters = vec![
        ChapterRef {
            url: "http://example.com/ch1".into(),
            idx: 0,
            title: "Ch1".into(),
        },
        ChapterRef {
            url: "http://example.com/ch2".into(),
            idx: 1,
            title: "Ch2".into(),
        },
    ];
    let acts = manager.handle_command(AppCommand::EmbedBatch(chapters), 0);

    assert!(matches!(emitted(&acts)[0], AppEvent::JobEnqueued(_)));
    assert_eq!(manager.job_queue.len(), 1);
    let job = &manager.job_queue[0];
    assert!(matches!(job.kind, JobKind::EmbedBatch(_)));
    let detail = job.detail.as_ref().unwrap();
    assert_eq!(detail.len(), 2);
    assert_eq!(detail[0].status, "Pending");
    assert_eq!(detail[0].title, "Ch1");
    assert_eq!(detail[1].url, "http://example.com/ch2");
}
