use scylla::job::{ChapterDetail, ChapterRef, Job, JobDto, JobId, JobKind, JobOutcome, JobPriority, JobStatus};

fn sample_job(id: JobId, kind: JobKind) -> Job {
    let target = kind.target().to_string();
    Job::new(id, kind, target, JobPriority::Normal, 0)
}

#[test]
fn test_job_dto_from_queued_job() {
    let job = sample_job(1, JobKind::Scrape("http://example.com".into()));
    let dto = JobDto::from_job(&job);
    assert_eq!(dto.id, 1);
    assert_eq!(dto.kind, "Scrape");
    assert_eq!(dto.status, "Queued");
    assert_eq!(dto.target, "http://example.com");
    assert_eq!(dto.priority, "Normal");
    assert_eq!(dto.chapter_idx, None);
    assert!(dto.started_at_ms.is_none());
    assert!(dto.completed_at_ms.is_none());
    assert!(dto.error.is_none());
    assert!(dto.outcome.is_none());
}

#[test]
fn test_job_dto_from_running_job() {
    let mut job = sample_job(2, JobKind::FetchChapter("http://example.com/ch1".into(), 3));
    job.status = JobStatus::Running;
    job.started_at = Some(5);
    let dto = JobDto::from_job(&job);
    assert_eq!(dto.kind, "FetchChapter");
    assert_eq!(dto.status, "Running");
    assert_eq!(dto.chapter_idx, Some(3));
    assert!(dto.started_at_ms.is_some());
    assert!(dto.completed_at_ms.is_none());
}

#[test]
fn test_job_dto_from_failed_job() {
    let mut job = sample_job(3, JobKind::FetchCover("http://example.com/c.jpg".into()));
    job.status = JobStatus::Failed("network error".into());
    job.completed_at = Some(7);
    job.error = Some("network error".into());
    let dto = JobDto::from_job(&job);
    assert_eq!(dto.kind, "FetchCover");
    assert_eq!(dto.status, "Failed");
    assert_eq!(dto.chapter_idx, None);
    assert_eq!(dto.error.as_deref(), Some("network error"));
    assert!(dto.completed_at_ms.is_some());
}

#[test]
fn test_job_dto_from_cancelled_job() {
    let mut job = sample_job(4, JobKind::Scrape("http://example.com".into()));
    job.status = JobStatus::Cancelled;
    let dto = JobDto::from_job(&job);
    assert_eq!(dto.status, "Cancelled");
}

#[test]
fn test_job_dto_with_book_scraped_outcome() {
    let mut job = sample_job(5, JobKind::Scrape("http://example.com".into()));
    job.status = JobStatus::Completed;
    job.outcome = Some(JobOutcome::BookScraped {
        title: "Book".into(),
        chapters: 10,
        cover: true,
    });
    let dto = JobDto::from_job(&job);
    let outcome = dto.outcome.expect("outcome should be set");
    assert_eq!(outcome.kind, "BookScraped");
    assert_eq!(outcome.title.as_deref(), Some("Book"));
    assert_eq!(outcome.chapters, Some(10));
    assert_eq!(outcome.cover, Some(true));
    assert_eq!(outcome.content_chars, None);
}

#[test]
fn test_job_dto_with_chapter_fetched_outcome() {
    let mut job = sample_job(6, JobKind::FetchChapter("http://example.com/ch1".into(), 0));
    job.status = JobStatus::Completed;
    job.outcome = Some(JobOutcome::ChapterFetched {
        title: "Ch1".into(),
        content_chars: 500,
    });
    let dto = JobDto::from_job(&job);
    let outcome = dto.outcome.expect("outcome should be set");
    assert_eq!(outcome.kind, "ChapterFetched");
    assert_eq!(outcome.title.as_deref(), Some("Ch1"));
    assert_eq!(outcome.content_chars, Some(500));
    assert_eq!(outcome.chapters, None);
}

#[test]
fn test_job_dto_with_cover_fetched_outcome() {
    let mut job = sample_job(7, JobKind::FetchCover("http://example.com/c.jpg".into()));
    job.status = JobStatus::Completed;
    job.outcome = Some(JobOutcome::CoverFetched);
    let dto = JobDto::from_job(&job);
    let outcome = dto.outcome.expect("outcome should be set");
    assert_eq!(outcome.kind, "CoverFetched");
    assert!(outcome.title.is_none());
    assert!(outcome.chapters.is_none());
    assert!(outcome.cover.is_none());
    assert!(outcome.content_chars.is_none());
}

#[test]
fn test_job_dto_timestamps_are_monotonic() {
    // The creation time is handed in (milliseconds since the process
    // started); a snapshot carries it unchanged, and a later clock reading
    // is not before it.
    let created = 1_234u64;
    let job = Job::new(8, JobKind::Scrape("http://example.com".into()), "http://example.com".into(), JobPriority::Normal, created);
    let dto = JobDto::from_job(&job);
    assert!(dto.created_at_ms < 60_000);
    let now = created + 10;
    assert!(now >= dto.created_at_ms);
}

#[test]
fn test_job_kind_status_priority_as_str() {
    assert_eq!(JobKind::Scrape("u".into()).as_str(), "Scrape");
    assert_eq!(JobKind::FetchChapter("u".into(), 0).as_str(), "FetchChapter");
    assert_eq!(JobKind::FetchCover("u".into()).as_str(), "FetchCover");
    assert_eq!(JobKind::EmbedBatch(vec![]).as_str(), "EmbedBatch");
    assert_eq!(JobKind::EmbedBatch(vec![]).label(), "EmbedBatch");
    assert_eq!(JobKind::InstallPlugin("https://github.com/o/r".into()).as_str(), "InstallPlugin");
    assert_eq!(
        JobKind::InstallPlugin("https://github.com/o/r".into()).target(),
        "https://github.com/o/r"
    );
    assert_eq!(JobStatus::Queued.as_str(), "Queued");
    assert_eq!(JobStatus::Running.as_str(), "Running");
    assert_eq!(JobStatus::Completed.as_str(), "Completed");
    assert_eq!(JobStatus::Failed("e".into()).as_str(), "Failed");
    assert_eq!(JobStatus::Cancelled.as_str(), "Cancelled");
    assert_eq!(JobPriority::Normal.as_str(), "Normal");
    assert_eq!(JobPriority::High.as_str(), "High");
}

#[test]
fn test_job_dto_detail_conversion() {
    let chapters = vec![ChapterRef {
        url: "http://example.com/ch1".into(),
        idx: 0,
        title: "Ch1".into(),
    }];
    let mut job = Job::new(10, JobKind::EmbedBatch(chapters), "Embed 1 chapters".into(), JobPriority::High, 0);
    job.detail = Some(vec![ChapterDetail {
        title: "Ch1".into(),
        url: "http://example.com/ch1".into(),
        status: "Pending".into(),
    }]);
    let dto = JobDto::from_job(&job);
    assert_eq!(dto.kind, "EmbedBatch");
    let detail = dto.detail.unwrap();
    assert_eq!(detail.len(), 1);
    assert_eq!(detail[0].status, "Pending");
    assert_eq!(detail[0].title, "Ch1");
}

#[test]
fn test_embed_batch_target_is_first_chapter_url() {
    let chapters = vec![
        ChapterRef {
            url: "http://example.com/ch1".into(),
            idx: 0,
            title: "Ch1".into(),
        },
        ChapterRef {
            url: "http://example.com/ch2".into(),
            idx: 1,
            title: "Ch2".into(),
        },
    ];
    let kind = JobKind::EmbedBatch(chapters);
    assert_eq!(kind.target(), "http://example.com/ch1");
    assert_eq!(JobKind::EmbedBatch(vec![]).target(), "");
}
