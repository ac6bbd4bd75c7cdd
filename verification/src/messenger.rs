//! Messages between the interface and the worker: the commands it is sent
//! and the events it reports.
use vstd::prelude::*;
use crate::job::{ChapterDetail, ChapterRef, Job, JobId, JobKind, JobOutcome, JobPriority, JobStatus};
use crate::models::Book;

verus! {

/// A command to the worker.
#[derive(Debug)]
pub enum AppCommand {
    Scrape(String),
    UpdateAll(Vec<String>),
    FetchChapter(String, usize),
    SetRateLimit(u64),
    FetchCover(String),
    /// A job of any kind, with its display target and priority.
    Enqueue(JobKind, String, JobPriority),
    EmbedBatch(Vec<ChapterRef>),
    CancelJob(JobId),
    CancelAll,
    RetryJob(JobId),
    RetryAllFailed,
    FlushCompleted,
    FlushAll,
    SetMaxWorkers(u8),
    /// Move a queued job to a position of the queue.
    ReorderJob(JobId, usize),
    InstallPlugin(String),
}

/// A fetched chapter.
#[derive(Debug, PartialEq)]
pub struct ChapterContent {
    pub url: String,
    pub chapter_idx: usize,
    pub title: String,
    pub content: String,
}

impl Clone for ChapterContent {
    fn clone(&self) -> (r: Self)
        ensures
            r == *self,
    {
        ChapterContent {
            url: self.url.clone(),
            chapter_idx: self.chapter_idx,
            title: self.title.clone(),
            content: self.content.clone(),
        }
    }
}

/// An event reported by the worker.
#[derive(Debug)]
pub enum AppEvent {
    BookScraped(Book),
    ChapterFetched(ChapterContent),
    /// A chapter that must be embedded whatever the auto-embed setting, with
    /// the batch job it came from.
    ChapterToEmbed(JobId, ChapterContent),
    /// A chapter's embedding was stored (job, chapter url).
    ChapterEmbedded(JobId, String),
    /// A chapter's embedding failed (job, chapter url).
    ChapterEmbeddedFailed(JobId, String),
    ChapterFetchFailed,
    /// A cover's url and raw image bytes.
    CoverFetched(String, Vec<u8>),
    JobEnqueued(Job),
    JobStatusChanged(JobId, JobStatus),
    JobDetailChanged(JobId, Vec<ChapterDetail>),
    WorkersChanged(u8),
    JobOutcome(JobId, JobOutcome),
    /// A plugin's domain and path.
    PluginInstalled(String, String),
    PluginInstallFailed(String),
}

} // verus!
