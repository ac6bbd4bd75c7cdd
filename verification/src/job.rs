//! Jobs: what the worker is asked to do, where each job stands, and the
//! snapshot of a job that travels over the wire.
//!
//! Timestamps are milliseconds since a monotonic reference point taken at
//! process start; only differences between them mean anything.
use vstd::prelude::*;
use crate::models::Book;

verus! {

pub type JobId = u64;

/// A chapter to fetch for an embedding batch.
#[derive(Debug, PartialEq)]
pub struct ChapterRef {
    pub url: String,
    pub idx: usize,
    pub title: String,
}

impl Clone for ChapterRef {
    fn clone(&self) -> (r: Self)
        ensures
            r == *self,
    {
        ChapterRef { url: self.url.clone(), idx: self.idx, title: self.title.clone() }
    }
}

/// Per-chapter state within an embedding batch ("Pending", "Fetched",
/// "Done" or "Failed").
#[derive(Debug, PartialEq)]
pub struct ChapterDetail {
    pub title: String,
    pub url: String,
    pub status: String,
}

impl Clone for ChapterDetail {
    fn clone(&self) -> (r: Self)
        ensures
            r == *self,
    {
        ChapterDetail { title: self.title.clone(), url: self.url.clone(), status: self.status.clone() }
    }
}

/// What a job does.
#[derive(Debug, PartialEq)]
pub enum JobKind {
    Scrape(String),
    FetchChapter(String, usize),
    FetchCover(String),
    EmbedBatch(Vec<ChapterRef>),
    InstallPlugin(String),
}

/// A job kind with its chapter list taken by contents.
pub enum JobKindView {
    Scrape(String),
    FetchChapter(String, usize),
    FetchCover(String),
    EmbedBatch(Seq<ChapterRef>),
    InstallPlugin(String),
}

impl View for JobKind {
    type V = JobKindView;

    open spec fn view(&self) -> JobKindView {
        match self {
            JobKind::Scrape(u) => JobKindView::Scrape(*u),
            JobKind::FetchChapter(u, i) => JobKindView::FetchChapter(*u, *i),
            JobKind::FetchCover(u) => JobKindView::FetchCover(*u),
            JobKind::EmbedBatch(c) => JobKindView::EmbedBatch(c@),
            JobKind::InstallPlugin(u) => JobKindView::InstallPlugin(*u),
        }
    }
}

impl Clone for JobKind {
    fn clone(&self) -> (r: Self)
        ensures
            r@ == self@,
    {
        match self {
            JobKind::Scrape(u) => JobKind::Scrape(u.clone()),
            JobKind::FetchChapter(u, i) => JobKind::FetchChapter(u.clone(), *i),
            JobKind::FetchCover(u) => JobKind::FetchCover(u.clone()),
            JobKind::EmbedBatch(c) => {
                let d = c.clone();
                assert(d@ =~= c@);
                JobKind::EmbedBatch(d)
            },
            JobKind::InstallPlugin(u) => JobKind::InstallPlugin(u.clone()),
        }
    }
}

/// The URL a job works on; an embedding batch works on its first chapter's
/// URL, or on nothing when it is empty.
pub open spec fn kind_target(k: JobKindView) -> Seq<char> {
    match k {
        JobKindView::Scrape(u) => u@,
        JobKindView::FetchChapter(u, _) => u@,
        JobKindView::FetchCover(u) => u@,
        JobKindView::EmbedBatch(c) => if c.len() > 0 {
            c[0].url@
        } else {
            Seq::empty()
        },
        JobKindView::InstallPlugin(u) => u@,
    }
}

/// The short label shown in the jobs list.
pub open spec fn kind_label(k: JobKindView) -> Seq<char> {
    match k {
        JobKindView::Scrape(_) => "Scrape"@,
        JobKindView::FetchChapter(_, _) => "FetchCh"@,
        JobKindView::FetchCover(_) => "Cover"@,
        JobKindView::EmbedBatch(_) => "EmbedBatch"@,
        JobKindView::InstallPlugin(_) => "InstallPlugin"@,
    }
}

/// The stable wire name of a job kind.
pub open spec fn kind_name(k: JobKindView) -> Seq<char> {
    match k {
        JobKindView::Scrape(_) => "Scrape"@,
        JobKindView::FetchChapter(_, _) => "FetchChapter"@,
        JobKindView::FetchCover(_) => "FetchCover"@,
        JobKindView::EmbedBatch(_) => "EmbedBatch"@,
        JobKindView::InstallPlugin(_) => "InstallPlugin"@,
    }
}

impl JobKind {
    /// The URL the job works on.
    pub fn target(&self) -> (r: &str)
        ensures
            r@ == kind_target(self@),
    {
        match self {
            JobKind::Scrape(url) => url.as_str(),
            JobKind::FetchCover(url) => url.as_str(),
            JobKind::InstallPlugin(url) => url.as_str(),
            JobKind::FetchChapter(url, _) => url.as_str(),
            JobKind::EmbedBatch(chapters) => {
                if chapters.len() > 0 {
                    chapters[0].url.as_str()
                } else {
                    proof {
                        reveal_strlit("");
                    }
                    ""
                }
            },
        }
    }

    /// The short label shown in the jobs list.
    pub fn label(&self) -> (r: &'static str)
        ensures
            r@ == kind_label(self@),
    {
        match self {
            JobKind::Scrape(_) => "Scrape",
            JobKind::FetchChapter(_, _) => "FetchCh",
            JobKind::FetchCover(_) => "Cover",
            JobKind::EmbedBatch(_) => "EmbedBatch",
            JobKind::InstallPlugin(_) => "InstallPlugin",
        }
    }

    /// The stable wire name of the kind.
    pub fn as_str(&self) -> (r: &'static str)
        ensures
            r@ == kind_name(self@),
    {
        match self {
            JobKind::Scrape(_) => "Scrape",
            JobKind::FetchChapter(_, _) => "FetchChapter",
            JobKind::FetchCover(_) => "FetchCover",
            JobKind::EmbedBatch(_) => "EmbedBatch",
            JobKind::InstallPlugin(_) => "InstallPlugin",
        }
    }

    /// The chapters of an embedding batch; `None` for the other kinds.
    pub fn chapters(&self) -> (r: Option<&[ChapterRef]>)
        ensures
            match self@ {
                JobKindView::EmbedBatch(c) => r.is_some() && r.unwrap()@ == c,
                _ => r.is_none(),
            },
    {
        match self {
            JobKind::EmbedBatch(chapters) => Some(chapters.as_slice()),
            _ => None,
        }
    }
}

/// Where a job stands.
#[derive(Debug, PartialEq)]
pub enum JobStatus {
    Queued,
    Running,
    Completed,
    Failed(String),
    Cancelled,
}

impl Clone for JobStatus {
    fn clone(&self) -> (r: Self)
        ensures
            r == *self,
    {
        match self {
            JobStatus::Queued => JobStatus::Queued,
            JobStatus::Running => JobStatus::Running,
            JobStatus::Completed => JobStatus::Completed,
            JobStatus::Failed(e) => JobStatus::Failed(e.clone()),
            JobStatus::Cancelled => JobStatus::Cancelled,
        }
    }
}

/// The stable wire name of a status.
pub open spec fn job_status_name(s: JobStatus) -> Seq<char> {
    match s {
        JobStatus::Queued => "Queued"@,
        JobStatus::Running => "Running"@,
        JobStatus::Completed => "Completed"@,
        JobStatus::Failed(_) => "Failed"@,
        JobStatus::Cancelled => "Cancelled"@,
    }
}

impl JobStatus {
    /// The stable wire name of the status.
    pub fn as_str(&self) -> (r: &'static str)
        ensures
            r@ == job_status_name(*self),
    {
        match self {
            JobStatus::Queued => "Queued",
            JobStatus::Running => "Running",
            JobStatus::Completed => "Completed",
            JobStatus::Failed(_) => "Failed",
            JobStatus::Cancelled => "Cancelled",
        }
    }
}

/// How urgent a job is.
#[derive(Debug, Clone, Copy, PartialEq, Eq, Structural, Default)]
pub enum JobPriority {
    #[default]
    Normal,
    High,
}

/// The stable wire name of a priority.
pub open spec fn priority_name(p: JobPriority) -> Seq<char> {
    match p {
        JobPriority::Normal => "Normal"@,
        JobPriority::High => "High"@,
    }
}

impl JobPriority {
    /// The stable wire name of the priority.
    pub fn as_str(&self) -> (r: &'static str)
        ensures
            r@ == priority_name(*self),
    {
        match self {
            JobPriority::Normal => "Normal",
            JobPriority::High => "High",
        }
    }
}

/// What a finished job produced.
#[derive(Debug, PartialEq)]
pub enum JobOutcome {
    BookScraped { title: String, chapters: usize, cover: bool },
    ChapterFetched { title: String, content_chars: usize },
    CoverFetched,
    PluginInstalled { plugins: Vec<(String, String)> },
}

/// An outcome with its plugin list taken by contents.
pub enum JobOutcomeView {
    BookScraped { title: String, chapters: usize, cover: bool },
    ChapterFetched { title: String, content_chars: usize },
    CoverFetched,
    PluginInstalled { plugins: Seq<(String, String)> },
}

impl View for JobOutcome {
    type V = JobOutcomeView;

    open spec fn view(&self) -> JobOutcomeView {
        match self {
            JobOutcome::BookScraped { title, chapters, cover } => JobOutcomeView::BookScraped {
                title: *title,
                chapters: *chapters,
                cover: *cover,
            },
            JobOutcome::ChapterFetched { title, content_chars } =>
                JobOutcomeView::ChapterFetched { title: *title, content_chars: *content_chars },
            JobOutcome::CoverFetched => JobOutcomeView::CoverFetched,
            JobOutcome::PluginInstalled { plugins } => JobOutcomeView::PluginInstalled {
                plugins: plugins@,
            },
        }
    }
}

fn clone_pairs(v: &Vec<(String, String)>) -> (r: Vec<(String, String)>)
    ensures
        r@ == v@,
{
    let mut r: Vec<(String, String)> = Vec::new();
    let mut i: usize = 0;
    while i < v.len()
        invariant
            i <= v.len(),
            r@ == v@.take(i as int),
        decreases v.len() - i,
    {
        let (a, b) = &v[i];
        r.push((a.clone(), b.clone()));
        assert(v@.take(i + 1) == v@.take(i as int).push(v@[i as int]));
        i = i + 1;
    }
    assert(v@.take(v.len() as int) == v@);
    r
}

impl Clone for JobOutcome {
    fn clone(&self) -> (r: Self)
        ensures
            r@ == self@,
    {
        match self {
            JobOutcome::BookScraped { title, chapters, cover } => JobOutcome::BookScraped {
                title: title.clone(),
                chapters: *chapters,
                cover: *cover,
            },
            JobOutcome::ChapterFetched { title, content_chars } => JobOutcome::ChapterFetched {
                title: title.clone(),
                content_chars: *content_chars,
            },
            JobOutcome::CoverFetched => JobOutcome::CoverFetched,
            JobOutcome::PluginInstalled { plugins } => JobOutcome::PluginInstalled {
                plugins: clone_pairs(plugins),
            },
        }
    }
}

/// A job of the worker.
#[derive(Debug)]
pub struct Job {
    pub id: JobId,
    pub kind: JobKind,
    pub status: JobStatus,
    pub target: String,
    pub priority: JobPriority,
    pub created_at: u64,
    pub started_at: Option<u64>,
    pub completed_at: Option<u64>,
    pub error: Option<String>,
    pub outcome: Option<JobOutcome>,
    pub detail: Option<Vec<ChapterDetail>>,
}

/// A job with its lists taken by contents.
pub struct JobView {
    pub id: JobId,
    pub kind: JobKindView,
    pub status: JobStatus,
    pub target: String,
    pub priority: JobPriority,
    pub created_at: u64,
    pub started_at: Option<u64>,
    pub completed_at: Option<u64>,
    pub error: Option<String>,
    pub outcome: Option<JobOutcomeView>,
    pub detail: Option<Seq<ChapterDetail>>,
}

pub open spec fn outcome_view(o: Option<JobOutcome>) -> Option<JobOutcomeView> {
    match o {
        Some(x) => Some(x@),
        None => None,
    }
}

pub open spec fn detail_view(d: Option<Vec<ChapterDetail>>) -> Option<Seq<ChapterDetail>> {
    match d {
        Some(x) => Some(x@),
        None => None,
    }
}

impl View for Job {
    type V = JobView;

    open spec fn view(&self) -> JobView {
        JobView {
            id: self.id,
            kind: self.kind@,
            status: self.status,
            target: self.target,
            priority: self.priority,
            created_at: self.created_at,
            started_at: self.started_at,
            completed_at: self.completed_at,
            error: self.error,
            outcome: outcome_view(self.outcome),
            detail: detail_view(self.detail),
        }
    }
}

pub fn clone_detail(d: &Option<Vec<ChapterDetail>>) -> (r: Option<Vec<ChapterDetail>>)
    ensures
        detail_view(r) == detail_view(*d),
{
    match d {
        Some(v) => {
            let w = v.clone();
            assert(w@ =~= v@);
            Some(w)
        },
        None => None,
    }
}

fn clone_outcome(o: &Option<JobOutcome>) -> (r: Option<JobOutcome>)
    ensures
        outcome_view(r) == outcome_view(*o),
{
    match o {
        Some(x) => Some(x.clone()),
        None => None,
    }
}

impl Clone for Job {
    fn clone(&self) -> (r: Self)
        ensures
            r@ == self@,
    {
        Job {
            id: self.id,
            kind: self.kind.clone(),
            status: self.status.clone(),
            target: self.target.clone(),
            priority: self.priority,
            created_at: self.created_at,
            started_at: self.started_at,
            completed_at: self.completed_at,
            error: self.error.clone(),
            outcome: clone_outcome(&self.outcome),
            detail: clone_detail(&self.detail),
        }
    }
}

impl Job {
    /// A new queued job created at `created_at`, not yet started, with no
    /// error, outcome or detail.
    pub fn new(id: JobId, kind: JobKind, target: String, priority: JobPriority, created_at: u64) -> (r: Job)
        ensures
            r.id == id,
            r.kind == kind,
            r.status == JobStatus::Queued,
            r.target == target,
            r.priority == priority,
            r.created_at == created_at,
            r.started_at.is_none(),
            r.completed_at.is_none(),
            r.error.is_none(),
            r.outcome.is_none(),
            r.detail.is_none(),
    {
        Job {
            id,
            kind,
            status: JobStatus::Queued,
            target,
            priority,
            created_at,
            started_at: None,
            completed_at: None,
            error: None,
            outcome: None,
            detail: None,
        }
    }
}

/// The serializable payload of an outcome.
#[derive(Debug, PartialEq, Default)]
pub struct JobOutcomeDto {
    pub kind: String,
    pub title: Option<String>,
    pub chapters: Option<usize>,
    pub cover: Option<bool>,
    pub content_chars: Option<usize>,
    pub plugins: Option<Vec<(String, String)>>,
}

pub open spec fn pairs_view(p: Option<Vec<(String, String)>>) -> Option<Seq<(String, String)>> {
    match p {
        Some(x) => Some(x@),
        None => None,
    }
}

/// `d` is the payload of outcome `o`: its kind's name and the fields that
/// kind carries, every other field absent.
pub open spec fn outcome_dto_of(o: JobOutcomeView, d: JobOutcomeDto) -> bool {
    match o {
        JobOutcomeView::BookScraped { title, chapters, cover } => {
            &&& d.kind@ == "BookScraped"@
            &&& d.title == Some(title)
            &&& d.chapters == Some(chapters)
            &&& d.cover == Some(cover)
            &&& d.content_chars.is_none()
            &&& d.plugins.is_none()
        },
        JobOutcomeView::ChapterFetched { title, content_chars } => {
            &&& d.kind@ == "ChapterFetched"@
            &&& d.title == Some(title)
            &&& d.chapters.is_none()
            &&& d.cover.is_none()
            &&& d.content_chars == Some(content_chars)
            &&& d.plugins.is_none()
        },
        JobOutcomeView::CoverFetched => {
            &&& d.kind@ == "CoverFetched"@
            &&& d.title.is_none()
            &&& d.chapters.is_none()
            &&& d.cover.is_none()
            &&& d.content_chars.is_none()
            &&& d.plugins.is_none()
        },
        JobOutcomeView::PluginInstalled { plugins } => {
            &&& d.kind@ == "PluginInstalled"@
            &&& d.title.is_none()
            &&& d.chapters.is_none()
            &&& d.cover.is_none()
            &&& d.content_chars.is_none()
            &&& pairs_view(d.plugins) == Some(plugins)
        },
    }
}

impl JobOutcomeDto {
    /// The payload of an outcome.
    pub fn from_outcome(outcome: &JobOutcome) -> (r: JobOutcomeDto)
        ensures
            outcome_dto_of(outcome@, r),
    {
        match outcome {
            JobOutcome::BookScraped { title, chapters, cover } => JobOutcomeDto {
                kind: "BookScraped".to_string(),
                title: Some(title.clone()),
                chapters: Some(*chapters),
                cover: Some(*cover),
                content_chars: None,
                plugins: None,
            },
            JobOutcome::ChapterFetched { title, content_chars } => JobOutcomeDto {
                kind: "ChapterFetched".to_string(),
                title: Some(title.clone()),
                chapters: None,
                cover: None,
                content_chars: Some(*content_chars),
                plugins: None,
            },
            JobOutcome::CoverFetched => JobOutcomeDto {
                kind: "CoverFetched".to_string(),
                title: None,
                chapters: None,
                cover: None,
                content_chars: None,
                plugins: None,
            },
            JobOutcome::PluginInstalled { plugins } => JobOutcomeDto {
                kind: "PluginInstalled".to_string(),
                title: None,
                chapters: None,
                cover: None,
                content_chars: None,
                plugins: Some(clone_pairs(plugins)),
            },
        }
    }
}

/// The wire snapshot of a job.
#[derive(Debug, PartialEq)]
pub struct JobDto {
    pub id: u64,
    pub kind: String,
    pub status: String,
    pub target: String,
    pub priority: String,
    pub chapter_idx: Option<usize>,
    pub created_at_ms: u64,
    pub started_at_ms: Option<u64>,
    pub completed_at_ms: Option<u64>,
    pub error: Option<String>,
    pub outcome: Option<JobOutcomeDto>,
    pub detail: Option<Vec<ChapterDetail>>,
}

/// `d` is the snapshot of job `j`.
pub open spec fn dto_of(j: JobView, d: JobDto) -> bool {
    &&& d.id == j.id
    &&& d.kind@ == kind_name(j.kind)
    &&& d.status@ == job_status_name(j.status)
    &&& d.target == j.target
    &&& d.priority@ == priority_name(j.priority)
    &&& d.chapter_idx == match j.kind {
        JobKindView::FetchChapter(_, i) => Some(i),
        _ => None,
    }
    &&& d.created_at_ms == j.created_at
    &&& d.started_at_ms == j.started_at
    &&& d.completed_at_ms == j.completed_at
    &&& d.error == j.error
    &&& match (j.outcome, d.outcome) {
        (Some(o), Some(p)) => outcome_dto_of(o, p),
        (None, None) => true,
        _ => false,
    }
    &&& detail_view(d.detail) == j.detail
}

impl JobDto {
    /// The wire snapshot of a job.
    pub fn from_job(job: &Job) -> (r: JobDto)
        ensures
            dto_of(job@, r),
    {
        JobDto {
            id: job.id,
            kind: job.kind.as_str().to_string(),
            status: job.status.as_str().to_string(),
            target: job.target.clone(),
            priority: job.priority.as_str().to_string(),
            chapter_idx: match &job.kind {
                JobKind::FetchChapter(_, idx) => Some(*idx),
                _ => None,
            },
            created_at_ms: job.created_at,
            started_at_ms: job.started_at,
            completed_at_ms: job.completed_at,
            error: job.error.clone(),
            outcome: match &job.outcome {
                Some(o) => Some(JobOutcomeDto::from_outcome(o)),
                None => None,
            },
            detail: clone_detail(&job.detail),
        }
    }
}

/// Which jobs the jobs page lists.
#[derive(Debug, Clone, Copy, PartialEq, Eq, Structural, Default)]
pub enum JobFilter {
    #[default]
    All,
    Running,
    Completed,
    Failed,
}

pub open spec fn job_filter_name(f: JobFilter) -> Seq<char> {
    match f {
        JobFilter::All => "All"@,
        JobFilter::Running => "Running"@,
        JobFilter::Completed => "Completed"@,
        JobFilter::Failed => "Failed"@,
    }
}

impl JobFilter {
    /// The filter's name, as displayed.
    pub fn to_string(&self) -> (r: String)
        ensures
            r@ == job_filter_name(*self),
    {
        let s: &str = match self {
            JobFilter::All => "All",
            JobFilter::Running => "Running",
            JobFilter::Completed => "Completed",
            JobFilter::Failed => "Failed",
        };
        s.to_string()
    }
}

/// The outcome recorded for a scraped book: its title, how many chapters it
/// has and whether it has a cover.
pub fn outcome_for_book(book: &Book) -> (r: JobOutcome)
    ensures
        r@ == (JobOutcomeView::BookScraped {
            title: book.title,
            chapters: book.chapters@.len() as usize,
            cover: book.cover_url.is_some(),
        }),
{
    JobOutcome::BookScraped {
        title: book.title.clone(),
        chapters: book.chapters.len(),
        cover: book.cover_url.is_some(),
    }
}

} // verus!
