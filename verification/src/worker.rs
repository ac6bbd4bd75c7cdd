//! The job scheduler: the queues the worker keeps, what each command does to
//! them, which queued jobs start (at most `max_workers` at a time, and no
//! two requests to one host closer than the rate limit), and which delayed
//! jobs become ready again.
//!
//! The scheduler only decides. It answers each step with actions (events to
//! report, tasks to start or abort, a plugin to install) that the caller
//! carries out, and is told when a started task has finished.
use vstd::prelude::*;
use crate::job::{
    detail_view, outcome_view, ChapterDetail, ChapterRef, Job, JobId, JobKind, JobKindView,
    JobPriority, JobStatus, JobView, kind_target,
};
use crate::messenger::{AppCommand, AppEvent};
use crate::text::{decimal, push_char, push_decimal, push_str, str_eq};
use crate::urls::{clean_url, cleaned_url, domain_of, extract_domain};

verus! {

/// Something the scheduler asks its caller to do.
#[derive(Debug)]
pub enum WorkerAction {
    /// Report an event.
    Emit(AppEvent),
    /// Abort the running task of a job.
    Abort(JobId),
    /// Run a job (already marked running).
    Start(Job),
    /// Install a plugin from a repository URL and report the result.
    InstallPlugin(String),
}

/// The scheduler's queues and settings.
pub struct JobScheduler {
    /// Jobs waiting to start, in order.
    pub job_queue: Vec<Job>,
    /// Jobs put aside until their host has cooled down.
    pub delayed_queue: Vec<Job>,
    /// Jobs whose tasks are running.
    pub active: Vec<JobId>,
    /// When the last request to each host started (milliseconds).
    pub last_request: Vec<(String, u64)>,
    pub next_job_id: JobId,
    pub rate_limit_secs: u64,
    pub max_workers: u8,
}

pub open spec fn jobs_view(v: Seq<Job>) -> Seq<JobView> {
    v.map_values(|j: Job| j@)
}

pub open spec fn requests_view(v: Seq<(String, u64)>) -> Seq<(Seq<char>, u64)> {
    v.map_values(|p: (String, u64)| (p.0@, p.1))
}

/// When the last request to `d` started, if any (the first entry for `d`).
pub open spec fn last_request_at(lr: Seq<(Seq<char>, u64)>, d: Seq<char>) -> Option<u64>
    decreases lr.len(),
{
    if lr.len() == 0 {
        None
    } else if lr[0].0 == d {
        Some(lr[0].1)
    } else {
        last_request_at(lr.drop_first(), d)
    }
}

/// The first position of `d` in `lr`, if any.
pub open spec fn request_pos(lr: Seq<(Seq<char>, u64)>, d: Seq<char>) -> Option<int>
    decreases lr.len(),
{
    if lr.len() == 0 {
        None
    } else if lr[0].0 == d {
        Some(0)
    } else {
        match request_pos(lr.drop_first(), d) {
            Some(k) => Some(k + 1),
            None => None,
        }
    }
}

/// `lr` after recording a request to `d` at `now`.
pub open spec fn record_request(lr: Seq<(Seq<char>, u64)>, d: Seq<char>, now: u64) -> Seq<
    (Seq<char>, u64),
> {
    match request_pos(lr, d) {
        Some(k) => lr.update(k, (d, now)),
        None => lr.push((d, now)),
    }
}

/// Whether a request to the host of a job may start at `now`: the job has no
/// host, the host was never requested, or the last request to it is at
/// least `rate` seconds old.
pub open spec fn cooled_down(lr: Seq<(Seq<char>, u64)>, rate: u64, now: u64, j: JobView) -> bool {
    match domain_of(kind_target(j.kind)) {
        None => true,
        Some(d) => match last_request_at(lr, d) {
            None => true,
            Some(t) => (if now >= t { now - t } else { 0int }) >= rate * 1000,
        },
    }
}

/// A job as it is when it starts.
pub open spec fn running(j: JobView) -> JobView {
    JobView { status: JobStatus::Running, ..j }
}

/// The result of starting jobs from `queue`: the queue, delayed queue, active
/// set and request record after, and the jobs started (in order). Jobs are
/// taken from the front while fewer than `max` run; a job whose host has not
/// cooled down is delayed instead.
pub open spec fn spawn_run(
    queue: Seq<JobView>,
    delayed: Seq<JobView>,
    active: Seq<JobId>,
    lr: Seq<(Seq<char>, u64)>,
    max: nat,
    rate: u64,
    now: u64,
) -> (Seq<JobView>, Seq<JobView>, Seq<JobId>, Seq<(Seq<char>, u64)>, Seq<JobView>)
    decreases queue.len(),
{
    if active.len() >= max || queue.len() == 0 {
        (queue, delayed, active, lr, seq![])
    } else {
        let j = queue[0];
        if !cooled_down(lr, rate, now, j) {
            spawn_run(queue.drop_first(), delayed.push(j), active, lr, max, rate, now)
        } else {
            let lr2 = match domain_of(kind_target(j.kind)) {
                Some(d) => record_request(lr, d, now),
                None => lr,
            };
            let active2 = if active.contains(j.id) {
                active
            } else {
                active.push(j.id)
            };
            let r = spawn_run(queue.drop_first(), delayed, active2, lr2, max, rate, now);
            (r.0, r.1, r.2, r.3, seq![running(j)] + r.4)
        }
    }
}

/// `acts` asks, for each job of `started` in turn, to report it running and
/// then to run it.
pub open spec fn start_actions(acts: Seq<WorkerAction>, started: Seq<JobView>) -> bool {
    &&& acts.len() == 2 * started.len()
    &&& forall|k: int|
        0 <= k < started.len() ==> {
            &&& (#[trigger] acts[2 * k]) matches WorkerAction::Emit(
                AppEvent::JobStatusChanged(id, JobStatus::Running),
            ) && id == started[k].id
            &&& acts[2 * k + 1] matches WorkerAction::Start(j) && j@ == started[k]
        }
}

/// A newly queued job.
pub open spec fn queued_job(
    id: JobId,
    kind: JobKindView,
    target: String,
    priority: JobPriority,
    now: u64,
    detail: Option<Seq<ChapterDetail>>,
) -> JobView {
    JobView {
        id,
        kind,
        status: JobStatus::Queued,
        target,
        priority,
        created_at: now,
        started_at: None,
        completed_at: None,
        error: None,
        outcome: None,
        detail,
    }
}

/// `acts` is exactly the report that `job` was enqueued.
pub open spec fn enqueued_actions(acts: Seq<WorkerAction>, job: JobView) -> bool {
    &&& acts.len() == 1
    &&& acts[0] matches WorkerAction::Emit(AppEvent::JobEnqueued(j)) && j@ == job
}

/// Whether a job has failed.
pub open spec fn is_failed(j: JobView) -> bool {
    j.status matches JobStatus::Failed(_)
}

/// The first failed job with id `id` among `jobs`.
pub open spec fn first_failed(jobs: Seq<JobView>, id: JobId) -> Option<JobView>
    decreases jobs.len(),
{
    if jobs.len() == 0 {
        None
    } else if jobs[0].id == id && is_failed(jobs[0]) {
        Some(jobs[0])
    } else {
        first_failed(jobs.drop_first(), id)
    }
}

/// A failed job queued again by a retry of that job: queued, not started,
/// no error and no outcome.
pub open spec fn retried(j: JobView) -> JobView {
    JobView {
        status: JobStatus::Queued,
        error: None,
        outcome: None,
        started_at: None,
        completed_at: None,
        ..j
    }
}

/// A failed job queued again by a retry of all failed jobs: queued, not
/// started, no error (its outcome is kept).
pub open spec fn retried_keeping_outcome(j: JobView) -> JobView {
    JobView { status: JobStatus::Queued, error: None, started_at: None, completed_at: None, ..j }
}

/// The ids of the failed jobs, in order.
pub open spec fn failed_ids(jobs: Seq<JobView>) -> Seq<JobId> {
    jobs.filter(failed()).map_values(|j: JobView| j.id)
}

/// Jobs with another id than `id`.
pub open spec fn other_job(id: JobId) -> spec_fn(JobView) -> bool {
    |j: JobView| j.id != id
}

/// Task ids other than `id`.
pub open spec fn other_task(id: JobId) -> spec_fn(JobId) -> bool {
    |x: JobId| x != id
}

/// Failed jobs.
pub open spec fn failed() -> spec_fn(JobView) -> bool {
    |j: JobView| is_failed(j)
}

/// Jobs neither completed nor cancelled.
pub open spec fn unfinished() -> spec_fn(JobView) -> bool {
    |j: JobView| not_finished(j)
}

/// Whether a job stays when completed and cancelled jobs are flushed.
pub open spec fn not_finished(j: JobView) -> bool {
    !(j.status matches JobStatus::Completed) && !(j.status matches JobStatus::Cancelled)
}

/// `d` is the pending-detail entry of chapter `c` of a batch.
pub open spec fn pending_detail_of(d: ChapterDetail, c: ChapterRef) -> bool {
    d.title == c.title && d.url == c.url && d.status@ == "Pending"@
}

impl JobScheduler {
    /// The scheduler's invariant: every job and running task has an id that
    /// was already handed out, and a task runs at most once.
    pub open spec fn wf(&self) -> bool {
        &&& forall|i: int|
            0 <= i < self.job_queue@.len() ==> (#[trigger] self.job_queue@[i]).id
                < self.next_job_id
        &&& forall|i: int|
            0 <= i < self.delayed_queue@.len() ==> (#[trigger] self.delayed_queue@[i]).id
                < self.next_job_id
        &&& forall|i: int| 0 <= i < self.active@.len() ==> #[trigger] self.active@[i] < self.next_job_id
        &&& self.active@.no_duplicates()
    }

    /// An empty scheduler; job ids start at 1.
    pub fn new(max_workers: u8, rate_limit_secs: u64) -> (r: JobScheduler)
        ensures
            r.job_queue@.len() == 0,
            r.delayed_queue@.len() == 0,
            r.active@.len() == 0,
            r.last_request@.len() == 0,
            r.next_job_id == 1,
            r.rate_limit_secs == rate_limit_secs,
            r.max_workers == max_workers,
            r.wf(),
    {
        JobScheduler {
            job_queue: Vec::new(),
            delayed_queue: Vec::new(),
            active: Vec::new(),
            last_request: Vec::new(),
            next_job_id: 1,
            rate_limit_secs,
            max_workers,
        }
    }
}

/// The fields that a queue operation leaves alone.
pub open spec fn same_settings(a: &JobScheduler, b: &JobScheduler) -> bool {
    &&& a.active == b.active
    &&& a.last_request == b.last_request
    &&& a.rate_limit_secs == b.rate_limit_secs
    &&& a.max_workers == b.max_workers
}

proof fn lemma_jobs_view_push(v: Seq<Job>, j: Job)
    ensures
        jobs_view(v.push(j)) == jobs_view(v).push(j@),
{
    assert(jobs_view(v.push(j)) =~= jobs_view(v).push(j@));
}

impl JobScheduler {
    /// Queues a new job under the next id and reports it.
    pub fn enqueue_job(
        &mut self,
        kind: JobKind,
        target: String,
        priority: JobPriority,
        now: u64,
        detail: Option<Vec<ChapterDetail>>,
    ) -> (acts: Vec<WorkerAction>)
        requires
            old(self).next_job_id < u64::MAX,
        ensures
            final(self).next_job_id == old(self).next_job_id + 1,
            jobs_view(final(self).job_queue@) == jobs_view(old(self).job_queue@).push(
                queued_job(old(self).next_job_id, kind@, target, priority, now, detail_view(detail)),
            ),
            final(self).delayed_queue == old(self).delayed_queue,
            same_settings(final(self), old(self)),
            enqueued_actions(
                acts@,
                queued_job(old(self).next_job_id, kind@, target, priority, now, detail_view(detail)),
            ),
            old(self).wf() ==> final(self).wf(),
    {
        let id = self.next_job_id;
        self.next_job_id = self.next_job_id + 1;
        let mut job = Job::new(id, kind, target, priority, now);
        job.detail = detail;
        let copy = job.clone();
        proof {
            lemma_jobs_view_push(self.job_queue@, copy);
        }
        self.job_queue.push(copy);
        let mut acts: Vec<WorkerAction> = Vec::new();
        acts.push(WorkerAction::Emit(AppEvent::JobEnqueued(job)));
        proof {
            if old(self).wf() {
                let q = self.job_queue@;
                assert forall|i: int| 0 <= i < q.len() implies (#[trigger] q[i]).id
                    < self.next_job_id by {
                    if i < q.len() - 1 {
                        assert(q[i] == old(self).job_queue@[i]);
                    }
                }
            }
        }
        acts
    }
}

/// `new_q` is `old_q` with one job appended, the one `is_new` describes, and
/// `acts` reports exactly that job.
pub open spec fn appended_job(
    old_q: Seq<JobView>,
    new_q: Seq<JobView>,
    acts: Seq<WorkerAction>,
    is_new: spec_fn(JobView) -> bool,
) -> bool {
    &&& new_q.len() == old_q.len() + 1
    &&& new_q.take(old_q.len() as int) == old_q
    &&& is_new(new_q.last())
    &&& enqueued_actions(acts, new_q.last())
}

/// A scrape job for the pasted `url`: it works on the cleaned URL and shows it.
pub open spec fn scrape_job(j: JobView, id: JobId, url: Seq<char>, priority: JobPriority, now: u64) -> bool {
    &&& j == queued_job(id, JobKindView::Scrape(j.target), j.target, priority, now, None)
    &&& j.target@ == cleaned_url(url)
}

/// The text shown for a chapter fetch: the URL, `" ch"` and the index.
pub open spec fn chapter_target(url: Seq<char>, idx: usize) -> Seq<char> {
    url + " ch"@ + decimal(idx as nat)
}

/// The text shown for an embedding batch of `n` chapters.
pub open spec fn batch_target(n: nat) -> Seq<char> {
    "Embed "@ + decimal(n) + " chapters"@
}

/// A job was appended under the next id (described by `is_new`) and
/// reported; nothing else changed.
pub open spec fn one_job_queued(
    s: &JobScheduler,
    t: &JobScheduler,
    acts: Seq<WorkerAction>,
    is_new: spec_fn(JobView) -> bool,
) -> bool {
    &&& t.next_job_id == s.next_job_id + 1
    &&& appended_job(jobs_view(s.job_queue@), jobs_view(t.job_queue@), acts, is_new)
    &&& t.delayed_queue == s.delayed_queue
    &&& same_settings(t, s)
}

pub open spec fn fetch_chapter_job(j: JobView, id: JobId, url: String, idx: usize, now: u64) -> bool {
    &&& j == queued_job(id, JobKindView::FetchChapter(url, idx), j.target, JobPriority::High, now, None)
    &&& j.target@ == chapter_target(url@, idx)
}

pub open spec fn fetch_cover_job(j: JobView, id: JobId, url: String, now: u64) -> bool {
    j == queued_job(id, JobKindView::FetchCover(url), url, JobPriority::High, now, None)
}

pub open spec fn embed_batch_job(j: JobView, id: JobId, chapters: Seq<ChapterRef>, now: u64) -> bool {
    &&& j.id == id
    &&& j.kind == JobKindView::EmbedBatch(chapters)
    &&& j.status == JobStatus::Queued
    &&& j.target@ == batch_target(chapters.len())
    &&& j.priority == JobPriority::High
    &&& j.created_at == now
    &&& j.started_at.is_none() && j.completed_at.is_none()
    &&& j.error.is_none() && j.outcome.is_none()
    &&& j.detail matches Some(d) && d.len() == chapters.len() && forall|k: int|
        0 <= k < d.len() ==> pending_detail_of(#[trigger] d[k], chapters[k])
}

pub open spec fn enqueue_job_effect(j: JobView, id: JobId, kind: JobKindView, target: String, priority: JobPriority, now: u64) -> bool {
    j == queued_job(id, kind, target, priority, now, None)
}

/// One scrape job per URL, in order, under consecutive ids, each reported.
pub open spec fn update_all_done(
    s: &JobScheduler,
    t: &JobScheduler,
    acts: Seq<WorkerAction>,
    urls: Seq<String>,
    now: u64,
) -> bool {
    let n = urls.len();
    let oq = jobs_view(s.job_queue@);
    let nq = jobs_view(t.job_queue@);
    &&& t.next_job_id == s.next_job_id + n
    &&& nq.len() == oq.len() + n
    &&& nq.take(oq.len() as int) == oq
    &&& acts.len() == n
    &&& forall|k: int|
        0 <= k < n ==> {
            &&& scrape_job(
                #[trigger] nq[oq.len() + k],
                (s.next_job_id + k) as u64,
                urls[k]@,
                JobPriority::Normal,
                now,
            )
            &&& acts[k] matches WorkerAction::Emit(AppEvent::JobEnqueued(j)) && j@ == nq[oq.len() + k]
        }
    &&& t.delayed_queue == s.delayed_queue
    &&& same_settings(t, s)
}

/// The actions that cancel running tasks `active` (abort, then report, for
/// each) and then report the queued jobs `queued` cancelled.
pub open spec fn cancel_all_actions(acts: Seq<WorkerAction>, active: Seq<JobId>, queued: Seq<JobView>) -> bool {
    let n = active.len();
    &&& acts.len() == 2 * n + queued.len()
    &&& forall|k: int|
        0 <= k < n ==> {
            &&& (#[trigger] acts[2 * k]) matches WorkerAction::Abort(id) && id == active[k]
            &&& acts[2 * k + 1] matches WorkerAction::Emit(
                AppEvent::JobStatusChanged(id, JobStatus::Cancelled),
            ) && id == active[k]
        }
    &&& forall|k: int|
        0 <= k < queued.len() ==> {
            (#[trigger] acts[2 * n + k]) matches WorkerAction::Emit(
                AppEvent::JobStatusChanged(id, JobStatus::Cancelled),
            ) && id == queued[k].id
        }
}

/// Everything was cancelled: tasks aborted, queues emptied, all reported.
pub open spec fn cancel_all_done(s: &JobScheduler, t: &JobScheduler, acts: Seq<WorkerAction>) -> bool {
    &&& t.job_queue@.len() == 0
    &&& t.delayed_queue@.len() == 0
    &&& t.active@.len() == 0
    &&& cancel_all_actions(acts, s.active@, jobs_view(s.job_queue@) + jobs_view(s.delayed_queue@))
    &&& t.last_request == s.last_request
    &&& t.next_job_id == s.next_job_id
    &&& t.rate_limit_secs == s.rate_limit_secs
    &&& t.max_workers == s.max_workers
}

/// Job `id` was cancelled: its task aborted (if running), removed from both
/// queues, and reported cancelled.
pub open spec fn cancel_job_done(s: &JobScheduler, t: &JobScheduler, acts: Seq<WorkerAction>, id: JobId) -> bool {
    &&& t.active@ == s.active@.filter(other_task(id))
    &&& jobs_view(t.job_queue@) == jobs_view(s.job_queue@).filter(other_job(id))
    &&& jobs_view(t.delayed_queue@) == jobs_view(s.delayed_queue@).filter(other_job(id))
    &&& if s.active@.contains(id) {
        &&& acts.len() == 2
        &&& acts[0] matches WorkerAction::Abort(x) && x == id
        &&& acts[1] matches WorkerAction::Emit(AppEvent::JobStatusChanged(x, JobStatus::Cancelled))
            && x == id
    } else {
        &&& acts.len() == 1
        &&& acts[0] matches WorkerAction::Emit(AppEvent::JobStatusChanged(x, JobStatus::Cancelled))
            && x == id
    }
    &&& t.last_request == s.last_request
    &&& t.next_job_id == s.next_job_id
    &&& t.rate_limit_secs == s.rate_limit_secs
    &&& t.max_workers == s.max_workers
}

/// The first failed job `id` (queue before delayed queue) was queued again
/// and reported queued; without one, nothing happened.
pub open spec fn retry_job_done(s: &JobScheduler, t: &JobScheduler, acts: Seq<WorkerAction>, id: JobId) -> bool {
    let all = jobs_view(s.job_queue@) + jobs_view(s.delayed_queue@);
    &&& match first_failed(all, id) {
        Some(j) => {
            &&& jobs_view(t.job_queue@) == jobs_view(s.job_queue@).push(retried(j))
            &&& acts.len() == 1
            &&& acts[0] matches WorkerAction::Emit(AppEvent::JobStatusChanged(x, JobStatus::Queued))
                && x == id
        },
        None => t.job_queue == s.job_queue && acts.len() == 0,
    }
    &&& t.delayed_queue == s.delayed_queue
    &&& same_settings(t, s)
    &&& t.next_job_id == s.next_job_id
}

/// Every failed job (queue before delayed queue) was queued again, in order,
/// and reported queued.
pub open spec fn retry_all_done(s: &JobScheduler, t: &JobScheduler, acts: Seq<WorkerAction>) -> bool {
    let all = jobs_view(s.job_queue@) + jobs_view(s.delayed_queue@);
    let ids = failed_ids(all);
    let oq = jobs_view(s.job_queue@);
    let nq = jobs_view(t.job_queue@);
    &&& nq.len() == oq.len() + ids.len()
    &&& nq.take(oq.len() as int) == oq
    &&& acts.len() == ids.len()
    &&& forall|k: int|
        0 <= k < ids.len() ==> {
            &&& first_failed(all, ids[k]) is Some
            &&& #[trigger] nq[oq.len() + k] == retried_keeping_outcome(first_failed(all, ids[k]).unwrap())
            &&& acts[k] matches WorkerAction::Emit(AppEvent::JobStatusChanged(x, JobStatus::Queued))
                && x == ids[k]
        }
    &&& t.delayed_queue == s.delayed_queue
    &&& same_settings(t, s)
    &&& t.next_job_id == s.next_job_id
}

/// The completed and cancelled jobs were dropped from the queue.
pub open spec fn flush_completed_done(s: &JobScheduler, t: &JobScheduler, acts: Seq<WorkerAction>) -> bool {
    &&& jobs_view(t.job_queue@) == jobs_view(s.job_queue@).filter(unfinished())
    &&& acts.len() == 0
    &&& t.delayed_queue == s.delayed_queue
    &&& same_settings(t, s)
    &&& t.next_job_id == s.next_job_id
}

/// The queued job `id` (its first occurrence) was moved to position `pos`
/// (or to the end, when `pos` is past it); without such a job nothing moved.
pub open spec fn reorder_done(s: &JobScheduler, t: &JobScheduler, acts: Seq<WorkerAction>, id: JobId, pos: usize) -> bool {
    let q = jobs_view(s.job_queue@);
    &&& match first_with_id(q, id) {
        Some(i) => {
            let rest = q.remove(i);
            let at = if pos <= rest.len() { pos as int } else { rest.len() as int };
            jobs_view(t.job_queue@) == rest.insert(at, q[i])
        },
        None => t.job_queue == s.job_queue,
    }
    &&& acts.len() == 0
    &&& t.delayed_queue == s.delayed_queue
    &&& same_settings(t, s)
    &&& t.next_job_id == s.next_job_id
}

/// The position of the first job with id `id`.
pub open spec fn first_with_id(q: Seq<JobView>, id: JobId) -> Option<int>
    decreases q.len(),
{
    if q.len() == 0 {
        None
    } else if q[0].id == id {
        Some(0)
    } else {
        match first_with_id(q.drop_first(), id) {
            Some(k) => Some(k + 1),
            None => None,
        }
    }
}

/// Only the queues are untouched and nothing is reported.
pub open spec fn queues_unchanged(s: &JobScheduler, t: &JobScheduler) -> bool {
    &&& t.job_queue == s.job_queue
    &&& t.delayed_queue == s.delayed_queue
    &&& t.active == s.active
    &&& t.last_request == s.last_request
    &&& t.next_job_id == s.next_job_id
}

/// How many job ids a command may hand out.
pub open spec fn ids_needed(cmd: AppCommand) -> nat {
    match cmd {
        AppCommand::UpdateAll(urls) => urls@.len(),
        _ => 1,
    }
}

/// What a command does to the scheduler and what it reports.
pub open spec fn command_done(s: &JobScheduler, t: &JobScheduler, acts: Seq<WorkerAction>, cmd: AppCommand, now: u64) -> bool {
    match cmd {
        AppCommand::Scrape(url) => one_job_queued(
            s,
            t,
            acts,
            |j: JobView| scrape_job(j, s.next_job_id, url@, JobPriority::High, now),
        ),
        AppCommand::UpdateAll(urls) => update_all_done(s, t, acts, urls@, now),
        AppCommand::FetchChapter(url, idx) => one_job_queued(
            s,
            t,
            acts,
            |j: JobView| fetch_chapter_job(j, s.next_job_id, url, idx, now),
        ),
        AppCommand::SetRateLimit(secs) => queues_unchanged(s, t) && t.rate_limit_secs == secs
            && t.max_workers == s.max_workers && acts.len() == 0,
        AppCommand::FetchCover(url) => one_job_queued(
            s,
            t,
            acts,
            |j: JobView| fetch_cover_job(j, s.next_job_id, url, now),
        ),
        AppCommand::Enqueue(kind, target, priority) => one_job_queued(
            s,
            t,
            acts,
            |j: JobView| enqueue_job_effect(j, s.next_job_id, kind@, target, priority, now),
        ),
        AppCommand::EmbedBatch(chapters) => one_job_queued(
            s,
            t,
            acts,
            |j: JobView| embed_batch_job(j, s.next_job_id, chapters@, now),
        ),
        AppCommand::CancelJob(id) => cancel_job_done(s, t, acts, id),
        AppCommand::CancelAll => cancel_all_done(s, t, acts),
        AppCommand::RetryJob(id) => retry_job_done(s, t, acts, id),
        AppCommand::RetryAllFailed => retry_all_done(s, t, acts),
        AppCommand::FlushCompleted => flush_completed_done(s, t, acts),
        AppCommand::FlushAll => cancel_all_done(s, t, acts),
        AppCommand::SetMaxWorkers(n) => {
            &&& queues_unchanged(s, t)
            &&& t.max_workers == n
            &&& t.rate_limit_secs == s.rate_limit_secs
            &&& acts.len() == 1
            &&& acts[0] matches WorkerAction::Emit(AppEvent::WorkersChanged(x)) && x == n
        },
        AppCommand::ReorderJob(id, pos) => reorder_done(s, t, acts, id, pos),
        AppCommand::InstallPlugin(url) => {
            &&& queues_unchanged(s, t)
            &&& t.rate_limit_secs == s.rate_limit_secs
            &&& t.max_workers == s.max_workers
            &&& acts.len() == 1
            &&& acts[0] matches WorkerAction::InstallPlugin(u) && u == url
        },
    }
}

proof fn lemma_appended(s: &JobScheduler, t: &JobScheduler, j: JobView)
    requires
        jobs_view(t.job_queue@) == jobs_view(s.job_queue@).push(j),
    ensures
        jobs_view(t.job_queue@).len() == jobs_view(s.job_queue@).len() + 1,
        jobs_view(t.job_queue@).take(jobs_view(s.job_queue@).len() as int) == jobs_view(s.job_queue@),
        jobs_view(t.job_queue@).last() == j,
{
    assert(jobs_view(t.job_queue@).take(jobs_view(s.job_queue@).len() as int) =~= jobs_view(
        s.job_queue@,
    ));
}

impl JobScheduler {
    /// Queues a scrape of a pasted URL (cleaned of markdown link syntax).
    pub fn enqueue_scrape(&mut self, url: &str, priority: JobPriority, now: u64) -> (acts: Vec<WorkerAction>)
        requires
            old(self).next_job_id < u64::MAX,
        ensures
            one_job_queued(
                old(self),
                final(self),
                acts@,
                |j: JobView| scrape_job(j, old(self).next_job_id, url@, priority, now),
            ),
            old(self).wf() ==> final(self).wf(),
    {
        let cleaned = clean_url(url);
        let target = cleaned.clone();
        let ghost before = *self;
        let acts = self.enqueue_job(JobKind::Scrape(cleaned), target, priority, now, None);
        proof {
            lemma_appended(&before, self, jobs_view(self.job_queue@).last());
        }
        acts
    }

    /// Queues a fetch of chapter `idx` at `url`.
    pub fn enqueue_fetch_chapter(&mut self, url: String, idx: usize, now: u64) -> (acts: Vec<WorkerAction>)
        requires
            old(self).next_job_id < u64::MAX,
        ensures
            one_job_queued(
                old(self),
                final(self),
                acts@,
                |j: JobView| fetch_chapter_job(j, old(self).next_job_id, url, idx, now),
            ),
            old(self).wf() ==> final(self).wf(),
    {
        let mut target = String::new();
        push_str(&mut target, url.as_str());
        push_char(&mut target, ' ');
        push_char(&mut target, 'c');
        push_char(&mut target, 'h');
        push_decimal(&mut target, idx as u64);
        proof {
            reveal_strlit(" ch");
            assert(target@ =~= chapter_target(url@, idx));
        }
        let ghost before = *self;
        let acts = self.enqueue_job(JobKind::FetchChapter(url, idx), target, JobPriority::High, now, None);
        proof {
            lemma_appended(&before, self, jobs_view(self.job_queue@).last());
        }
        acts
    }

    /// Queues a cover download.
    pub fn enqueue_fetch_cover(&mut self, url: String, now: u64) -> (acts: Vec<WorkerAction>)
        requires
            old(self).next_job_id < u64::MAX,
        ensures
            one_job_queued(
                old(self),
                final(self),
                acts@,
                |j: JobView| fetch_cover_job(j, old(self).next_job_id, url, now),
            ),
            old(self).wf() ==> final(self).wf(),
    {
        let target = url.clone();
        let ghost before = *self;
        let acts = self.enqueue_job(JobKind::FetchCover(url), target, JobPriority::High, now, None);
        proof {
            lemma_appended(&before, self, jobs_view(self.job_queue@).last());
        }
        acts
    }

    /// Queues a job of any kind with its display target and priority.
    pub fn enqueue(&mut self, kind: JobKind, target: String, priority: JobPriority, now: u64) -> (acts: Vec<WorkerAction>)
        requires
            old(self).next_job_id < u64::MAX,
        ensures
            one_job_queued(
                old(self),
                final(self),
                acts@,
                |j: JobView| enqueue_job_effect(j, old(self).next_job_id, kind@, target, priority, now),
            ),
            old(self).wf() ==> final(self).wf(),
    {
        let ghost before = *self;
        let acts = self.enqueue_job(kind, target, priority, now, None);
        proof {
            lemma_appended(&before, self, jobs_view(self.job_queue@).last());
        }
        acts
    }

    /// Queues an embedding batch, with every chapter's detail pending.
    pub fn enqueue_embed_batch(&mut self, chapters: Vec<ChapterRef>, now: u64) -> (acts: Vec<WorkerAction>)
        requires
            old(self).next_job_id < u64::MAX,
        ensures
            one_job_queued(
                old(self),
                final(self),
                acts@,
                |j: JobView| embed_batch_job(j, old(self).next_job_id, chapters@, now),
            ),
            old(self).wf() ==> final(self).wf(),
    {
        let mut target = String::new();
        push_str(&mut target, "Embed ");
        push_decimal(&mut target, chapters.len() as u64);
        push_str(&mut target, " chapters");
        let mut detail: Vec<ChapterDetail> = Vec::new();
        let mut i: usize = 0;
        while i < chapters.len()
            invariant
                i <= chapters.len(),
                detail@.len() == i,
                forall|k: int| 0 <= k < i ==> pending_detail_of(#[trigger] detail@[k], chapters@[k]),
            decreases chapters.len() - i,
        {
            let status = "Pending".to_string();
            detail.push(
                ChapterDetail {
                    title: chapters[i].title.clone(),
                    url: chapters[i].url.clone(),
                    status,
                },
            );
            i = i + 1;
        }
        let ghost before = *self;
        let acts = self.enqueue_job(JobKind::EmbedBatch(chapters), target, JobPriority::High, now, Some(detail));
        proof {
            lemma_appended(&before, self, jobs_view(self.job_queue@).last());
        }
        acts
    }

    /// Queues a scrape (normal priority) of every URL, in order.
    #[verifier::spinoff_prover]
    #[verifier::rlimit(40)]
    pub fn enqueue_update_all(&mut self, urls: Vec<String>, now: u64) -> (acts: Vec<WorkerAction>)
        requires
            old(self).next_job_id + urls@.len() < u64::MAX,
        ensures
            update_all_done(old(self), final(self), acts@, urls@, now),
            old(self).wf() ==> final(self).wf(),
    {
        let ghost s0 = *self;
        let mut acts: Vec<WorkerAction> = Vec::new();
        let mut i: usize = 0;
        while i < urls.len()
            invariant
                i <= urls.len(),
                s0.next_job_id + urls@.len() < u64::MAX,
                self.next_job_id == s0.next_job_id + i,
                jobs_view(self.job_queue@).len() == jobs_view(s0.job_queue@).len() + i,
                jobs_view(self.job_queue@).take(jobs_view(s0.job_queue@).len() as int) == jobs_view(s0.job_queue@),
                acts@.len() == i,
                forall|k: int|
                    0 <= k < i ==> {
                        &&& scrape_job(
                            #[trigger] jobs_view(self.job_queue@)[jobs_view(s0.job_queue@).len() + k],
                            (s0.next_job_id + k) as u64,
                            urls@[k]@,
                            JobPriority::Normal,
                            now,
                        )
                        &&& acts@[k] matches WorkerAction::Emit(AppEvent::JobEnqueued(j)) && j@
                            == jobs_view(self.job_queue@)[jobs_view(s0.job_queue@).len() + k]
                    },
                self.delayed_queue == s0.delayed_queue,
                same_settings(self, &s0),
                s0.wf() ==> self.wf(),
            decreases urls.len() - i,
        {
            let ghost before = *self;
            let mut more = self.enqueue_scrape(urls[i].as_str(), JobPriority::Normal, now);
            let ghost m = more@;
            let a = more.pop().unwrap();
            acts.push(a);
            proof {
                let n0 = jobs_view(s0.job_queue@).len();
                let q = jobs_view(self.job_queue@);
                let qb = jobs_view(before.job_queue@);
                assert(q.take(qb.len() as int) == qb);
                assert forall|k: int| 0 <= k < n0 + i implies q[k] == qb[k] by {
                    assert(q.take(qb.len() as int)[k] == q[k]);
                }
                assert(q.take(n0 as int) =~= jobs_view(s0.job_queue@)) by {
                    assert(qb.take(n0 as int) == jobs_view(s0.job_queue@));
                }
            }
            i = i + 1;
        }
        acts
    }
}

proof fn lemma_filter_step<A>(s: Seq<A>, p: spec_fn(A) -> bool, i: int)
    requires
        0 <= i < s.len(),
    ensures
        s.take(i + 1).filter(p) == (if p(s[i]) {
            s.take(i).filter(p).push(s[i])
        } else {
            s.take(i).filter(p)
        }),
{
    reveal(Seq::filter);
    assert(s.take(i + 1).drop_last() =~= s.take(i));
}

proof fn lemma_jobs_view_take(v: Seq<Job>, i: int)
    requires
        0 <= i < v.len(),
    ensures
        jobs_view(v).take(i + 1) == jobs_view(v).take(i).push(v[i]@),
{
    assert(jobs_view(v).take(i + 1) =~= jobs_view(v).take(i).push(v[i]@));
}

/// The jobs of `v` without those with id `id`.
fn jobs_without_id(v: &Vec<Job>, id: JobId, Ghost(bound): Ghost<u64>) -> (r: Vec<Job>)
    ensures
        jobs_view(r@) == jobs_view(v@).filter(other_job(id)),
        (forall|k: int| 0 <= k < v@.len() ==> (#[trigger] v@[k]).id < bound) ==> forall|k: int|
            0 <= k < r@.len() ==> (#[trigger] r@[k]).id < bound,
{
    let mut r: Vec<Job> = Vec::new();
    let mut i: usize = 0;
    while i < v.len()
        invariant
            i <= v.len(),
            jobs_view(r@) == jobs_view(v@).take(i as int).filter(other_job(id)),
            (forall|k: int| 0 <= k < v@.len() ==> (#[trigger] v@[k]).id < bound) ==> forall|k: int|
                0 <= k < r@.len() ==> (#[trigger] r@[k]).id < bound,
        decreases v.len() - i,
    {
        proof {
            lemma_jobs_view_take(v@, i as int);
            lemma_filter_step(jobs_view(v@), other_job(id), i as int);
            assert(jobs_view(v@).take(i + 1) == jobs_view(v@.take(i + 1)));
        }
        if v[i].id != id {
            let c = v[i].clone();
            proof {
                lemma_jobs_view_push(r@, c);
            }
            r.push(c);
        }
        proof {
            assert(jobs_view(v@).take(i + 1)[i as int] == v@[i as int]@);
        }
        i = i + 1;
    }
    assert(jobs_view(v@).take(v.len() as int) =~= jobs_view(v@));
    r
}

/// The jobs of `v` that are neither completed nor cancelled.
fn unfinished_jobs(v: &Vec<Job>, Ghost(bound): Ghost<u64>) -> (r: Vec<Job>)
    ensures
        jobs_view(r@) == jobs_view(v@).filter(unfinished()),
        (forall|k: int| 0 <= k < v@.len() ==> (#[trigger] v@[k]).id < bound) ==> forall|k: int|
            0 <= k < r@.len() ==> (#[trigger] r@[k]).id < bound,
{
    let mut r: Vec<Job> = Vec::new();
    let mut i: usize = 0;
    while i < v.len()
        invariant
            i <= v.len(),
            jobs_view(r@) == jobs_view(v@).take(i as int).filter(unfinished()),
            (forall|k: int| 0 <= k < v@.len() ==> (#[trigger] v@[k]).id < bound) ==> forall|k: int|
                0 <= k < r@.len() ==> (#[trigger] r@[k]).id < bound,
        decreases v.len() - i,
    {
        proof {
            lemma_jobs_view_take(v@, i as int);
            lemma_filter_step(jobs_view(v@), unfinished(), i as int);
            assert(jobs_view(v@).take(i + 1)[i as int] == v@[i as int]@);
        }
        let keep = match &v[i].status {
            JobStatus::Completed => false,
            JobStatus::Cancelled => false,
            _ => true,
        };
        if keep {
            let c = v[i].clone();
            proof {
                lemma_jobs_view_push(r@, c);
            }
            r.push(c);
        }
        i = i + 1;
    }
    assert(jobs_view(v@).take(v.len() as int) =~= jobs_view(v@));
    r
}

/// The ids of `v` other than `x`, and whether `x` was among them.
fn ids_without(v: &Vec<JobId>, x: JobId) -> (r: (Vec<JobId>, bool))
    ensures
        r.0@ == v@.filter(other_task(x)),
        r.1 == v@.contains(x),
        v@.no_duplicates() ==> r.0@.no_duplicates(),
        forall|k: int| 0 <= k < r.0@.len() ==> v@.contains(#[trigger] r.0@[k]),
{
    let mut out: Vec<JobId> = Vec::new();
    let mut found = false;
    let mut i: usize = 0;
    while i < v.len()
        invariant
            i <= v.len(),
            out@ == v@.take(i as int).filter(other_task(x)),
            found == v@.take(i as int).contains(x),
            forall|k: int| 0 <= k < out@.len() ==> v@.take(i as int).contains(#[trigger] out@[k]),
            v@.no_duplicates() ==> out@.no_duplicates(),
        decreases v.len() - i,
    {
        proof {
            lemma_filter_step(v@, other_task(x), i as int);
            assert(v@.take(i + 1) == v@.take(i as int).push(v@[i as int]));
        }
        let y = v[i];
        if y == x {
            found = true;
        } else {
            proof {
                if v@.no_duplicates() {
                    assert(!out@.contains(y)) by {
                        if out@.contains(y) {
                            let k = choose|k: int| 0 <= k < out@.len() && #[trigger] out@[k] == y;
                            assert(v@.take(i as int).contains(out@[k]));
                            let j = choose|j: int| 0 <= j < i && #[trigger] v@.take(i as int)[j] == y;
                            assert(v@[j] == v@[i as int]);
                        }
                    }
                }
            }
            out.push(y);
        }
        proof {
            assert forall|k: int| 0 <= k < out@.len() implies v@.take(i + 1).contains(
                #[trigger] out@[k],
            ) by {
                if k < out@.len() - 1 || y == x {
                    assert(v@.take(i as int).contains(out@[k]));
                    let j = choose|j: int| 0 <= j < i && #[trigger] v@.take(i as int)[j] == out@[k];
                    assert(v@.take(i + 1)[j] == out@[k]);
                } else {
                    assert(v@.take(i + 1)[i as int] == out@[k]);
                }
            }
            if y == x {
                assert(v@.take(i + 1)[i as int] == x);
            }
            if found {
                if y != x {
                    let j = choose|j: int| 0 <= j < i && #[trigger] v@.take(i as int)[j] == x;
                    assert(v@.take(i + 1)[j] == x);
                }
            }
            if v@.take(i + 1).contains(x) && y != x {
                let j = choose|j: int| 0 <= j < i + 1 && #[trigger] v@.take(i + 1)[j] == x;
                assert(v@.take(i as int)[j] == x);
            }
        }
        i = i + 1;
    }
    assert(v@.take(v.len() as int) =~= v@);
    (out, found)
}

proof fn lemma_first_failed_append(a: Seq<JobView>, b: Seq<JobView>, id: JobId)
    ensures
        first_failed(a + b, id) == match first_failed(a, id) {
            Some(j) => Some(j),
            None => first_failed(b, id),
        },
    decreases a.len(),
{
    if a.len() > 0 {
        assert((a + b).drop_first() =~= a.drop_first() + b);
        lemma_first_failed_append(a.drop_first(), b, id);
    } else {
        assert(a + b =~= b);
    }
}

proof fn lemma_first_failed_found(s: Seq<JobView>, k: int)
    requires
        0 <= k < s.len(),
        is_failed(s[k]),
    ensures
        first_failed(s, s[k].id) is Some,
    decreases s.len(),
{
    if k > 0 && !(s[0].id == s[k].id && is_failed(s[0])) {
        assert(s.drop_first()[k - 1] == s[k]);
        lemma_first_failed_found(s.drop_first(), k - 1);
    }
}

/// The first failed job with id `id` in `v`.
fn find_failed_in(v: &Vec<Job>, id: JobId) -> (r: Option<Job>)
    ensures
        r matches Some(j) ==> first_failed(jobs_view(v@), id) == Some(j@),
        r is None ==> first_failed(jobs_view(v@), id) is None,
{
    let ghost all = jobs_view(v@);
    let mut k: usize = 0;
    assert(all.skip(0) =~= all);
    while k < v.len()
        invariant
            k <= v.len(),
            all == jobs_view(v@),
            first_failed(all, id) == first_failed(all.skip(k as int), id),
        decreases v.len() - k,
    {
        let job = &v[k];
        assert(job@ == all[k as int]);
        assert(all.skip(k as int)[0] == all[k as int]);
        assert(all.skip(k as int).drop_first() =~= all.skip(k + 1));
        let failed_now = match &job.status {
            JobStatus::Failed(_) => true,
            _ => false,
        };
        if job.id == id && failed_now {
            return Some(job.clone());
        }
        k = k + 1;
    }
    assert(all.skip(v.len() as int) =~= Seq::<JobView>::empty());
    None
}

/// The first failed job with id `id` in `q` followed by `d`.
fn find_failed(q: &Vec<Job>, d: &Vec<Job>, id: JobId) -> (r: Option<Job>)
    ensures
        r matches Some(j) ==> first_failed(jobs_view(q@) + jobs_view(d@), id) == Some(j@),
        r is None ==> first_failed(jobs_view(q@) + jobs_view(d@), id) is None,
{
    proof {
        lemma_first_failed_append(jobs_view(q@), jobs_view(d@), id);
    }
    match find_failed_in(q, id) {
        Some(j) => Some(j),
        None => find_failed_in(d, id),
    }
}

/// Appends the ids of the failed jobs of `v`, in order.
fn push_failed_ids(v: &Vec<Job>, r: &mut Vec<JobId>)
    ensures
        final(r)@ == old(r)@ + failed_ids(jobs_view(v@)),
{
    let ghost all = jobs_view(v@);
    let ghost r0 = r@;
    let mut k: usize = 0;
    while k < v.len()
        invariant
            k <= v.len(),
            all == jobs_view(v@),
            r@ == r0 + all.take(k as int).filter(failed()).map_values(|j: JobView| j.id),
        decreases v.len() - k,
    {
        let job = &v[k];
        assert(job@ == all[k as int]);
        proof {
            lemma_filter_step(all, failed(), k as int);
        }
        let failed_now = match &job.status {
            JobStatus::Failed(_) => true,
            _ => false,
        };
        if failed_now {
            r.push(job.id);
        }
        assert(r@ =~= r0 + all.take(k + 1).filter(failed()).map_values(|j: JobView| j.id));
        k = k + 1;
    }
    assert(all.take(v.len() as int) =~= all);
}

/// The ids of the failed jobs of `q` followed by `d`, in order.
fn failed_ids_in(q: &Vec<Job>, d: &Vec<Job>) -> (r: Vec<JobId>)
    ensures
        r@ == failed_ids(jobs_view(q@) + jobs_view(d@)),
{
    let mut r: Vec<JobId> = Vec::new();
    push_failed_ids(q, &mut r);
    push_failed_ids(d, &mut r);
    proof {
        let a = jobs_view(q@);
        let b = jobs_view(d@);
        Seq::filter_distributes_over_add(a, b, failed());
        assert(failed_ids(a + b) =~= failed_ids(a) + failed_ids(b));
    }
    r
}

fn retry_copy(j: &Job, keep_outcome: bool) -> (r: Job)
    ensures
        keep_outcome ==> r@ == retried_keeping_outcome(j@),
        !keep_outcome ==> r@ == retried(j@),
{
    let mut r = j.clone();
    r.status = JobStatus::Queued;
    r.error = None;
    if !keep_outcome {
        r.outcome = None;
    }
    r.started_at = None;
    r.completed_at = None;
    r
}

/// The position of the first job with id `id` in `v`.
fn position_of_id(v: &Vec<Job>, id: JobId) -> (r: Option<usize>)
    ensures
        r matches Some(i) ==> first_with_id(jobs_view(v@), id) == Some(i as int) && i < v@.len(),
        r is None ==> first_with_id(jobs_view(v@), id) is None,
{
    let ghost q = jobs_view(v@);
    let mut i: usize = 0;
    while i < v.len()
        invariant
            i <= v.len(),
            q == jobs_view(v@),
            forall|k: int| 0 <= k < i ==> (#[trigger] v@[k]).id != id,
        decreases v.len() - i,
    {
        if v[i].id == id {
            proof {
                lemma_first_with_id(q, id, i as int);
            }
            return Some(i);
        }
        i = i + 1;
    }
    proof {
        lemma_first_with_id_none(q, id);
    }
    None
}

proof fn lemma_first_with_id(q: Seq<JobView>, id: JobId, i: int)
    requires
        0 <= i < q.len(),
        q[i].id == id,
        forall|k: int| 0 <= k < i ==> q[k].id != id,
    ensures
        first_with_id(q, id) == Some(i),
    decreases q.len(),
{
    if i > 0 {
        assert forall|k: int| 0 <= k < i - 1 implies q.drop_first()[k].id != id by {
            assert(q.drop_first()[k] == q[k + 1]);
        }
        lemma_first_with_id(q.drop_first(), id, i - 1);
    }
}

proof fn lemma_first_with_id_none(q: Seq<JobView>, id: JobId)
    requires
        forall|k: int| 0 <= k < q.len() ==> q[k].id != id,
    ensures
        first_with_id(q, id) is None,
    decreases q.len(),
{
    if q.len() > 0 {
        assert forall|k: int| 0 <= k < q.len() - 1 implies q.drop_first()[k].id != id by {
            assert(q.drop_first()[k] == q[k + 1]);
        }
        lemma_first_with_id_none(q.drop_first(), id);
    }
}

impl JobScheduler {
    /// Cancels job `id`: aborts its task if it runs, drops it from both
    /// queues, and reports it cancelled.
    pub fn cancel_job(&mut self, id: JobId) -> (acts: Vec<WorkerAction>)
        ensures
            cancel_job_done(old(self), final(self), acts@, id),
            old(self).wf() ==> final(self).wf(),
    {
        let mut acts: Vec<WorkerAction> = Vec::new();
        let (rest, found) = ids_without(&self.active, id);
        if found {
            acts.push(WorkerAction::Abort(id));
        }
        proof {
            if old(self).wf() {
                assert forall|k: int| 0 <= k < rest@.len() implies #[trigger] rest@[k]
                    < self.next_job_id by {
                    assert(old(self).active@.contains(rest@[k]));
                }
            }
        }
        self.active = rest;
        let bound = Ghost(self.next_job_id);
        self.job_queue = jobs_without_id(&self.job_queue, id, bound);
        self.delayed_queue = jobs_without_id(&self.delayed_queue, id, bound);
        acts.push(WorkerAction::Emit(AppEvent::JobStatusChanged(id, JobStatus::Cancelled)));
        acts
    }

    /// Cancels everything: every running task is aborted and reported
    /// cancelled, then every queued and delayed job is reported cancelled,
    /// and all are dropped.
    pub fn cancel_all(&mut self) -> (acts: Vec<WorkerAction>)
        ensures
            cancel_all_done(old(self), final(self), acts@),
            final(self).wf(),
    {
        let ghost queued = jobs_view(self.job_queue@) + jobs_view(self.delayed_queue@);
        let mut acts: Vec<WorkerAction> = Vec::new();
        let mut i: usize = 0;
        while i < self.active.len()
            invariant
                i <= self.active.len(),
                self.active == old(self).active,
                acts@.len() == 2 * i,
                forall|k: int|
                    0 <= k < i ==> {
                        &&& (#[trigger] acts@[2 * k]) matches WorkerAction::Abort(x) && x
                            == self.active@[k]
                        &&& acts@[2 * k + 1] matches WorkerAction::Emit(
                            AppEvent::JobStatusChanged(x, JobStatus::Cancelled),
                        ) && x == self.active@[k]
                    },
            decreases self.active.len() - i,
        {
            let id = self.active[i];
            acts.push(WorkerAction::Abort(id));
            acts.push(WorkerAction::Emit(AppEvent::JobStatusChanged(id, JobStatus::Cancelled)));
            proof {
                assert forall|k: int| 0 <= k < i + 1 implies {
                    &&& (#[trigger] acts@[2 * k]) matches WorkerAction::Abort(x) && x
                        == self.active@[k]
                    &&& acts@[2 * k + 1] matches WorkerAction::Emit(
                        AppEvent::JobStatusChanged(x, JobStatus::Cancelled),
                    ) && x == self.active@[k]
                } by {
                    if k < i {
                        assert(acts@[2 * k] == acts@.take(2 * i)[2 * k]);
                    }
                }
            }
            i = i + 1;
        }
        let n = self.active.len();
        let nq = self.job_queue.len();
        let mut j: usize = 0;
        while j < nq
            invariant
                n == self.active@.len(),
                self.active == old(self).active,
                self.job_queue == old(self).job_queue,
                self.delayed_queue == old(self).delayed_queue,
                nq == self.job_queue@.len(),
                queued == jobs_view(self.job_queue@) + jobs_view(self.delayed_queue@),
                j <= nq,
                acts@.len() == 2 * n + j,
                forall|k: int|
                    0 <= k < n ==> {
                        &&& (#[trigger] acts@[2 * k]) matches WorkerAction::Abort(x) && x
                            == self.active@[k]
                        &&& acts@[2 * k + 1] matches WorkerAction::Emit(
                            AppEvent::JobStatusChanged(x, JobStatus::Cancelled),
                        ) && x == self.active@[k]
                    },
                forall|k: int|
                    0 <= k < j ==> {
                        (#[trigger] acts@[2 * n + k]) matches WorkerAction::Emit(
                            AppEvent::JobStatusChanged(x, JobStatus::Cancelled),
                        ) && x == queued[k].id
                    },
            decreases nq - j,
        {
            let id = self.job_queue[j].id;
            assert(id == queued[j as int].id);
            self.push_cancelled(&mut acts, id, Ghost(n as nat), Ghost(queued), Ghost(j as int));
            j = j + 1;
        }
        let mut d: usize = 0;
        while d < self.delayed_queue.len()
            invariant
                n == self.active@.len(),
                self.active == old(self).active,
                self.job_queue == old(self).job_queue,
                self.delayed_queue == old(self).delayed_queue,
                nq == self.job_queue@.len(),
                queued == jobs_view(self.job_queue@) + jobs_view(self.delayed_queue@),
                d <= self.delayed_queue.len(),
                acts@.len() == 2 * n + nq + d,
                forall|k: int|
                    0 <= k < n ==> {
                        &&& (#[trigger] acts@[2 * k]) matches WorkerAction::Abort(x) && x
                            == self.active@[k]
                        &&& acts@[2 * k + 1] matches WorkerAction::Emit(
                            AppEvent::JobStatusChanged(x, JobStatus::Cancelled),
                        ) && x == self.active@[k]
                    },
                forall|k: int|
                    0 <= k < nq + d ==> {
                        (#[trigger] acts@[2 * n + k]) matches WorkerAction::Emit(
                            AppEvent::JobStatusChanged(x, JobStatus::Cancelled),
                        ) && x == queued[k].id
                    },
            decreases self.delayed_queue.len() - d,
        {
            let id = self.delayed_queue[d].id;
            assert(id == queued[nq + d].id);
            self.push_cancelled(&mut acts, id, Ghost(n as nat), Ghost(queued), Ghost((nq + d) as int));
            d = d + 1;
        }
        self.active = Vec::new();
        self.job_queue = Vec::new();
        self.delayed_queue = Vec::new();
        acts
    }

    /// Queues again the first failed job with id `id` (queue before delayed
    /// queue), cleared of its error, outcome and times, and reports it
    /// queued; nothing happens when there is none.
    pub fn retry_job(&mut self, id: JobId) -> (acts: Vec<WorkerAction>)
        ensures
            retry_job_done(old(self), final(self), acts@, id),
            old(self).wf() ==> final(self).wf(),
    {
        let mut acts: Vec<WorkerAction> = Vec::new();
        let ghost all = jobs_view(self.job_queue@) + jobs_view(self.delayed_queue@);
        if let Some(job) = find_failed(&self.job_queue, &self.delayed_queue, id) {
            let r = retry_copy(&job, false);
            proof {
                lemma_jobs_view_push(self.job_queue@, r);
                if old(self).wf() {
                    lemma_first_failed_in(all, id);
                    let k = choose|k: int| 0 <= k < all.len() && all[k] == job@;
                    if k < old(self).job_queue@.len() {
                        assert(all[k] == old(self).job_queue@[k]@);
                    } else {
                        assert(all[k] == old(self).delayed_queue@[k - old(self).job_queue@.len()]@);
                    }
                }
            }
            self.job_queue.push(r);
            acts.push(WorkerAction::Emit(AppEvent::JobStatusChanged(id, JobStatus::Queued)));
            proof {
                if old(self).wf() {
                    let q = self.job_queue@;
                    assert forall|i: int| 0 <= i < q.len() implies (#[trigger] q[i]).id
                        < self.next_job_id by {
                        if i < q.len() - 1 {
                            assert(q[i] == old(self).job_queue@[i]);
                        }
                    }
                }
            }
        }
        acts
    }
}

proof fn lemma_first_failed_in(s: Seq<JobView>, id: JobId)
    ensures
        first_failed(s, id) matches Some(j) ==> exists|k: int|
            0 <= k < s.len() && s[k] == j && #[trigger] is_failed(s[k]) && j.id == id,
    decreases s.len(),
{
    if s.len() > 0 && !(s[0].id == id && is_failed(s[0])) {
        lemma_first_failed_in(s.drop_first(), id);
        if let Some(j) = first_failed(s, id) {
            let k = choose|k: int| 0 <= k < s.drop_first().len() && s.drop_first()[k] == j
                && #[trigger] is_failed(s.drop_first()[k]) && j.id == id;
            assert(s[k + 1] == j);
        }
    } else if s.len() > 0 {
        assert(s[0] == first_failed(s, id).unwrap());
    }
}

impl JobScheduler {
    /// Appends the report that queued job number `j` (with id `id`) was
    /// cancelled, keeping what was reported before.
    fn push_cancelled(
        &self,
        acts: &mut Vec<WorkerAction>,
        id: JobId,
        Ghost(n): Ghost<nat>,
        Ghost(queued): Ghost<Seq<JobView>>,
        Ghost(j): Ghost<int>,
    )
        requires
            n == self.active@.len(),
            0 <= j < queued.len(),
            id == queued[j].id,
            old(acts)@.len() == 2 * n + j,
            forall|k: int|
                0 <= k < n ==> {
                    &&& (#[trigger] old(acts)@[2 * k]) matches WorkerAction::Abort(x) && x
                        == self.active@[k]
                    &&& old(acts)@[2 * k + 1] matches WorkerAction::Emit(
                        AppEvent::JobStatusChanged(x, JobStatus::Cancelled),
                    ) && x == self.active@[k]
                },
            forall|k: int|
                0 <= k < j ==> {
                    (#[trigger] old(acts)@[2 * n + k]) matches WorkerAction::Emit(
                        AppEvent::JobStatusChanged(x, JobStatus::Cancelled),
                    ) && x == queued[k].id
                },
        ensures
            final(acts)@.len() == 2 * n + j + 1,
            forall|k: int|
                0 <= k < n ==> {
                    &&& (#[trigger] final(acts)@[2 * k]) matches WorkerAction::Abort(x) && x
                        == self.active@[k]
                    &&& final(acts)@[2 * k + 1] matches WorkerAction::Emit(
                        AppEvent::JobStatusChanged(x, JobStatus::Cancelled),
                    ) && x == self.active@[k]
                },
            forall|k: int|
                0 <= k < j + 1 ==> {
                    (#[trigger] final(acts)@[2 * n + k]) matches WorkerAction::Emit(
                        AppEvent::JobStatusChanged(x, JobStatus::Cancelled),
                    ) && x == queued[k].id
                },
    {
        let ghost before = acts@;
        acts.push(WorkerAction::Emit(AppEvent::JobStatusChanged(id, JobStatus::Cancelled)));
        proof {
            assert forall|k: int| 0 <= k < n implies {
                &&& (#[trigger] acts@[2 * k]) matches WorkerAction::Abort(x) && x
                    == self.active@[k]
                &&& acts@[2 * k + 1] matches WorkerAction::Emit(
                    AppEvent::JobStatusChanged(x, JobStatus::Cancelled),
                ) && x == self.active@[k]
            } by {
                assert(acts@[2 * k] == before[2 * k]);
                assert(acts@[2 * k + 1] == before[2 * k + 1]);
            }
            assert forall|k: int| 0 <= k < j + 1 implies {
                (#[trigger] acts@[2 * n + k]) matches WorkerAction::Emit(
                    AppEvent::JobStatusChanged(x, JobStatus::Cancelled),
                ) && x == queued[k].id
            } by {
                if k < j {
                    assert(acts@[2 * n + k] == before[2 * n + k]);
                }
            }
        }
    }
}

proof fn lemma_failed_ids_found(all: Seq<JobView>, k: int)
    requires
        0 <= k < failed_ids(all).len(),
    ensures
        first_failed(all, failed_ids(all)[k]) is Some,
{
    let f = all.filter(failed());
    broadcast use vstd::seq_lib::group_filter_ensures;
    assert(f.contains(f[k]));
    assert(failed()(f[k]));
    all.lemma_filter_contains_rev(failed(), f[k]);
    let i = choose|i: int| 0 <= i < all.len() && all[i] == f[k];
    lemma_first_failed_found(all, i);
}

impl JobScheduler {
    /// Queues again every failed job (queue before delayed queue), in order,
    /// cleared of its error and times, and reports each queued.
    pub fn retry_all_failed(&mut self) -> (acts: Vec<WorkerAction>)
        ensures
            retry_all_done(old(self), final(self), acts@),
            old(self).wf() ==> final(self).wf(),
    {
        let ids = failed_ids_in(&self.job_queue, &self.delayed_queue);
        let q0 = self.job_queue.clone();
        let d0 = self.delayed_queue.clone();
        let ghost all = jobs_view(old(self).job_queue@) + jobs_view(old(self).delayed_queue@);
        assert(jobs_view(q0@) =~= jobs_view(old(self).job_queue@));
        assert(jobs_view(d0@) =~= jobs_view(old(self).delayed_queue@));
        let ghost oq = jobs_view(old(self).job_queue@);
        let mut acts: Vec<WorkerAction> = Vec::new();
        let mut i: usize = 0;
        while i < ids.len()
            invariant
                i <= ids.len(),
                ids@ == failed_ids(all),
                all == jobs_view(q0@) + jobs_view(d0@),
                oq == jobs_view(old(self).job_queue@),
                jobs_view(self.job_queue@).len() == oq.len() + i,
                jobs_view(self.job_queue@).take(oq.len() as int) == oq,
                acts@.len() == i,
                forall|k: int|
                    0 <= k < i ==> {
                        &&& first_failed(all, ids@[k]) is Some
                        &&& #[trigger] jobs_view(self.job_queue@)[oq.len() + k]
                            == retried_keeping_outcome(first_failed(all, ids@[k]).unwrap())
                        &&& acts@[k] matches WorkerAction::Emit(
                            AppEvent::JobStatusChanged(x, JobStatus::Queued),
                        ) && x == ids@[k]
                    },
                self.delayed_queue == old(self).delayed_queue,
                same_settings(self, old(self)),
                self.next_job_id == old(self).next_job_id,
                old(self).wf() ==> forall|k: int| 0 <= k < all.len() ==> (#[trigger] all[k]).id
                    < self.next_job_id,
                old(self).wf() ==> self.wf(),
            decreases ids.len() - i,
        {
            proof {
                lemma_failed_ids_found(all, i as int);
            }
            let id = ids[i];
            let found = find_failed(&q0, &d0, id);
            let job = found.unwrap();
            let r = retry_copy(&job, true);
            let ghost before = self.job_queue@;
            proof {
                lemma_jobs_view_push(self.job_queue@, r);
                lemma_first_failed_in(all, id);
            }
            self.job_queue.push(r);
            acts.push(WorkerAction::Emit(AppEvent::JobStatusChanged(id, JobStatus::Queued)));
            proof {
                let q = jobs_view(self.job_queue@);
                assert(q.take(oq.len() as int) =~= oq) by {
                    assert(jobs_view(before).take(oq.len() as int) == oq);
                }
                if old(self).wf() {
                    let sq = self.job_queue@;
                    assert forall|t: int| 0 <= t < sq.len() implies (#[trigger] sq[t]).id
                        < self.next_job_id by {
                        if t < sq.len() - 1 {
                            assert(sq[t] == before[t]);
                        }
                    }
                }
            }
            i = i + 1;
        }
        acts
    }

    /// Drops completed and cancelled jobs from the queue.
    pub fn flush_completed(&mut self) -> (acts: Vec<WorkerAction>)
        ensures
            flush_completed_done(old(self), final(self), acts@),
            old(self).wf() ==> final(self).wf(),
    {
        self.job_queue = unfinished_jobs(&self.job_queue, Ghost(self.next_job_id));
        Vec::new()
    }

    /// Moves the first queued job with id `id` to position `pos` (clamped to
    /// the end of the queue).
    pub fn reorder_job(&mut self, id: JobId, pos: usize) -> (acts: Vec<WorkerAction>)
        ensures
            reorder_done(old(self), final(self), acts@, id, pos),
            old(self).wf() ==> final(self).wf(),
    {
        if let Some(i) = position_of_id(&self.job_queue, id) {
            let ghost q = self.job_queue@;
            let job = self.job_queue.remove(i);
            let at = if pos <= self.job_queue.len() {
                pos
            } else {
                self.job_queue.len()
            };
            self.job_queue.insert(at, job);
            proof {
                assert(jobs_view(self.job_queue@) =~= jobs_view(q).remove(i as int).insert(
                    at as int,
                    jobs_view(q)[i as int],
                ));
                if old(self).wf() {
                    let nq = self.job_queue@;
                    assert forall|t: int| 0 <= t < nq.len() implies (#[trigger] nq[t]).id
                        < self.next_job_id by {
                        let r = q.remove(i as int);
                        if t < at {
                            assert(nq[t] == r[t]);
                        } else if t > at {
                            assert(nq[t] == r[t - 1]);
                        }
                        assert(r.len() == q.len() - 1);
                        assert forall|u: int| 0 <= u < r.len() implies r[u].id < self.next_job_id by {
                            if u < i {
                                assert(r[u] == q[u]);
                            } else {
                                assert(r[u] == q[u + 1]);
                            }
                        }
                    }
                }
            }
        }
        Vec::new()
    }

    /// Carries out a command given at time `now`.
    pub fn handle_command(&mut self, cmd: AppCommand, now: u64) -> (acts: Vec<WorkerAction>)
        requires
            old(self).next_job_id + ids_needed(cmd) < u64::MAX,
        ensures
            command_done(old(self), final(self), acts@, cmd, now),
            old(self).wf() ==> final(self).wf(),
    {
        match cmd {
            AppCommand::CancelJob(id) => self.cancel_job(id),
            AppCommand::CancelAll => self.cancel_all(),
            AppCommand::RetryJob(id) => self.retry_job(id),
            AppCommand::RetryAllFailed => self.retry_all_failed(),
            AppCommand::FlushCompleted => self.flush_completed(),
            AppCommand::FlushAll => self.cancel_all(),
            AppCommand::SetMaxWorkers(n) => {
                self.max_workers = n;
                let mut acts: Vec<WorkerAction> = Vec::new();
                acts.push(WorkerAction::Emit(AppEvent::WorkersChanged(n)));
                acts
            },
            AppCommand::Scrape(url) => self.enqueue_scrape(url.as_str(), JobPriority::High, now),
            AppCommand::FetchChapter(url, idx) => self.enqueue_fetch_chapter(url, idx, now),
            AppCommand::FetchCover(url) => self.enqueue_fetch_cover(url, now),
            AppCommand::EmbedBatch(chapters) => self.enqueue_embed_batch(chapters, now),
            AppCommand::Enqueue(kind, target, priority) => self.enqueue(kind, target, priority, now),
            AppCommand::UpdateAll(urls) => self.enqueue_update_all(urls, now),
            AppCommand::SetRateLimit(secs) => {
                self.rate_limit_secs = secs;
                Vec::new()
            },
            AppCommand::ReorderJob(id, pos) => self.reorder_job(id, pos),
            AppCommand::InstallPlugin(url) => {
                let mut acts: Vec<WorkerAction> = Vec::new();
                acts.push(WorkerAction::InstallPlugin(url));
                acts
            },
        }
    }
}

/// Jobs whose host has cooled down at `now`.
pub open spec fn ready(lr: Seq<(Seq<char>, u64)>, rate: u64, now: u64) -> spec_fn(JobView) -> bool {
    |j: JobView| cooled_down(lr, rate, now, j)
}

/// Jobs whose host has not cooled down at `now`.
pub open spec fn not_ready(lr: Seq<(Seq<char>, u64)>, rate: u64, now: u64) -> spec_fn(JobView) -> bool {
    |j: JobView| !cooled_down(lr, rate, now, j)
}

proof fn lemma_last_request_step(lr: Seq<(Seq<char>, u64)>, d: Seq<char>, i: int)
    requires
        0 <= i < lr.len(),
        lr[i].0 != d,
    ensures
        last_request_at(lr.skip(i), d) == last_request_at(lr.skip(i + 1), d),
        request_pos(lr.skip(i), d) == (match request_pos(lr.skip(i + 1), d) {
            Some(k) => Some(k + 1),
            None => None,
        }),
{
    assert(lr.skip(i)[0] == lr[i]);
    assert(lr.skip(i).drop_first() =~= lr.skip(i + 1));
}

proof fn lemma_request_pos_shift(lr: Seq<(Seq<char>, u64)>, d: Seq<char>, i: int)
    requires
        0 <= i <= lr.len(),
        forall|k: int| 0 <= k < i ==> lr[k].0 != d,
    ensures
        request_pos(lr, d) == (match request_pos(lr.skip(i), d) {
            Some(k) => Some(k + i),
            None => None,
        }),
    decreases i,
{
    if i > 0 {
        lemma_request_pos_shift(lr, d, i - 1);
        lemma_last_request_step(lr, d, i - 1);
    } else {
        assert(lr.skip(0) =~= lr);
    }
}

impl JobScheduler {
    /// When the last request to `d` started.
    fn last_request_for(&self, d: &String) -> (r: Option<u64>)
        ensures
            r == last_request_at(requests_view(self.last_request@), d@),
    {
        let ghost lr = requests_view(self.last_request@);
        let mut i: usize = 0;
        assert(lr.skip(0) =~= lr);
        while i < self.last_request.len()
            invariant
                i <= self.last_request.len(),
                lr == requests_view(self.last_request@),
                last_request_at(lr, d@) == last_request_at(lr.skip(i as int), d@),
            decreases self.last_request.len() - i,
        {
            assert(lr[i as int] == (self.last_request@[i as int].0@, self.last_request@[i as int].1));
            if str_eq(self.last_request[i].0.as_str(), d.as_str()) {
                assert(lr.skip(i as int)[0] == lr[i as int]);
                return Some(self.last_request[i].1);
            }
            proof {
                lemma_last_request_step(lr, d@, i as int);
            }
            i = i + 1;
        }
        assert(lr.skip(i as int) =~= Seq::<(Seq<char>, u64)>::empty());
        None
    }

    /// Records a request to `d` at `now`.
    fn record_request(&mut self, d: String, now: u64)
        ensures
            requests_view(final(self).last_request@) == record_request(
                requests_view(old(self).last_request@),
                d@,
                now,
            ),
            final(self).job_queue == old(self).job_queue,
            final(self).delayed_queue == old(self).delayed_queue,
            final(self).active == old(self).active,
            final(self).next_job_id == old(self).next_job_id,
            final(self).rate_limit_secs == old(self).rate_limit_secs,
            final(self).max_workers == old(self).max_workers,
    {
        let ghost lr = requests_view(self.last_request@);
        let mut i: usize = 0;
        while i < self.last_request.len()
            invariant
                i <= self.last_request.len(),
                self.last_request == old(self).last_request,
                self.job_queue == old(self).job_queue,
                self.delayed_queue == old(self).delayed_queue,
                self.active == old(self).active,
                self.next_job_id == old(self).next_job_id,
                self.rate_limit_secs == old(self).rate_limit_secs,
                self.max_workers == old(self).max_workers,
                lr == requests_view(self.last_request@),
                forall|k: int| 0 <= k < i ==> lr[k].0 != d@,
            decreases self.last_request.len() - i,
        {
            assert(lr[i as int] == (self.last_request@[i as int].0@, self.last_request@[i as int].1));
            if str_eq(self.last_request[i].0.as_str(), d.as_str()) {
                proof {
                    lemma_request_pos_shift(lr, d@, i as int);
                    assert(lr.skip(i as int)[0] == lr[i as int]);
                }
                self.last_request.set(i, (d, now));
                assert(requests_view(self.last_request@) =~= lr.update(i as int, (d@, now)));
                return;
            }
            i = i + 1;
        }
        proof {
            lemma_request_pos_shift(lr, d@, i as int);
            assert(lr.skip(i as int) =~= Seq::<(Seq<char>, u64)>::empty());
        }
        self.last_request.push((d, now));
        assert(requests_view(self.last_request@) =~= lr.push((d@, now)));
    }

    /// Whether a request for `job` may start at `now`, and the host it goes to.
    fn check_cooled(&self, job: &Job, now: u64) -> (r: (bool, Option<String>))
        ensures
            r.0 == cooled_down(requests_view(self.last_request@), self.rate_limit_secs, now, job@),
            r.1 matches Some(d) ==> domain_of(kind_target(job@.kind)) == Some(d@),
            r.1 is None ==> domain_of(kind_target(job@.kind)) is None,
    {
        let domain = extract_domain(job.kind.target());
        match domain {
            None => (true, None),
            Some(d) => {
                let cooled = match self.last_request_for(&d) {
                    None => true,
                    Some(t) => {
                        let elapsed = if now >= t {
                            now - t
                        } else {
                            0
                        };
                        let rate = self.rate_limit_secs;
                        assert((elapsed / 1000 >= rate) == (elapsed >= rate * 1000)) by (nonlinear_arith);
                        elapsed / 1000 >= rate
                    },
                };
                (cooled, Some(d))
            },
        }
    }

    fn active_contains(&self, id: JobId) -> (r: bool)
        ensures
            r == self.active@.contains(id),
    {
        let mut i: usize = 0;
        while i < self.active.len()
            invariant
                i <= self.active.len(),
                forall|k: int| 0 <= k < i ==> self.active@[k] != id,
            decreases self.active.len() - i,
        {
            if self.active[i] == id {
                return true;
            }
            i = i + 1;
        }
        false
    }

    /// Starts queued jobs at time `now`, from the front of the queue, while
    /// fewer than `max_workers` tasks run: a job whose host has not cooled
    /// down goes to the delayed queue instead; a started job is marked
    /// running, its host's request time recorded, and reported then run.
    pub fn try_spawn(&mut self, now: u64) -> (acts: Vec<WorkerAction>)
        ensures
            ({
                let r = spawn_run(
                    jobs_view(old(self).job_queue@),
                    jobs_view(old(self).delayed_queue@),
                    old(self).active@,
                    requests_view(old(self).last_request@),
                    old(self).max_workers as nat,
                    old(self).rate_limit_secs,
                    now,
                );
                &&& jobs_view(final(self).job_queue@) == r.0
                &&& jobs_view(final(self).delayed_queue@) == r.1
                &&& final(self).active@ == r.2
                &&& requests_view(final(self).last_request@) == r.3
                &&& start_actions(acts@, r.4)
            }),
            final(self).next_job_id == old(self).next_job_id,
            final(self).rate_limit_secs == old(self).rate_limit_secs,
            final(self).max_workers == old(self).max_workers,
            old(self).wf() ==> final(self).wf(),
    {
        let ghost target = spawn_run(
            jobs_view(self.job_queue@),
            jobs_view(self.delayed_queue@),
            self.active@,
            requests_view(self.last_request@),
            self.max_workers as nat,
            self.rate_limit_secs,
            now,
        );
        let mut acts: Vec<WorkerAction> = Vec::new();
        let ghost mut started: Seq<JobView> = seq![];
        while self.active.len() < self.max_workers as usize && self.job_queue.len() > 0
            invariant
                ({
                    let c = spawn_run(
                        jobs_view(self.job_queue@),
                        jobs_view(self.delayed_queue@),
                        self.active@,
                        requests_view(self.last_request@),
                        self.max_workers as nat,
                        self.rate_limit_secs,
                        now,
                    );
                    &&& c.0 == target.0
                    &&& c.1 == target.1
                    &&& c.2 == target.2
                    &&& c.3 == target.3
                    &&& target.4 == started + c.4
                }),
                start_actions(acts@, started),
                self.next_job_id == old(self).next_job_id,
                self.rate_limit_secs == old(self).rate_limit_secs,
                self.max_workers == old(self).max_workers,
                old(self).wf() ==> self.wf(),
            decreases self.job_queue.len(),
        {
            let ghost q = jobs_view(self.job_queue@);
            let ghost qv = self.job_queue@;
            let mut job = self.job_queue.remove(0);
            assert(jobs_view(self.job_queue@) =~= q.drop_first());
            assert(job@ == q[0]);
            let (cooled, domain) = self.check_cooled(&job, now);
            if !cooled {
                proof {
                    lemma_jobs_view_push(self.delayed_queue@, job);
                }
                let ghost dv = self.delayed_queue@;
                self.delayed_queue.push(job);
                proof {
                    if old(self).wf() {
                        assert(job.id < self.next_job_id) by {
                            assert(qv[0] == job);
                        }
                        assert forall|t: int| 0 <= t < self.job_queue@.len() implies (
                        #[trigger] self.job_queue@[t]).id < self.next_job_id by {
                            assert(self.job_queue@[t] == qv[t + 1]);
                        }
                        assert forall|t: int| 0 <= t < self.delayed_queue@.len() implies (
                        #[trigger] self.delayed_queue@[t]).id < self.next_job_id by {
                            if t < dv.len() {
                                assert(self.delayed_queue@[t] == dv[t]);
                            }
                        }
                    }
                }
            } else {
                let id = job.id;
                job.status = JobStatus::Running;
                assert(job@ == running(q[0]));
                acts.push(WorkerAction::Emit(AppEvent::JobStatusChanged(id, JobStatus::Running)));
                if let Some(d) = domain {
                    self.record_request(d, now);
                }
                if !self.active_contains(id) {
                    self.active.push(id);
                }
                acts.push(WorkerAction::Start(job));
                proof {
                    let old_started = started;
                    started = started.push(running(q[0]));
                    assert(seq![running(q[0])] + spawn_run(
                        jobs_view(self.job_queue@),
                        jobs_view(self.delayed_queue@),
                        self.active@,
                        requests_view(self.last_request@),
                        self.max_workers as nat,
                        self.rate_limit_secs,
                        now,
                    ).4 =~= seq![running(q[0])] + spawn_run(
                        jobs_view(self.job_queue@),
                        jobs_view(self.delayed_queue@),
                        self.active@,
                        requests_view(self.last_request@),
                        self.max_workers as nat,
                        self.rate_limit_secs,
                        now,
                    ).4);
                    assert(target.4 =~= started + spawn_run(
                        jobs_view(self.job_queue@),
                        jobs_view(self.delayed_queue@),
                        self.active@,
                        requests_view(self.last_request@),
                        self.max_workers as nat,
                        self.rate_limit_secs,
                        now,
                    ).4);
                    let n = old_started.len();
                    assert forall|k: int| 0 <= k < started.len() implies {
                        &&& (#[trigger] acts@[2 * k]) matches WorkerAction::Emit(
                            AppEvent::JobStatusChanged(x, JobStatus::Running),
                        ) && x == started[k].id
                        &&& acts@[2 * k + 1] matches WorkerAction::Start(j) && j@ == started[k]
                    } by {
                        if k < n {
                            assert(acts@[2 * k] == acts@.take(2 * n as int)[2 * k]);
                            assert(acts@[2 * k + 1] == acts@.take(2 * n as int)[2 * k + 1]);
                        }
                    }
                    if old(self).wf() {
                        assert(id < self.next_job_id) by {
                            assert(qv[0].id == id);
                        }
                        assert forall|t: int| 0 <= t < self.job_queue@.len() implies (
                        #[trigger] self.job_queue@[t]).id < self.next_job_id by {
                            assert(self.job_queue@[t] == qv[t + 1]);
                        }
                    }
                }
            }
        }
        acts
    }

    /// Moves the delayed jobs whose host has cooled down at `now` to the
    /// front of the queue, keeping their order.
    pub fn process_delayed(&mut self, now: u64)
        ensures
            jobs_view(final(self).delayed_queue@) == jobs_view(old(self).delayed_queue@).filter(
                not_ready(requests_view(old(self).last_request@), old(self).rate_limit_secs, now),
            ),
            jobs_view(final(self).job_queue@) == jobs_view(old(self).delayed_queue@).filter(
                ready(requests_view(old(self).last_request@), old(self).rate_limit_secs, now),
            ) + jobs_view(old(self).job_queue@),
            same_settings(final(self), old(self)),
            final(self).next_job_id == old(self).next_job_id,
            old(self).wf() ==> final(self).wf(),
    {
        let ghost lr = requests_view(self.last_request@);
        let ghost dv = jobs_view(self.delayed_queue@);
        let rate = self.rate_limit_secs;
        let mut ready_jobs: Vec<Job> = Vec::new();
        let mut waiting: Vec<Job> = Vec::new();
        let mut i: usize = 0;
        while i < self.delayed_queue.len()
            invariant
                i <= self.delayed_queue.len(),
                self.delayed_queue == old(self).delayed_queue,
                self.last_request == old(self).last_request,
                self.rate_limit_secs == rate,
                lr == requests_view(self.last_request@),
                dv == jobs_view(self.delayed_queue@),
                jobs_view(ready_jobs@) == dv.take(i as int).filter(ready(lr, rate, now)),
                jobs_view(waiting@) == dv.take(i as int).filter(not_ready(lr, rate, now)),
                old(self).wf() ==> forall|k: int| 0 <= k < ready_jobs@.len() ==> (#[trigger] ready_jobs@[k]).id < self.next_job_id,
                old(self).wf() ==> forall|k: int| 0 <= k < waiting@.len() ==> (#[trigger] waiting@[k]).id < self.next_job_id,
                self.next_job_id == old(self).next_job_id,
            decreases self.delayed_queue.len() - i,
        {
            proof {
                lemma_jobs_view_take(self.delayed_queue@, i as int);
                lemma_filter_step(dv, ready(lr, rate, now), i as int);
                lemma_filter_step(dv, not_ready(lr, rate, now), i as int);
                assert(dv[i as int] == self.delayed_queue@[i as int]@);
            }
            let (cooled, _) = self.check_cooled(&self.delayed_queue[i], now);
            let c = self.delayed_queue[i].clone();
            if cooled {
                proof {
                    lemma_jobs_view_push(ready_jobs@, c);
                }
                ready_jobs.push(c);
            } else {
                proof {
                    lemma_jobs_view_push(waiting@, c);
                }
                waiting.push(c);
            }
            i = i + 1;
        }
        assert(dv.take(self.delayed_queue.len() as int) =~= dv);
        let mut j: usize = 0;
        let ghost rv = jobs_view(ready_jobs@);
        while j < self.job_queue.len()
            invariant
                j <= self.job_queue.len(),
                self.job_queue == old(self).job_queue,
                jobs_view(ready_jobs@) == rv + jobs_view(self.job_queue@).take(j as int),
                old(self).wf() ==> forall|k: int| 0 <= k < ready_jobs@.len() ==> (#[trigger] ready_jobs@[k]).id < self.next_job_id,
                self.next_job_id == old(self).next_job_id,
            decreases self.job_queue.len() - j,
        {
            let c = self.job_queue[j].clone();
            proof {
                lemma_jobs_view_push(ready_jobs@, c);
                lemma_jobs_view_take(self.job_queue@, j as int);
            }
            ready_jobs.push(c);
            j = j + 1;
        }
        assert(jobs_view(self.job_queue@).take(self.job_queue.len() as int) =~= jobs_view(self.job_queue@));
        self.job_queue = ready_jobs;
        self.delayed_queue = waiting;
    }

    /// Notes that the task of job `id` has finished.
    pub fn job_finished(&mut self, id: JobId)
        ensures
            final(self).active@ == old(self).active@.filter(other_task(id)),
            final(self).job_queue == old(self).job_queue,
            final(self).delayed_queue == old(self).delayed_queue,
            final(self).last_request == old(self).last_request,
            final(self).next_job_id == old(self).next_job_id,
            final(self).rate_limit_secs == old(self).rate_limit_secs,
            final(self).max_workers == old(self).max_workers,
            old(self).wf() ==> final(self).wf(),
    {
        let (rest, _) = ids_without(&self.active, id);
        proof {
            if old(self).wf() {
                assert forall|k: int| 0 <= k < rest@.len() implies #[trigger] rest@[k]
                    < self.next_job_id by {
                    assert(old(self).active@.contains(rest@[k]));
                }
            }
        }
        self.active = rest;
    }
}

/// The ids of a list of jobs.
pub open spec fn ids_of(q: Seq<JobView>) -> Seq<JobId> {
    q.map_values(|j: JobView| j.id)
}

/// Starting jobs never takes the number of running tasks above the worker
/// limit (unless it already was above it), and loses or duplicates no job:
/// every job that was queued or delayed is afterwards queued, delayed or
/// started, exactly once.
pub proof fn lemma_spawn_bounded_and_conserving(
    queue: Seq<JobView>,
    delayed: Seq<JobView>,
    active: Seq<JobId>,
    lr: Seq<(Seq<char>, u64)>,
    max: nat,
    rate: u64,
    now: u64,
)
    ensures
        ({
            let r = spawn_run(queue, delayed, active, lr, max, rate, now);
            &&& r.2.len() <= if active.len() > max { active.len() } else { max }
            &&& (ids_of(queue) + ids_of(delayed)).to_multiset() =~= (ids_of(r.0) + ids_of(r.1)
                + ids_of(r.4)).to_multiset()
        }),
    decreases queue.len(),
{
    broadcast use vstd::seq_lib::group_to_multiset_ensures;
    let r = spawn_run(queue, delayed, active, lr, max, rate, now);
    if active.len() >= max || queue.len() == 0 {
        assert(ids_of(r.4) =~= Seq::<JobId>::empty());
        assert(ids_of(r.0) + ids_of(r.1) + ids_of(r.4) =~= ids_of(queue) + ids_of(delayed));
    } else {
        let j = queue[0];
        assert(ids_of(queue) =~= seq![j.id] + ids_of(queue.drop_first()));
        if !cooled_down(lr, rate, now, j) {
            lemma_spawn_bounded_and_conserving(queue.drop_first(), delayed.push(j), active, lr, max, rate, now);
            assert(ids_of(delayed.push(j)) =~= ids_of(delayed).push(j.id));
            lemma_multiset_rotate(ids_of(queue.drop_first()), ids_of(delayed), j.id);
        } else {
            let lr2 = match domain_of(kind_target(j.kind)) {
                Some(d) => record_request(lr, d, now),
                None => lr,
            };
            let active2 = if active.contains(j.id) { active } else { active.push(j.id) };
            lemma_spawn_bounded_and_conserving(queue.drop_first(), delayed, active2, lr2, max, rate, now);
            let r2 = spawn_run(queue.drop_first(), delayed, active2, lr2, max, rate, now);
            assert(ids_of(r.4) =~= seq![j.id] + ids_of(r2.4));
            lemma_multiset_move_front(ids_of(r2.0) + ids_of(r2.1), ids_of(r2.4), j.id);
            assert(ids_of(queue) + ids_of(delayed) =~= seq![j.id] + (ids_of(queue.drop_first()) + ids_of(delayed)));
            assert((seq![j.id] + (ids_of(queue.drop_first()) + ids_of(delayed))).to_multiset() =~= (ids_of(queue.drop_first()) + ids_of(delayed)).to_multiset().insert(j.id)) by {
                lemma_multiset_cons(ids_of(queue.drop_first()) + ids_of(delayed), j.id);
            }
        }
    }
}

proof fn lemma_request_pos_bound(lr: Seq<(Seq<char>, u64)>, d: Seq<char>)
    ensures
        match request_pos(lr, d) {
            Some(k) => 0 <= k < lr.len(),
            None => true,
        },
    decreases lr.len(),
{
    if lr.len() > 0 && lr[0].0 != d {
        lemma_request_pos_bound(lr.drop_first(), d);
    }
}

proof fn lemma_record_request_lookup(lr: Seq<(Seq<char>, u64)>, d: Seq<char>, now: u64, x: Seq<char>)
    ensures
        last_request_at(record_request(lr, d, now), x) == if x == d {
            Some(now)
        } else {
            last_request_at(lr, x)
        },
    decreases lr.len(),
{
    let rr = record_request(lr, d, now);
    if lr.len() == 0 {
        assert(rr =~= seq![(d, now)]);
        assert(rr[0] == (d, now));
        assert(rr.drop_first() =~= Seq::<(Seq<char>, u64)>::empty());
        assert(last_request_at(rr.drop_first(), x) is None);
    } else if lr[0].0 == d {
        assert(request_pos(lr, d) == Some(0int));
        assert(rr == lr.update(0, (d, now)));
        assert(rr[0] == (d, now));
        assert(rr.len() == lr.len());
        assert(rr.drop_first() =~= lr.drop_first());
    } else {
        lemma_record_request_lookup(lr.drop_first(), d, now, x);
        let rest = record_request(lr.drop_first(), d, now);
        lemma_request_pos_bound(lr.drop_first(), d);
        assert(rr =~= seq![lr[0]] + rest) by {
            match request_pos(lr.drop_first(), d) {
                Some(k) => {
                    assert(request_pos(lr, d) == Some(k + 1));
                    assert(rr == lr.update(k + 1, (d, now)));
                    assert(rest == lr.drop_first().update(k, (d, now)));
                },
                None => {
                    assert(request_pos(lr, d) is None);
                    assert(rr == lr.push((d, now)));
                    assert(rest == lr.drop_first().push((d, now)));
                },
            }
        }
        assert(rr.drop_first() =~= rest);
        assert(rr[0] == lr[0]);
        assert(rr.len() > 0);
    }
}

/// Whether the rate limit lets a request to the host of `j` start at `now`,
/// given when each host was last requested: the job has no host, its host
/// was never requested, there is no limit, or the last request to the host
/// started at least `rate` seconds (`rate * 1000` milliseconds) before.
proof fn lemma_cooled_down_is_rate_limit(lr: Seq<(Seq<char>, u64)>, rate: u64, now: u64, j: JobView)
    ensures
        cooled_down(lr, rate, now, j) <==> match domain_of(kind_target(j.kind)) {
            Some(d) => match last_request_at(lr, d) {
                Some(t) => rate == 0 || t + rate * 1000 <= now,
                None => true,
            },
            None => true,
        },
{
}

/// Starting jobs respects the per-host rate limit: a job whose host was
/// last requested at `t` starts at `now` only when there is no limit or
/// `now` is at least `rate` seconds after `t`; and with a limit, no two
/// jobs started together go to the same host.
pub proof fn lemma_spawn_respects_rate_limit(
    queue: Seq<JobView>,
    delayed: Seq<JobView>,
    active: Seq<JobId>,
    lr: Seq<(Seq<char>, u64)>,
    max: nat,
    rate: u64,
    now: u64,
)
    ensures
        forall|k: int| 0 <= k < spawn_run(queue, delayed, active, lr, max, rate, now).4.len() ==> match domain_of(
            kind_target((#[trigger] spawn_run(queue, delayed, active, lr, max, rate, now).4[k]).kind),
        ) {
            Some(d) => match last_request_at(lr, d) {
                Some(t) => rate == 0 || t + rate * 1000 <= now,
                None => true,
            },
            None => true,
        },
        rate > 0 ==> forall|a: int, b: int|
            0 <= a < b < spawn_run(queue, delayed, active, lr, max, rate, now).4.len()
                && domain_of(kind_target(spawn_run(queue, delayed, active, lr, max, rate, now).4[a].kind)) is Some
                ==> domain_of(kind_target((#[trigger] spawn_run(queue, delayed, active, lr, max, rate, now).4[a]).kind))
                != domain_of(kind_target((#[trigger] spawn_run(queue, delayed, active, lr, max, rate, now).4[b]).kind)),
    decreases queue.len(),
{
    if !(active.len() >= max || queue.len() == 0) {
        let j = queue[0];
        if !cooled_down(lr, rate, now, j) {
            lemma_spawn_respects_rate_limit(queue.drop_first(), delayed.push(j), active, lr, max, rate, now);
        } else {
            lemma_cooled_down_is_rate_limit(lr, rate, now, j);
            let lr2 = match domain_of(kind_target(j.kind)) {
                Some(d) => record_request(lr, d, now),
                None => lr,
            };
            let active2 = if active.contains(j.id) {
                active
            } else {
                active.push(j.id)
            };
            lemma_spawn_respects_rate_limit(queue.drop_first(), delayed, active2, lr2, max, rate, now);
            let r2 = spawn_run(queue.drop_first(), delayed, active2, lr2, max, rate, now);
            let st = spawn_run(queue, delayed, active, lr, max, rate, now).4;
            assert(st == seq![running(j)] + r2.4);
            assert forall|k: int| 0 <= k < st.len() implies match domain_of(kind_target((#[trigger] st[k]).kind)) {
                Some(d) => match last_request_at(lr, d) {
                    Some(t) => rate == 0 || t + rate * 1000 <= now,
                    None => true,
                },
                None => true,
            } by {
                if k > 0 {
                    assert(st[k] == r2.4[k - 1]);
                    match domain_of(kind_target(st[k].kind)) {
                        Some(x) => {
                            match domain_of(kind_target(j.kind)) {
                                Some(d) => lemma_record_request_lookup(lr, d, now, x),
                                None => {},
                            }
                        },
                        None => {},
                    }
                }
            }
            if rate > 0 {
                assert forall|a: int, b: int|
                    0 <= a < b < st.len() && domain_of(kind_target(st[a].kind)) is Some implies domain_of(
                    kind_target((#[trigger] st[a]).kind),
                ) != domain_of(kind_target((#[trigger] st[b]).kind)) by {
                    assert(st[b] == r2.4[b - 1]);
                    if a > 0 {
                        assert(st[a] == r2.4[a - 1]);
                    } else {
                        let d = domain_of(kind_target(j.kind))->0;
                        assert(st[0].kind == j.kind);
                        lemma_record_request_lookup(lr, d, now, d);
                        if domain_of(kind_target(st[b].kind)) == Some(d) {
                            assert(last_request_at(lr2, d) == Some(now));
                        }
                    }
                }
            }
        }
    }
}

/// Releasing delayed jobs respects the per-host rate limit: the jobs moved
/// back to the queue are those whose host has no limit to wait for at
/// `now` (no host, never requested, no limit, or last requested at least
/// `rate` seconds before), and the jobs kept waiting are those whose host
/// was requested less than `rate` seconds before.
pub proof fn lemma_release_respects_rate_limit(delayed: Seq<JobView>, lr: Seq<(Seq<char>, u64)>, rate: u64, now: u64)
    ensures
        forall|k: int| 0 <= k < delayed.filter(ready(lr, rate, now)).len() ==> match domain_of(
            kind_target((#[trigger] delayed.filter(ready(lr, rate, now))[k]).kind),
        ) {
            Some(d) => match last_request_at(lr, d) {
                Some(t) => rate == 0 || t + rate * 1000 <= now,
                None => true,
            },
            None => true,
        },
        forall|k: int| 0 <= k < delayed.filter(not_ready(lr, rate, now)).len() ==> match domain_of(
            kind_target((#[trigger] delayed.filter(not_ready(lr, rate, now))[k]).kind),
        ) {
            Some(d) => match last_request_at(lr, d) {
                Some(t) => rate > 0 && now < t + rate * 1000,
                None => false,
            },
            None => false,
        },
{
    broadcast use vstd::seq_lib::group_filter_ensures;
    assert forall|k: int| 0 <= k < delayed.filter(ready(lr, rate, now)).len() implies match domain_of(
        kind_target((#[trigger] delayed.filter(ready(lr, rate, now))[k]).kind),
    ) {
        Some(d) => match last_request_at(lr, d) {
            Some(t) => rate == 0 || t + rate * 1000 <= now,
            None => true,
        },
        None => true,
    } by {
        let j = delayed.filter(ready(lr, rate, now))[k];
        assert(ready(lr, rate, now)(j));
        lemma_cooled_down_is_rate_limit(lr, rate, now, j);
    }
    assert forall|k: int| 0 <= k < delayed.filter(not_ready(lr, rate, now)).len() implies match domain_of(
        kind_target((#[trigger] delayed.filter(not_ready(lr, rate, now))[k]).kind),
    ) {
        Some(d) => match last_request_at(lr, d) {
            Some(t) => rate > 0 && now < t + rate * 1000,
            None => false,
        },
        None => false,
    } by {
        let j = delayed.filter(not_ready(lr, rate, now))[k];
        assert(not_ready(lr, rate, now)(j));
        lemma_cooled_down_is_rate_limit(lr, rate, now, j);
    }
}

proof fn lemma_multiset_cons(s: Seq<JobId>, x: JobId)
    ensures
        (seq![x] + s).to_multiset() =~= s.to_multiset().insert(x),
{
    broadcast use vstd::seq_lib::group_to_multiset_ensures;
    assert((seq![x] + s) =~= s.insert(0, x));
}

proof fn lemma_multiset_rotate(a: Seq<JobId>, b: Seq<JobId>, x: JobId)
    ensures
        (seq![x] + a + b).to_multiset() =~= (a + b.push(x)).to_multiset(),
{
    broadcast use vstd::seq_lib::group_to_multiset_ensures;
    broadcast use vstd::multiset::group_multiset_axioms;
    vstd::seq_lib::lemma_multiset_commutative(seq![x] + a, b);
    vstd::seq_lib::lemma_multiset_commutative(seq![x], a);
    vstd::seq_lib::lemma_multiset_commutative(a, b.push(x));
    vstd::seq_lib::lemma_multiset_commutative(b, seq![x]);
    assert(b.push(x) =~= b + seq![x]);
}

proof fn lemma_multiset_move_front(a: Seq<JobId>, c: Seq<JobId>, x: JobId)
    ensures
        (a + (seq![x] + c)).to_multiset() =~= (a + c).to_multiset().insert(x),
{
    broadcast use vstd::seq_lib::group_to_multiset_ensures;
    broadcast use vstd::multiset::group_multiset_axioms;
    vstd::seq_lib::lemma_multiset_commutative(a, seq![x] + c);
    vstd::seq_lib::lemma_multiset_commutative(seq![x], c);
    vstd::seq_lib::lemma_multiset_commutative(a, c);
    assert(seq![x].to_multiset() =~= vstd::multiset::Multiset::<JobId>::empty().insert(x)) by {
        assert(seq![x] =~= Seq::<JobId>::empty().push(x));
    }
}

/// After a job is cancelled nothing with its id is queued, delayed or
/// running.
pub proof fn lemma_cancel_removes(s: &JobScheduler, t: &JobScheduler, acts: Seq<WorkerAction>, id: JobId)
    requires
        cancel_job_done(s, t, acts, id),
    ensures
        !t.active@.contains(id),
        forall|k: int| 0 <= k < jobs_view(t.job_queue@).len() ==> (#[trigger] jobs_view(t.job_queue@)[k]).id != id,
        forall|k: int| 0 <= k < jobs_view(t.delayed_queue@).len() ==> (#[trigger] jobs_view(t.delayed_queue@)[k]).id != id,
{
    broadcast use vstd::seq_lib::group_filter_ensures;
    if t.active@.contains(id) {
        let k = choose|k: int| 0 <= k < t.active@.len() && t.active@[k] == id;
        assert(other_task(id)(s.active@.filter(other_task(id))[k]));
    }
    assert forall|k: int| 0 <= k < jobs_view(t.job_queue@).len() implies (#[trigger] jobs_view(t.job_queue@)[k]).id != id by {
        assert(other_job(id)(jobs_view(s.job_queue@).filter(other_job(id))[k]));
    }
    assert forall|k: int| 0 <= k < jobs_view(t.delayed_queue@).len() implies (#[trigger] jobs_view(t.delayed_queue@)[k]).id != id by {
        assert(other_job(id)(jobs_view(s.delayed_queue@).filter(other_job(id))[k]));
    }
}

/// The status a job takes when its task returns: a failure records the
/// error; success completes the job, except an embedding batch, which stays
/// running until its chapters are embedded.
pub open spec fn status_after_run(k: JobKindView, result: Result<(), String>) -> JobStatus {
    match result {
        Ok(_) => if k is EmbedBatch {
            JobStatus::Running
        } else {
            JobStatus::Completed
        },
        Err(e) => JobStatus::Failed(e),
    }
}

/// The status a job takes when its task returns.
pub fn finished_status(kind: &JobKind, result: Result<(), String>) -> (r: JobStatus)
    ensures
        r == status_after_run(kind@, result),
{
    match result {
        Ok(_) => match kind {
            JobKind::EmbedBatch(_) => JobStatus::Running,
            _ => JobStatus::Completed,
        },
        Err(e) => JobStatus::Failed(e),
    }
}

/// Marks chapter `i` of a batch fetched or failed.
pub fn mark_batch_chapter(detail: &mut Vec<ChapterDetail>, i: usize, ok: bool)
    requires
        i < old(detail)@.len(),
    ensures
        final(detail)@.len() == old(detail)@.len(),
        forall|k: int| 0 <= k < final(detail)@.len() && k != i ==> final(detail)@[k] == old(detail)@[k],
        final(detail)@[i as int].title == old(detail)@[i as int].title,
        final(detail)@[i as int].url == old(detail)@[i as int].url,
        final(detail)@[i as int].status@ == if ok { "Fetched"@ } else { "Failed"@ },
{
    let status = if ok {
        "Fetched".to_string()
    } else {
        "Failed".to_string()
    };
    let entry = ChapterDetail { title: detail[i].title.clone(), url: detail[i].url.clone(), status };
    detail.set(i, entry);
}

/// The result of a batch: success when any chapter was fetched, else the
/// last error.
pub fn batch_result(any_ok: bool, last_err: String) -> (r: Result<(), String>)
    ensures
        any_ok ==> r is Ok,
        !any_ok ==> r == Err::<(), String>(last_err),
{
    if any_ok {
        Ok(())
    } else {
        Err(last_err)
    }
}

} // verus!
