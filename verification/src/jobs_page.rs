//! The jobs page: which jobs it lists, the selection, the expanded job, the
//! worker count, and what each key asks of the server.
use vstd::prelude::*;
use crate::job::{
    clone_detail, detail_view, dto_of, job_status_name, outcome_dto_of, ChapterDetail, JobDto,
    JobFilter, JobOutcomeDto, JobStatus,
};
use crate::messenger::AppEvent;
use crate::text::str_eq;

verus! {

/// What the jobs page shows.
#[derive(Debug)]
pub struct JobsPage {
    /// The server's jobs, in the server's order.
    pub jobs: Vec<JobDto>,
    pub filter: JobFilter,
    /// The selected row among the listed jobs.
    pub selected: usize,
    /// The position in `jobs` of the job whose details are open.
    pub detail_expanded: Option<usize>,
    pub max_workers: u8,
}

/// A key the jobs page answers.
#[derive(Debug, Clone, Copy, PartialEq, Eq, Structural)]
pub enum JobsKey {
    Down,
    Up,
    Details,
    Cancel,
    CancelAll,
    Retry,
    RetryAll,
    MoreWorkers,
    FewerWorkers,
    FlushCompleted,
    FlushAll,
    ShowAll,
    ShowRunning,
    ShowCompleted,
    ShowFailed,
    Other,
}

/// What the page asks the server to do.
#[derive(Debug, Clone, Copy, PartialEq, Eq, Structural)]
pub enum JobsRequest {
    Cancel(u64),
    CancelAll,
    Retry(u64),
    RetryAll,
    /// Run this many workers (the setting is saved too).
    SetWorkers(u8),
    FlushCompleted,
    FlushAll,
}

/// Whether a job is listed under a filter.
pub open spec fn listed(j: JobDto, f: JobFilter) -> bool {
    match f {
        JobFilter::All => true,
        JobFilter::Running => j.status@ == "Running"@,
        JobFilter::Completed => j.status@ == "Completed"@,
        JobFilter::Failed => j.status@ == "Failed"@,
    }
}

/// The positions of the first `n` jobs that the filter lists.
pub open spec fn listed_prefix(jobs: Seq<JobDto>, f: JobFilter, n: int) -> Seq<usize>
    decreases n,
{
    if n <= 0 {
        seq![]
    } else if listed(jobs[n - 1], f) {
        listed_prefix(jobs, f, n - 1).push((n - 1) as usize)
    } else {
        listed_prefix(jobs, f, n - 1)
    }
}

/// The jobs of `jobs` that are not completed, in order.
pub open spec fn without_completed(jobs: Seq<JobDto>) -> Seq<JobDto>
    decreases jobs.len(),
{
    if jobs.len() == 0 {
        seq![]
    } else if jobs.last().status@ == "Completed"@ {
        without_completed(jobs.drop_last())
    } else {
        without_completed(jobs.drop_last()).push(jobs.last())
    }
}

/// The worker count one more, at most 32.
pub open spec fn more_workers(n: u8) -> u8 {
    if n >= 32 {
        32
    } else {
        (n + 1) as u8
    }
}

/// The worker count one fewer, at least 1.
pub open spec fn fewer_workers(n: u8) -> u8 {
    if n <= 1 {
        1
    } else {
        (n - 1) as u8
    }
}

/// Whether a job's status is `name`.
fn status_is(j: &JobDto, name: &str) -> (r: bool)
    ensures
        r == (j.status@ == name@),
{
    str_eq(j.status.as_str(), name)
}

impl JobsPage {
    /// The positions of the listed jobs.
    pub open spec fn listed_jobs(&self) -> Seq<usize> {
        listed_prefix(self.jobs@, self.filter, self.jobs@.len() as int)
    }

    /// The positions of the jobs the filter lists, in order.
    pub fn filtered_jobs(&self) -> (r: Vec<usize>)
        ensures
            r@ == self.listed_jobs(),
    {
        let mut r: Vec<usize> = Vec::new();
        let mut i: usize = 0;
        while i < self.jobs.len()
            invariant
                i <= self.jobs.len(),
                r@ == listed_prefix(self.jobs@, self.filter, i as int),
            decreases self.jobs.len() - i,
        {
            let j = &self.jobs[i];
            let keep = match self.filter {
                JobFilter::All => true,
                JobFilter::Running => status_is(j, "Running"),
                JobFilter::Completed => status_is(j, "Completed"),
                JobFilter::Failed => status_is(j, "Failed"),
            };
            if keep {
                r.push(i);
            }
            i = i + 1;
        }
        r
    }

    /// Drops the completed jobs.
    pub fn remove_completed(&mut self)
        ensures
            final(self).jobs@ == without_completed(old(self).jobs@),
            final(self).filter == old(self).filter,
            final(self).selected == old(self).selected,
            final(self).detail_expanded == old(self).detail_expanded,
            final(self).max_workers == old(self).max_workers,
    {
        let mut kept: Vec<JobDto> = Vec::new();
        let mut old_jobs: Vec<JobDto> = Vec::new();
        std::mem::swap(&mut old_jobs, &mut self.jobs);
        let ghost orig = old_jobs@;
        let n = old_jobs.len();
        let mut k: usize = 0;
        while old_jobs.len() > 0
            invariant
                orig.len() == n,
                k + old_jobs@.len() == n,
                old_jobs@ == orig.skip(k as int),
                kept@ == without_completed(orig.take(k as int)),
            decreases old_jobs.len(),
        {
            let ghost before = old_jobs@;
            let j = old_jobs.remove(0);
            assert(before[0] == j);
            assert(orig.take(k + 1).drop_last() =~= orig.take(k as int));
            assert(orig.take(k + 1).last() == j);
            if !status_is(&j, "Completed") {
                kept.push(j);
            }
            assert(old_jobs@ =~= orig.skip(k + 1));
            k = k + 1;
        }
        assert(orig.take(n as int) =~= orig);
        self.jobs = kept;
    }

    /// Drops every job.
    pub fn remove_all(&mut self)
        ensures
            final(self).jobs@.len() == 0,
            final(self).filter == old(self).filter,
            final(self).selected == old(self).selected,
            final(self).detail_expanded == old(self).detail_expanded,
            final(self).max_workers == old(self).max_workers,
    {
        self.jobs = Vec::new();
    }
}

/// Answers a key on the jobs page: moves the selection, opens or closes a
/// job's details, changes the filter (back to the top), and asks the
/// server to cancel, retry, flush or change the worker count. Flushing
/// also drops the flushed jobs here at once.
pub fn handle_jobs(page: &mut JobsPage, key: JobsKey) -> (r: Option<JobsRequest>)
    ensures
        ({
            let listed = old(page).listed_jobs();
            let last = if listed.len() > 0 {
                listed.len() - 1
            } else {
                0
            };
            let sel = old(page).selected;
            let at_sel: Option<usize> = if sel < listed.len() {
                Some(listed[sel as int])
            } else {
                None
            };
            match key {
                JobsKey::Down => r is None && final(page).selected == (if last > 0 {
                    if sel + 1 < last {
                        sel + 1
                    } else {
                        last
                    }
                } else {
                    sel as int
                }),
                JobsKey::Up => r is None && final(page).selected == (if sel > 0 {
                    sel - 1
                } else {
                    0
                }),
                JobsKey::Details => r is None && final(page).detail_expanded == (if old(
                    page,
                ).detail_expanded == at_sel {
                    None
                } else {
                    at_sel
                }),
                JobsKey::Cancel => r == match at_sel {
                    Some(i) => Some(JobsRequest::Cancel(old(page).jobs@[i as int].id)),
                    None => None,
                },
                JobsKey::CancelAll => r == Some(JobsRequest::CancelAll),
                JobsKey::Retry => r == match at_sel {
                    Some(i) => if old(page).jobs@[i as int].status@ == "Failed"@ {
                        Some(JobsRequest::Retry(old(page).jobs@[i as int].id))
                    } else {
                        None
                    },
                    None => None,
                },
                JobsKey::RetryAll => r == Some(JobsRequest::RetryAll),
                JobsKey::MoreWorkers => r == Some(
                    JobsRequest::SetWorkers(more_workers(old(page).max_workers)),
                ) && final(page).max_workers == more_workers(old(page).max_workers),
                JobsKey::FewerWorkers => r == Some(
                    JobsRequest::SetWorkers(fewer_workers(old(page).max_workers)),
                ) && final(page).max_workers == fewer_workers(old(page).max_workers),
                JobsKey::FlushCompleted => r == Some(JobsRequest::FlushCompleted)
                    && final(page).jobs@ == without_completed(old(page).jobs@),
                JobsKey::FlushAll => r == Some(JobsRequest::FlushAll) && final(page).jobs@.len()
                    == 0,
                JobsKey::ShowAll => r is None && final(page).filter == JobFilter::All
                    && final(page).selected == 0,
                JobsKey::ShowRunning => r is None && final(page).filter == JobFilter::Running
                    && final(page).selected == 0,
                JobsKey::ShowCompleted => r is None && final(page).filter == JobFilter::Completed
                    && final(page).selected == 0,
                JobsKey::ShowFailed => r is None && final(page).filter == JobFilter::Failed
                    && final(page).selected == 0,
                JobsKey::Other => r is None,
            }
        }),
        key != JobsKey::FlushCompleted && key != JobsKey::FlushAll ==> final(page).jobs
            == old(page).jobs,
        key != JobsKey::Down && key != JobsKey::Up && key != JobsKey::ShowAll && key
            != JobsKey::ShowRunning && key != JobsKey::ShowCompleted && key != JobsKey::ShowFailed
            ==> final(page).selected == old(page).selected,
        key != JobsKey::ShowAll && key != JobsKey::ShowRunning && key != JobsKey::ShowCompleted
            && key != JobsKey::ShowFailed ==> final(page).filter == old(page).filter,
        key != JobsKey::Details ==> final(page).detail_expanded == old(page).detail_expanded,
        key != JobsKey::MoreWorkers && key != JobsKey::FewerWorkers ==> final(page).max_workers
            == old(page).max_workers,
{
    let filtered = page.filtered_jobs();
    let njobs = page.jobs.len();
    let last = if filtered.len() > 0 {
        filtered.len() - 1
    } else {
        0
    };
    let at_sel: Option<usize> = if page.selected < filtered.len() {
        Some(filtered[page.selected])
    } else {
        None
    };
    match key {
        JobsKey::Down => {
            if last > 0 {
                page.selected = if page.selected < last - 1 {
                    page.selected + 1
                } else {
                    last
                };
            }
            None
        },
        JobsKey::Up => {
            if page.selected > 0 {
                page.selected = page.selected - 1;
            }
            None
        },
        JobsKey::Details => {
            if page.detail_expanded == at_sel {
                page.detail_expanded = None;
            } else {
                page.detail_expanded = at_sel;
            }
            None
        },
        JobsKey::Cancel => match at_sel {
            Some(i) => {
                proof {
                    lemma_listed_in_range(page.jobs@, page.filter, page.jobs@.len() as int);
                }
                Some(JobsRequest::Cancel(page.jobs[i].id))
            },
            None => None,
        },
        JobsKey::CancelAll => Some(JobsRequest::CancelAll),
        JobsKey::Retry => match at_sel {
            Some(i) => {
                proof {
                    lemma_listed_in_range(page.jobs@, page.filter, page.jobs@.len() as int);
                }
                if status_is(&page.jobs[i], "Failed") {
                    Some(JobsRequest::Retry(page.jobs[i].id))
                } else {
                    None
                }
            },
            None => None,
        },
        JobsKey::RetryAll => Some(JobsRequest::RetryAll),
        JobsKey::MoreWorkers => {
            let n = if page.max_workers >= 32 {
                32
            } else {
                page.max_workers + 1
            };
            page.max_workers = n;
            Some(JobsRequest::SetWorkers(n))
        },
        JobsKey::FewerWorkers => {
            let n = if page.max_workers <= 1 {
                1
            } else {
                page.max_workers - 1
            };
            page.max_workers = n;
            Some(JobsRequest::SetWorkers(n))
        },
        JobsKey::FlushCompleted => {
            page.remove_completed();
            Some(JobsRequest::FlushCompleted)
        },
        JobsKey::FlushAll => {
            page.remove_all();
            Some(JobsRequest::FlushAll)
        },
        JobsKey::ShowAll => {
            page.filter = JobFilter::All;
            page.selected = 0;
            None
        },
        JobsKey::ShowRunning => {
            page.filter = JobFilter::Running;
            page.selected = 0;
            None
        },
        JobsKey::ShowCompleted => {
            page.filter = JobFilter::Completed;
            page.selected = 0;
            None
        },
        JobsKey::ShowFailed => {
            page.filter = JobFilter::Failed;
            page.selected = 0;
            None
        },
        JobsKey::Other => None,
    }
}

proof fn lemma_listed_in_range(jobs: Seq<JobDto>, f: JobFilter, n: int)
    requires
        0 <= n <= jobs.len(),
        jobs.len() <= usize::MAX,
    ensures
        forall|k: int|
            0 <= k < listed_prefix(jobs, f, n).len() ==> #[trigger] listed_prefix(jobs, f, n)[k]
                < n,
    decreases n,
{
    if n > 0 {
        lemma_listed_in_range(jobs, f, n - 1);
        let p = listed_prefix(jobs, f, n - 1);
        assert(((n - 1) as usize) == n - 1);
        assert forall|k: int|
            0 <= k < listed_prefix(jobs, f, n).len() implies #[trigger] listed_prefix(
            jobs,
            f,
            n,
        )[k] < n by {
            if k < p.len() {
                assert(listed_prefix(jobs, f, n)[k] == p[k]);
            }
        }
    }
}

/// A job snapshot after a status change at `now`: the status's name, the
/// error of a failure, the start of a running job that had none, and the
/// end of a job that finished, failed or was cancelled.
pub open spec fn with_status(d: JobDto, st: JobStatus, now: u64) -> JobDto {
    JobDto {
        status: d.status,
        error: match st {
            JobStatus::Failed(e) => Some(e),
            _ => d.error,
        },
        started_at_ms: if st is Running && d.started_at_ms is None {
            Some(now)
        } else {
            d.started_at_ms
        },
        completed_at_ms: if st is Completed || st is Failed || st is Cancelled {
            Some(now)
        } else {
            d.completed_at_ms
        },
        ..d
    }
}

/// Whether `n` is `o` with the jobs named `id` changed by `f` (given as
/// the relation between a job before and after) and every other job kept.
pub open spec fn jobs_updated(
    o: Seq<JobDto>,
    n: Seq<JobDto>,
    id: u64,
    f: spec_fn(JobDto, JobDto) -> bool,
) -> bool {
    &&& n.len() == o.len()
    &&& forall|k: int|
        0 <= k < o.len() ==> if (#[trigger] o[k]).id == id {
            f(o[k], n[k])
        } else {
            n[k] == o[k]
        }
}

/// The status change of one snapshot.
pub open spec fn status_changed(st: JobStatus, now: u64) -> spec_fn(JobDto, JobDto) -> bool {
    |a: JobDto, b: JobDto| b.status@ == job_status_name(st) && b == (JobDto { status: b.status, ..with_status(a, st, now) })
}

/// The detail change of one snapshot.
pub open spec fn detail_changed(detail: Seq<ChapterDetail>) -> spec_fn(JobDto, JobDto) -> bool {
    |a: JobDto, b: JobDto| detail_view(b.detail) == Some(detail) && b == (JobDto { detail: b.detail, ..a })
}

/// The outcome change of one snapshot.
pub open spec fn outcome_changed(o: crate::job::JobOutcomeView) -> spec_fn(JobDto, JobDto) -> bool {
    |a: JobDto, b: JobDto| (b.outcome matches Some(p) && outcome_dto_of(o, p)) && b == (JobDto { outcome: b.outcome, ..a })
}

impl JobsPage {
    /// Brings the page up to date with an event of the worker at `now`: a
    /// new job is listed last; a status, detail or outcome change updates
    /// the jobs it names; a worker count replaces the page's; other events
    /// change nothing.
    pub fn apply_event(&mut self, event: &AppEvent, now: u64)
        ensures
            final(self).filter == old(self).filter,
            final(self).selected == old(self).selected,
            final(self).detail_expanded == old(self).detail_expanded,
            match event {
                AppEvent::JobEnqueued(job) => final(self).jobs@.len() == old(self).jobs@.len() + 1
                    && final(self).jobs@.drop_last() == old(self).jobs@ && dto_of(
                    job@,
                    final(self).jobs@.last(),
                ) && final(self).max_workers == old(self).max_workers,
                AppEvent::JobStatusChanged(id, st) => jobs_updated(
                    old(self).jobs@,
                    final(self).jobs@,
                    *id,
                    status_changed(*st, now),
                ) && final(self).max_workers == old(self).max_workers,
                AppEvent::JobDetailChanged(id, d) => jobs_updated(
                    old(self).jobs@,
                    final(self).jobs@,
                    *id,
                    detail_changed(d@),
                ) && final(self).max_workers == old(self).max_workers,
                AppEvent::JobOutcome(id, o) => jobs_updated(
                    old(self).jobs@,
                    final(self).jobs@,
                    *id,
                    outcome_changed(o@),
                ) && final(self).max_workers == old(self).max_workers,
                AppEvent::WorkersChanged(n) => final(self).jobs == old(self).jobs
                    && final(self).max_workers == *n,
                _ => final(self).jobs == old(self).jobs && final(self).max_workers == old(
                    self,
                ).max_workers,
            },
    {
        match event {
            AppEvent::JobEnqueued(job) => {
                self.jobs.push(JobDto::from_job(job));
            },
            AppEvent::WorkersChanged(n) => {
                self.max_workers = *n;
            },
            AppEvent::JobStatusChanged(id, st) => {
                let ghost o = self.jobs@;
                let mut k: usize = 0;
                while k < self.jobs.len()
                    invariant
                        k <= self.jobs.len(),
                        self.jobs@.len() == o.len(),
                        self.filter == old(self).filter,
                        self.selected == old(self).selected,
                        self.detail_expanded == old(self).detail_expanded,
                        self.max_workers == old(self).max_workers,
                        forall|j: int|
                            0 <= j < o.len() ==> if j < k && (#[trigger] o[j]).id == *id {
                                status_changed(*st, now)(o[j], self.jobs@[j])
                            } else {
                                self.jobs@[j] == o[j]
                            },
                    decreases self.jobs.len() - k,
                {
                    if self.jobs[k].id == *id {
                        let mut d = self.jobs.remove(k);
                        let ghost od = d;
                        d.status = st.as_str().to_string();
                        match st {
                            JobStatus::Failed(e) => {
                                d.error = Some(e.clone());
                            },
                            _ => {},
                        }
                        let is_running = match st {
                            JobStatus::Running => true,
                            _ => false,
                        };
                        if is_running && d.started_at_ms.is_none() {
                            d.started_at_ms = Some(now);
                        }
                        let ended = match st {
                            JobStatus::Completed | JobStatus::Failed(_) | JobStatus::Cancelled => true,
                            _ => false,
                        };
                        if ended {
                            d.completed_at_ms = Some(now);
                        }
                        assert(status_changed(*st, now)(od, d));
                        self.jobs.insert(k, d);
                    }
                    k = k + 1;
                }
            },
            AppEvent::JobDetailChanged(id, detail) => {
                let ghost o = self.jobs@;
                let mut k: usize = 0;
                while k < self.jobs.len()
                    invariant
                        k <= self.jobs.len(),
                        self.jobs@.len() == o.len(),
                        self.filter == old(self).filter,
                        self.selected == old(self).selected,
                        self.detail_expanded == old(self).detail_expanded,
                        self.max_workers == old(self).max_workers,
                        forall|j: int|
                            0 <= j < o.len() ==> if j < k && (#[trigger] o[j]).id == *id {
                                detail_changed(detail@)(o[j], self.jobs@[j])
                            } else {
                                self.jobs@[j] == o[j]
                            },
                    decreases self.jobs.len() - k,
                {
                    if self.jobs[k].id == *id {
                        let mut d = self.jobs.remove(k);
                        let ghost od = d;
                        d.detail = clone_detail(&Some(detail.clone()));
                        assert(detail_changed(detail@)(od, d));
                        self.jobs.insert(k, d);
                    }
                    k = k + 1;
                }
            },
            AppEvent::JobOutcome(id, outcome) => {
                let ghost o = self.jobs@;
                let mut k: usize = 0;
                while k < self.jobs.len()
                    invariant
                        k <= self.jobs.len(),
                        self.jobs@.len() == o.len(),
                        self.filter == old(self).filter,
                        self.selected == old(self).selected,
                        self.detail_expanded == old(self).detail_expanded,
                        self.max_workers == old(self).max_workers,
                        forall|j: int|
                            0 <= j < o.len() ==> if j < k && (#[trigger] o[j]).id == *id {
                                outcome_changed(outcome@)(o[j], self.jobs@[j])
                            } else {
                                self.jobs@[j] == o[j]
                            },
                    decreases self.jobs.len() - k,
                {
                    if self.jobs[k].id == *id {
                        let mut d = self.jobs.remove(k);
                        let ghost od = d;
                        d.outcome = Some(JobOutcomeDto::from_outcome(outcome));
                        assert(outcome_changed(outcome@)(od, d));
                        self.jobs.insert(k, d);
                    }
                    k = k + 1;
                }
            },
            _ => {},
        }
    }
}

} // verus!
