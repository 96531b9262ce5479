//! Transfer jobs, recurring schedules, and the requests that create them.
use vstd::prelude::*;
use crate::double::{nearest, Double, Signed};
use crate::ids::{fresh_id, is_random_id};
use crate::text::same_text;
use crate::time::{utc_now, Timestamp};

verus! {

/// Where a job stands.
#[derive(Clone, Copy, PartialEq, Eq, Structural, Debug)]
pub enum JobStatus {
    Queued,
    /// Blocked on the job it depends on.
    Waiting,
    Running,
    Completed,
    /// Failed, will retry after backoff.
    Retrying,
    /// Terminal: exhausted `max_attempts`.
    Failed,
    Cancelled,
}

/// A transfer between two stores.
#[derive(Debug)]
pub struct Job {
    pub id: u128,
    pub src: String,
    pub dst: String,
    pub status: JobStatus,
    /// Higher value = picked up sooner by the worker.
    pub priority: i32,
    /// Which attempt this is (0 = not yet started, 1 = first attempt).
    pub attempt: u32,
    pub max_attempts: u32,
    /// Do not start before this time (retry backoff and explicit scheduling).
    pub run_after: Option<Timestamp>,
    /// Block until this job has completed.
    pub depends_on: Option<u128>,
    /// HTTP POST this URL when the job reaches a terminal state.
    pub callback_url: Option<String>,
    pub bytes_total: Option<u64>,
    pub bytes_transferred: u64,
    pub peak_throughput_mbps: Option<Signed>,
    pub error: Option<String>,
    pub created_at: Timestamp,
    pub updated_at: Timestamp,
    pub started_at: Option<Timestamp>,
    pub completed_at: Option<Timestamp>,
}

/// A request for a transfer.
#[derive(Debug)]
pub struct CreateJobRequest {
    pub src: String,
    pub dst: String,
    /// Higher = picked up sooner. Default 0.
    pub priority: Option<i32>,
    /// How many attempts the job gets. Default 3.
    pub max_attempts: Option<u32>,
    /// Do not start before this time.
    pub run_after: Option<Timestamp>,
    /// Block this job until the given job completes successfully.
    pub depends_on: Option<u128>,
    /// HTTP POST this URL when the job reaches a terminal state.
    pub callback_url: Option<String>,
    /// Cron expression: if set, the request creates a recurring schedule instead of
    /// a one-shot job.
    pub cron: Option<String>,
}

/// A recurring schedule that spawns a new transfer job on each tick.
#[derive(Debug)]
pub struct CronJob {
    pub id: u128,
    pub src: String,
    pub dst: String,
    pub cron: String,
    pub priority: i32,
    pub max_attempts: u32,
    pub callback_url: Option<String>,
    /// When the next job should be spawned.
    pub next_run_at: Timestamp,
    /// The most recently spawned transfer job.
    pub last_job_id: Option<u128>,
    pub created_at: Timestamp,
    pub enabled: bool,
}

/// A request for a recurring schedule.
#[derive(Debug)]
pub struct CreateCronRequest {
    pub src: String,
    pub dst: String,
    /// Standard five-field cron: "0 2 * * *" = daily at 02:00 UTC.
    pub cron: String,
    pub priority: Option<i32>,
    pub max_attempts: Option<u32>,
    pub callback_url: Option<String>,
}

/// What a `Job` is, with its texts as character sequences.
pub struct JobView {
    pub id: u128,
    pub src: Seq<char>,
    pub dst: Seq<char>,
    pub status: JobStatus,
    pub priority: i32,
    pub attempt: u32,
    pub max_attempts: u32,
    pub run_after: Option<Timestamp>,
    pub depends_on: Option<u128>,
    pub callback_url: Option<Seq<char>>,
    pub bytes_total: Option<u64>,
    pub bytes_transferred: u64,
    pub peak_throughput_mbps: Option<Signed>,
    pub error: Option<Seq<char>>,
    pub created_at: Timestamp,
    pub updated_at: Timestamp,
    pub started_at: Option<Timestamp>,
    pub completed_at: Option<Timestamp>,
}

/// What a `CreateJobRequest` is, with its texts as character sequences.
pub struct CreateJobRequestView {
    pub src: Seq<char>,
    pub dst: Seq<char>,
    pub priority: Option<i32>,
    pub max_attempts: Option<u32>,
    pub run_after: Option<Timestamp>,
    pub depends_on: Option<u128>,
    pub callback_url: Option<Seq<char>>,
    pub cron: Option<Seq<char>>,
}

/// What a `CronJob` is, with its texts as character sequences.
pub struct CronJobView {
    pub id: u128,
    pub src: Seq<char>,
    pub dst: Seq<char>,
    pub cron: Seq<char>,
    pub priority: i32,
    pub max_attempts: u32,
    pub callback_url: Option<Seq<char>>,
    pub next_run_at: Timestamp,
    pub last_job_id: Option<u128>,
    pub created_at: Timestamp,
    pub enabled: bool,
}

/// What a `CreateCronRequest` is, with its texts as character sequences.
pub struct CreateCronRequestView {
    pub src: Seq<char>,
    pub dst: Seq<char>,
    pub cron: Seq<char>,
    pub priority: Option<i32>,
    pub max_attempts: Option<u32>,
    pub callback_url: Option<Seq<char>>,
}

/// The characters of an optional text.
pub open spec fn opt_chars(text: Option<String>) -> Option<Seq<char>> {
    match text {
        Some(s) => Some(s@),
        None => None,
    }
}

impl View for Job {
    type V = JobView;

    open spec fn view(&self) -> JobView {
        JobView {
            id: self.id,
            src: self.src@,
            dst: self.dst@,
            status: self.status,
            priority: self.priority,
            attempt: self.attempt,
            max_attempts: self.max_attempts,
            run_after: self.run_after,
            depends_on: self.depends_on,
            callback_url: opt_chars(self.callback_url),
            bytes_total: self.bytes_total,
            bytes_transferred: self.bytes_transferred,
            peak_throughput_mbps: self.peak_throughput_mbps,
            error: opt_chars(self.error),
            created_at: self.created_at,
            updated_at: self.updated_at,
            started_at: self.started_at,
            completed_at: self.completed_at,
        }
    }
}

impl View for CreateJobRequest {
    type V = CreateJobRequestView;

    open spec fn view(&self) -> CreateJobRequestView {
        CreateJobRequestView {
            src: self.src@,
            dst: self.dst@,
            priority: self.priority,
            max_attempts: self.max_attempts,
            run_after: self.run_after,
            depends_on: self.depends_on,
            callback_url: opt_chars(self.callback_url),
            cron: opt_chars(self.cron),
        }
    }
}

impl View for CronJob {
    type V = CronJobView;

    open spec fn view(&self) -> CronJobView {
        CronJobView {
            id: self.id,
            src: self.src@,
            dst: self.dst@,
            cron: self.cron@,
            priority: self.priority,
            max_attempts: self.max_attempts,
            callback_url: opt_chars(self.callback_url),
            next_run_at: self.next_run_at,
            last_job_id: self.last_job_id,
            created_at: self.created_at,
            enabled: self.enabled,
        }
    }
}

impl View for CreateCronRequest {
    type V = CreateCronRequestView;

    open spec fn view(&self) -> CreateCronRequestView {
        CreateCronRequestView {
            src: self.src@,
            dst: self.dst@,
            cron: self.cron@,
            priority: self.priority,
            max_attempts: self.max_attempts,
            callback_url: opt_chars(self.callback_url),
        }
    }
}

/// The priority of a job or schedule whose request names none.
pub const DEFAULT_PRIORITY: i32 = 0;

/// The attempts of a job or schedule whose request names no number.
pub const DEFAULT_MAX_ATTEMPTS: u32 = 3;

/// `value`, or `default` where there is none.
pub open spec fn or_default<T>(value: Option<T>, default: T) -> T {
    match value {
        Some(v) => v,
        None => default,
    }
}

pub open spec fn opt_valid(t: Option<Timestamp>) -> bool {
    t matches Some(t) ==> t.valid()
}

impl JobView {
    /// Every instant is one of the calendar and the throughput is a double.
    pub open spec fn valid(self) -> bool {
        &&& opt_valid(self.run_after)
        &&& self.created_at.valid()
        &&& self.updated_at.valid()
        &&& opt_valid(self.started_at)
        &&& opt_valid(self.completed_at)
        &&& self.peak_throughput_mbps matches Some(d) ==> d.valid()
    }

    /// The job that `req` asks for, with its id and the time of its creation.
    pub open spec fn requested(req: CreateJobRequestView, id: u128, now: Timestamp) -> JobView {
        JobView {
            id,
            src: req.src,
            dst: req.dst,
            status: JobStatus::Queued,
            priority: or_default(req.priority, DEFAULT_PRIORITY),
            attempt: 0,
            max_attempts: or_default(req.max_attempts, DEFAULT_MAX_ATTEMPTS),
            run_after: req.run_after,
            depends_on: req.depends_on,
            callback_url: req.callback_url,
            bytes_total: None,
            bytes_transferred: 0,
            peak_throughput_mbps: None,
            error: None,
            created_at: now,
            updated_at: now,
            started_at: None,
            completed_at: None,
        }
    }

    /// How much of the job is done, in percent: 100 for an empty job, none while
    /// its size is not known.
    pub open spec fn percent(self) -> Option<Double> {
        match self.bytes_total {
            None => None,
            Some(total) => Some(
                if total == 0 {
                    nearest(100, 1, 0)
                } else {
                    nearest(self.bytes_transferred as nat, 1, 0).spec_div(
                        nearest(total as nat, 1, 0),
                    ).spec_mul(nearest(100, 1, 0))
                },
            ),
        }
    }
}

impl CronJobView {
    /// Every instant is one of the calendar.
    pub open spec fn valid(self) -> bool {
        &&& self.next_run_at.valid()
        &&& self.created_at.valid()
    }

    /// The schedule that `req` asks for, with its id, first run and time of creation.
    pub open spec fn requested(
        req: CreateCronRequestView,
        id: u128,
        next_run_at: Timestamp,
        now: Timestamp,
    ) -> CronJobView {
        CronJobView {
            id,
            src: req.src,
            dst: req.dst,
            cron: req.cron,
            priority: or_default(req.priority, DEFAULT_PRIORITY),
            max_attempts: or_default(req.max_attempts, DEFAULT_MAX_ATTEMPTS),
            callback_url: req.callback_url,
            next_run_at,
            last_job_id: None,
            created_at: now,
            enabled: true,
        }
    }

    /// The one-shot job that a tick of the schedule asks for.
    pub open spec fn tick_request(self) -> CreateJobRequestView {
        CreateJobRequestView {
            src: self.src,
            dst: self.dst,
            priority: Some(self.priority),
            max_attempts: Some(self.max_attempts),
            run_after: None,
            depends_on: None,
            callback_url: self.callback_url,
            cron: None,
        }
    }
}

impl Clone for Job {
    fn clone(&self) -> (copy: Job)
        ensures
            copy@ == self@,
    {
        Job {
            id: self.id,
            src: self.src.clone(),
            dst: self.dst.clone(),
            status: self.status,
            priority: self.priority,
            attempt: self.attempt,
            max_attempts: self.max_attempts,
            run_after: self.run_after,
            depends_on: self.depends_on,
            callback_url: self.callback_url.clone(),
            bytes_total: self.bytes_total,
            bytes_transferred: self.bytes_transferred,
            peak_throughput_mbps: self.peak_throughput_mbps,
            error: self.error.clone(),
            created_at: self.created_at,
            updated_at: self.updated_at,
            started_at: self.started_at,
            completed_at: self.completed_at,
        }
    }
}

impl Clone for CronJob {
    fn clone(&self) -> (copy: CronJob)
        ensures
            copy@ == self@,
    {
        CronJob {
            id: self.id,
            src: self.src.clone(),
            dst: self.dst.clone(),
            cron: self.cron.clone(),
            priority: self.priority,
            max_attempts: self.max_attempts,
            callback_url: self.callback_url.clone(),
            next_run_at: self.next_run_at,
            last_job_id: self.last_job_id,
            created_at: self.created_at,
            enabled: self.enabled,
        }
    }
}

impl Job {
    /// Creates the job that a request asks for, with a fresh id, at the present time.
    pub fn new(req: CreateJobRequest) -> (job: Job)
        ensures
            exists|id: u128, now: Timestamp|
                #![trigger JobView::requested(req@, id, now)]
                is_random_id(id) && now.on_clock() && job@ == JobView::requested(req@, id, now),
    {
        let now = utc_now();
        let id = fresh_id();
        Job::requested_at(req, id, now)
    }

    /// Creates the job that a request asks for, with a given id and time.
    pub fn requested_at(req: CreateJobRequest, id: u128, now: Timestamp) -> (job: Job)
        ensures
            job@ == JobView::requested(req@, id, now),
    {
        Job {
            id,
            src: req.src,
            dst: req.dst,
            status: JobStatus::Queued,
            priority: req.priority.unwrap_or(DEFAULT_PRIORITY),
            attempt: 0,
            max_attempts: req.max_attempts.unwrap_or(DEFAULT_MAX_ATTEMPTS),
            run_after: req.run_after,
            depends_on: req.depends_on,
            callback_url: req.callback_url,
            bytes_total: None,
            bytes_transferred: 0,
            peak_throughput_mbps: None,
            error: None,
            created_at: now,
            updated_at: now,
            started_at: None,
            completed_at: None,
        }
    }

    /// How much of the job is done, in percent.
    pub fn progress_pct(&self) -> (pct: Option<Double>)
        ensures
            pct == self@.percent(),
            pct matches Some(d) ==> d.valid(),
    {
        match self.bytes_total {
            None => None,
            Some(total) => {
                let hundred = Double::from_u64(100);
                if total == 0 {
                    Some(hundred)
                } else {
                    let done = Double::from_u64(self.bytes_transferred);
                    let all = Double::from_u64(total);
                    Some(done.over(all).times(hundred))
                }
            },
        }
    }
}

impl CronJob {
    /// Creates the schedule that a request asks for.
    pub fn requested_at(
        req: &CreateCronRequest,
        id: u128,
        next_run_at: Timestamp,
        now: Timestamp,
    ) -> (entry: CronJob)
        ensures
            entry@ == CronJobView::requested(req@, id, next_run_at, now),
    {
        CronJob {
            id,
            src: req.src.clone(),
            dst: req.dst.clone(),
            cron: req.cron.clone(),
            priority: req.priority.unwrap_or(DEFAULT_PRIORITY),
            max_attempts: req.max_attempts.unwrap_or(DEFAULT_MAX_ATTEMPTS),
            callback_url: req.callback_url.clone(),
            next_run_at,
            last_job_id: None,
            created_at: now,
            enabled: true,
        }
    }

    /// The request for the one-shot job of a tick.
    pub fn tick_request(&self) -> (req: CreateJobRequest)
        ensures
            req@ == self@.tick_request(),
    {
        CreateJobRequest {
            src: self.src.clone(),
            dst: self.dst.clone(),
            priority: Some(self.priority),
            max_attempts: Some(self.max_attempts),
            run_after: None,
            depends_on: None,
            callback_url: self.callback_url.clone(),
            cron: None,
        }
    }
}

/// The word for a status.
pub open spec fn status_chars(s: JobStatus) -> Seq<char> {
    match s {
        JobStatus::Queued => "queued"@,
        JobStatus::Waiting => "waiting"@,
        JobStatus::Running => "running"@,
        JobStatus::Completed => "completed"@,
        JobStatus::Retrying => "retrying"@,
        JobStatus::Failed => "failed"@,
        JobStatus::Cancelled => "cancelled"@,
    }
}

/// The status that a word stands for; a word for none of them counts as queued.
pub open spec fn status_in(word: Seq<char>) -> JobStatus {
    if word == "waiting"@ {
        JobStatus::Waiting
    } else if word == "running"@ {
        JobStatus::Running
    } else if word == "completed"@ {
        JobStatus::Completed
    } else if word == "retrying"@ {
        JobStatus::Retrying
    } else if word == "failed"@ {
        JobStatus::Failed
    } else if word == "cancelled"@ {
        JobStatus::Cancelled
    } else {
        JobStatus::Queued
    }
}

/// The word for a status.
pub fn status_str(s: &JobStatus) -> (word: &'static str)
    ensures
        word@ == status_chars(*s),
{
    match s {
        JobStatus::Queued => "queued",
        JobStatus::Waiting => "waiting",
        JobStatus::Running => "running",
        JobStatus::Completed => "completed",
        JobStatus::Retrying => "retrying",
        JobStatus::Failed => "failed",
        JobStatus::Cancelled => "cancelled",
    }
}

/// The status that a word stands for.
pub fn parse_status(word: &str) -> (s: JobStatus)
    ensures
        s == status_in(word@),
{
    if same_text(word, "waiting") {
        JobStatus::Waiting
    } else if same_text(word, "running") {
        JobStatus::Running
    } else if same_text(word, "completed") {
        JobStatus::Completed
    } else if same_text(word, "retrying") {
        JobStatus::Retrying
    } else if same_text(word, "failed") {
        JobStatus::Failed
    } else if same_text(word, "cancelled") {
        JobStatus::Cancelled
    } else {
        JobStatus::Queued
    }
}

/// Reading the word for a status gives the status back.
pub proof fn status_round_trip(s: JobStatus)
    ensures
        status_in(status_chars(s)) == s,
{
    reveal_strlit("queued");
    reveal_strlit("waiting");
    reveal_strlit("running");
    reveal_strlit("completed");
    reveal_strlit("retrying");
    reveal_strlit("failed");
    reveal_strlit("cancelled");
    assert("queued"@[0] == 'q' && "waiting"@[0] == 'w' && "running"@[1] == 'u' && "completed"@[1]
        == 'o' && "retrying"@[1] == 'e' && "failed"@[0] == 'f' && "cancelled"@[1] == 'a');
    assert("running"@[0] == 'r' && "retrying"@[0] == 'r' && "completed"@[0] == 'c' && "cancelled"@[0]
        == 'c');
}

} // verus!
