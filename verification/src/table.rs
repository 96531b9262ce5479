//! What the job store holds: the table of jobs and the table of schedules, what each
//! event makes of a job, which job is next, and what the cost summary adds up.
use vstd::prelude::*;
use crate::double::Signed;
use crate::ids::id_chars;
use crate::job::{CronJob, CronJobView, Job, JobView};
use crate::row::{opt_bits, opt_signed, time_chars, CronRow, JobRow, JobRowView};
use crate::text::sorts_before;
use crate::time::{rfc3339_instant, Timestamp, MAX_SECS};

verus! {

/// How many jobs a listing shows at most.
pub const LIST_LIMIT: usize = 200;

/// Seconds to wait after the first failed attempt.
pub const FIRST_BACKOFF_SECS: i64 = 30;

/// Seconds to wait after the second failed attempt.
pub const SECOND_BACKOFF_SECS: i64 = 300;

/// Seconds to wait after any other failed attempt.
pub const LAST_BACKOFF_SECS: i64 = 1800;

/// What the store could not do.
#[derive(Clone, Copy, PartialEq, Eq, Structural, Debug)]
pub enum StoreError {
    /// The id is taken by a job.
    DuplicateId,
    /// The id is taken by a schedule.
    DuplicateCron,
    /// A row lacks what every job needs.
    UnreadableRow,
    /// There is no such job.
    NoSuchJob,
    /// A sum of bytes does not fit in 64 bits.
    SumOverflow,
    /// An instant lies outside the calendar.
    TimeOutOfRange,
}

/// The table of jobs and the table of schedules, in order of insertion.
#[verifier::ext_equal]
pub struct StoreView {
    pub jobs: Seq<JobRowView>,
    pub crons: Seq<CronJobView>,
}

/// Seconds to wait before the next attempt, once the given attempt has failed.
pub open spec fn backoff(attempt: i64) -> int {
    if attempt == 1 {
        FIRST_BACKOFF_SECS as int
    } else if attempt == 2 {
        SECOND_BACKOFF_SECS as int
    } else {
        LAST_BACKOFF_SECS as int
    }
}

impl JobRowView {
    /// A worker has taken the job. The count of attempts stops at the largest number of
    /// its column.
    pub open spec fn claimed(self, now: Timestamp) -> JobRowView {
        JobRowView {
            status: "running"@,
            started_at: Some(time_chars(now)),
            updated_at: time_chars(now),
            attempt: if self.attempt == i64::MAX {
                i64::MAX
            } else {
                (self.attempt + 1) as i64
            },
            ..self
        }
    }

    /// The job can be handed out once a worker has taken it.
    pub open spec fn can_be_handed_out(self, now: Timestamp) -> bool {
        self.attempt < i64::MAX && self.claimed(now).readable()
    }

    /// The transfer has moved some bytes.
    pub open spec fn progressed(
        self,
        bytes_transferred: u64,
        bytes_total: Option<u64>,
        peak: Option<Signed>,
        now: Timestamp,
    ) -> JobRowView {
        JobRowView {
            bytes_transferred: bytes_transferred as i64,
            bytes_total: opt_signed(bytes_total),
            peak_throughput_mbps: opt_bits(peak),
            updated_at: time_chars(now),
            ..self
        }
    }

    /// The transfer has ended well.
    pub open spec fn completed(self, peak: Option<Signed>, now: Timestamp) -> JobRowView {
        JobRowView {
            status: "completed"@,
            peak_throughput_mbps: opt_bits(peak),
            completed_at: Some(time_chars(now)),
            updated_at: time_chars(now),
            error: None,
            ..self
        }
    }

    /// The job has an attempt left after the present one.
    pub open spec fn may_retry(self) -> bool {
        self.attempt < self.max_attempts
    }

    /// The transfer has failed and is queued again, not to start before `run_after`.
    pub open spec fn requeued(
        self,
        error: Seq<char>,
        now: Timestamp,
        run_after: Timestamp,
    ) -> JobRowView {
        JobRowView {
            status: "queued"@,
            run_after: Some(time_chars(run_after)),
            error: Some(error),
            updated_at: time_chars(now),
            ..self
        }
    }

    /// The transfer has failed for good.
    pub open spec fn failed(self, error: Seq<char>, now: Timestamp) -> JobRowView {
        JobRowView {
            status: "failed"@,
            error: Some(error),
            completed_at: Some(time_chars(now)),
            updated_at: time_chars(now),
            ..self
        }
    }

    /// What becomes of the job when its transfer has failed: queued again after the
    /// backoff counted from `base`, or failed for good.
    pub open spec fn after_failure(
        self,
        error: Seq<char>,
        now: Timestamp,
        base: Timestamp,
    ) -> JobRowView {
        if self.may_retry() {
            self.requeued(error, now, base.later_by(backoff(self.attempt)))
        } else {
            self.failed(error, now)
        }
    }

    /// The job can still be cancelled.
    pub open spec fn cancellable(self) -> bool {
        self.status == "queued"@ || self.status == "retrying"@
    }

    /// The job has been cancelled.
    pub open spec fn cancelled(self, now: Timestamp) -> JobRowView {
        JobRowView { status: "cancelled"@, updated_at: time_chars(now), ..self }
    }
}

/// A time in a column has come. A text that holds no instant goes by the order of texts.
pub open spec fn has_come(text: Seq<char>, now: Timestamp) -> bool {
    match rfc3339_instant(text) {
        Some((secs, nanos)) => (Timestamp { secs, nanos }).at_or_before(now),
        None => !sorts_before(time_chars(now), text),
    }
}

/// The job in place `i` is taken before the one in place `j`: higher priority first, then
/// the one whose time of creation comes first in its column.
pub open spec fn taken_before(jobs: Seq<JobRowView>, i: int, j: int) -> bool {
    let (a, b) = (jobs[i], jobs[j]);
    ||| a.priority > b.priority
    ||| a.priority == b.priority && sorts_before(a.created_at, b.created_at)
    ||| a.priority == b.priority && a.created_at == b.created_at && i < j
}

/// The job in place `i` is listed before the one in place `j`: higher priority first, then
/// the one whose time of creation comes last in its column.
pub open spec fn listed_before(jobs: Seq<JobRowView>, i: int, j: int) -> bool {
    let (a, b) = (jobs[i], jobs[j]);
    ||| a.priority > b.priority
    ||| a.priority == b.priority && sorts_before(b.created_at, a.created_at)
    ||| a.priority == b.priority && a.created_at == b.created_at && i < j
}

/// `order` names the places of the jobs that a listing shows, in its order: no more
/// than the limit, each before the next, and each before every job left out.
pub open spec fn is_listing(jobs: Seq<JobRowView>, order: Seq<int>) -> bool {
    &&& order.len() == (if jobs.len() < LIST_LIMIT {
        jobs.len()
    } else {
        LIST_LIMIT as nat
    })
    &&& forall|a: int| 0 <= a < order.len() ==> 0 <= #[trigger] order[a] < jobs.len()
    &&& forall|a: int, b: int|
        0 <= a < b < order.len() ==> listed_before(jobs, #[trigger] order[a], #[trigger] order[b])
    &&& forall|i: int, a: int|
        #![trigger jobs[i], order[a]]
        0 <= i < jobs.len() && 0 <= a < order.len() && !order.contains(i) ==> listed_before(
            jobs,
            order[a],
            i,
        )
}

/// Every job that a listing shows can be read.
pub open spec fn all_readable(jobs: Seq<JobRowView>, order: Seq<int>) -> bool {
    forall|a: int| 0 <= a < order.len() ==> jobs[#[trigger] order[a]].readable()
}

/// The characters in lower case, for the letters of ASCII.
pub open spec fn lower(c: char) -> char {
    if 'A' <= c <= 'Z' {
        (c as int + 32) as char
    } else {
        c
    }
}

/// `text` starts with `prefix` in upper or lower case.
pub open spec fn starts_like(text: Seq<char>, prefix: Seq<char>) -> bool {
    &&& prefix.len() <= text.len()
    &&& forall|i: int| 0 <= i < prefix.len() ==> lower(#[trigger] text[i]) == prefix[i]
}

/// The cloud that a source URL belongs to.
#[derive(Clone, Copy, PartialEq, Eq, Structural, Debug)]
pub enum Cloud {
    Aws,
    Azure,
    Gcp,
    Local,
}

impl Cloud {
    /// The name under which the cost summary shows the cloud.
    pub open spec fn label(self) -> Seq<char> {
        match self {
            Cloud::Aws => "aws"@,
            Cloud::Azure => "azure"@,
            Cloud::Gcp => "gcp"@,
            Cloud::Local => "local"@,
        }
    }

    /// The name under which the cost summary shows the cloud.
    pub fn name(self) -> (name: &'static str)
        ensures
            name@ == self.label(),
    {
        match self {
            Cloud::Aws => "aws",
            Cloud::Azure => "azure",
            Cloud::Gcp => "gcp",
            Cloud::Local => "local",
        }
    }
}

/// The cloud that a source URL belongs to, by its scheme in upper or lower case.
pub open spec fn cloud_of(src: Seq<char>) -> Cloud {
    if starts_like(src, "s3://"@) {
        Cloud::Aws
    } else if starts_like(src, "gs://"@) {
        Cloud::Gcp
    } else if starts_like(src, "az://"@) {
        Cloud::Azure
    } else {
        Cloud::Local
    }
}

/// A completed job whose bytes came from the cloud.
pub open spec fn billed(job: JobRowView, cloud: Cloud) -> bool {
    job.status == "completed"@ && cloud_of(job.src) == cloud
}

/// The bytes of the completed jobs of a cloud, summed up in order as signed 64-bit
/// numbers; none where a sum on the way does not fit.
pub open spec fn billed_sum(jobs: Seq<JobRowView>, cloud: Cloud) -> Option<int>
    decreases jobs.len(),
{
    if jobs.len() == 0 {
        Some(0)
    } else {
        match billed_sum(jobs.drop_last(), cloud) {
            None => None,
            Some(sum) => {
                if billed(jobs.last(), cloud) {
                    let next = sum + jobs.last().bytes_transferred;
                    if i64::MIN <= next <= i64::MAX {
                        Some(next)
                    } else {
                        None
                    }
                } else {
                    Some(sum)
                }
            },
        }
    }
}

/// Some completed job has its bytes from the cloud.
pub open spec fn any_billed(jobs: Seq<JobRowView>, cloud: Cloud) -> bool {
    exists|i: int| 0 <= i < jobs.len() && billed(#[trigger] jobs[i], cloud)
}

/// The line of a cloud in the cost summary: none for a cloud without a completed job.
pub open spec fn summary_of(jobs: Seq<JobRowView>, cloud: Cloud) -> Seq<(Seq<char>, u64)> {
    if any_billed(jobs, cloud) {
        seq![(cloud.label(), (billed_sum(jobs, cloud)->0) as i64 as u64)]
    } else {
        Seq::empty()
    }
}

/// The cost summary: one line for each cloud that has a completed job, by name.
pub open spec fn summary(jobs: Seq<JobRowView>) -> Seq<(Seq<char>, u64)> {
    summary_of(jobs, Cloud::Aws) + summary_of(jobs, Cloud::Azure) + summary_of(jobs, Cloud::Gcp)
        + summary_of(jobs, Cloud::Local)
}

/// The sums of every cloud fit.
pub open spec fn sums_fit(jobs: Seq<JobRowView>) -> bool {
    &&& billed_sum(jobs, Cloud::Aws) is Some
    &&& billed_sum(jobs, Cloud::Azure) is Some
    &&& billed_sum(jobs, Cloud::Gcp) is Some
    &&& billed_sum(jobs, Cloud::Local) is Some
}

/// Lines of a cost summary, with their names as character sequences.
pub open spec fn lines_view(lines: Seq<(String, u64)>) -> Seq<(Seq<char>, u64)> {
    lines.map_values(|line: (String, u64)| (line.0@, line.1))
}

pub open spec fn job_views(jobs: Seq<Job>) -> Seq<JobView> {
    jobs.map_values(|job: Job| job@)
}

pub open spec fn row_views(rows: Seq<JobRow>) -> Seq<JobRowView> {
    rows.map_values(|row: JobRow| row@)
}

pub open spec fn cron_views(crons: Seq<CronJob>) -> Seq<CronJobView> {
    crons.map_values(|entry: CronJob| entry@)
}

/// The schedules that are due, in order.
pub open spec fn due(crons: Seq<CronJobView>, now: Timestamp) -> Seq<CronJobView> {
    crons.filter(|entry: CronJobView| is_due(entry, now))
}

/// The schedule is enabled and its next run is not in the future.
pub open spec fn is_due(entry: CronJobView, now: Timestamp) -> bool {
    entry.enabled && entry.next_run_at.at_or_before(now)
}

impl StoreView {
    /// No id occurs twice in a table, and every schedule is valid.
    pub open spec fn wf(self) -> bool {
        &&& forall|i: int, j: int|
            0 <= i < j < self.jobs.len() ==> (#[trigger] self.jobs[i]).id != (
            #[trigger] self.jobs[j]).id
        &&& forall|i: int, j: int|
            0 <= i < j < self.crons.len() ==> (#[trigger] self.crons[i]).id != (
            #[trigger] self.crons[j]).id
        &&& forall|i: int| 0 <= i < self.crons.len() ==> (#[trigger] self.crons[i]).valid()
    }

    /// A job whose id has the given text is in place `i`.
    pub open spec fn row_in(self, id: Seq<char>, i: int) -> bool {
        0 <= i < self.jobs.len() && self.jobs[i].id == id
    }

    pub open spec fn has_row(self, id: Seq<char>) -> bool {
        exists|i: int| self.row_in(id, i)
    }

    /// The place of the job whose id has the given text.
    pub open spec fn row_place(self, id: Seq<char>) -> int {
        choose|i: int| self.row_in(id, i)
    }

    /// The row of the job whose id has the given text.
    pub open spec fn row(self, id: Seq<char>) -> Option<JobRowView> {
        if self.has_row(id) {
            Some(self.jobs[self.row_place(id)])
        } else {
            None
        }
    }

    /// There is a job with the id.
    pub open spec fn has_job(self, id: u128) -> bool {
        self.has_row(id_chars(id))
    }

    /// The row of the job with the id.
    pub open spec fn job(self, id: u128) -> Option<JobRowView> {
        self.row(id_chars(id))
    }

    /// The store with another row for the job whose id has the given text.
    pub open spec fn with_row(self, id: Seq<char>, job: JobRowView) -> StoreView {
        StoreView { jobs: self.jobs.update(self.row_place(id), job), ..self }
    }

    /// The store with another row for the job with the id.
    pub open spec fn with_job(self, id: u128, job: JobRowView) -> StoreView {
        self.with_row(id_chars(id), job)
    }

    /// A schedule with the id is in place `i`.
    pub open spec fn cron_in(self, id: u128, i: int) -> bool {
        0 <= i < self.crons.len() && self.crons[i].id == id
    }

    pub open spec fn has_cron(self, id: u128) -> bool {
        exists|i: int| self.cron_in(id, i)
    }

    /// The place of the schedule with the id.
    pub open spec fn cron_place(self, id: u128) -> int {
        choose|i: int| self.cron_in(id, i)
    }

    /// The schedule with the id.
    pub open spec fn cron(self, id: u128) -> Option<CronJobView> {
        if self.has_cron(id) {
            Some(self.crons[self.cron_place(id)])
        } else {
            None
        }
    }

    /// The store with another row for the schedule with the id.
    pub open spec fn with_cron(self, id: u128, entry: CronJobView) -> StoreView {
        StoreView { crons: self.crons.update(self.cron_place(id), entry), ..self }
    }

    /// The job depended on, if any, has completed.
    pub open spec fn dependency_met(self, depends_on: Option<Seq<char>>) -> bool {
        match depends_on {
            None => true,
            Some(dep) => self.row(dep) matches Some(job) && job.status == "completed"@,
        }
    }

    /// The job in place `i` may start: it is queued, its time has come, and what it
    /// depends on has completed.
    pub open spec fn ready(self, i: int, now: Timestamp) -> bool {
        &&& 0 <= i < self.jobs.len()
        &&& self.jobs[i].status == "queued"@
        &&& self.jobs[i].run_after matches Some(text) ==> has_come(text, now)
        &&& self.dependency_met(self.jobs[i].depends_on)
    }

    /// The job with the id does not start before the given instant.
    pub open spec fn waits_until(self, id: u128, t: Timestamp) -> bool {
        forall|at: Timestamp|
            t.after(at) ==> !#[trigger] self.ready(self.row_place(id_chars(id)), at)
    }

    /// The job in place `i` is the next to start.
    pub open spec fn is_next(self, i: int, now: Timestamp) -> bool {
        &&& self.ready(i, now)
        &&& forall|j: int| #[trigger]
            self.ready(j, now) && j != i ==> taken_before(self.jobs, i, j)
    }

    /// No job may start.
    pub open spec fn idle(self, now: Timestamp) -> bool {
        forall|i: int| !#[trigger] self.ready(i, now)
    }

    /// The store once a transfer has moved some bytes.
    pub open spec fn after_progress(
        self,
        id: u128,
        bytes_transferred: u64,
        bytes_total: Option<u64>,
        peak: Option<Signed>,
        now: Timestamp,
    ) -> StoreView {
        match self.job(id) {
            Some(job) => self.with_job(
                id,
                job.progressed(bytes_transferred, bytes_total, peak, now),
            ),
            None => self,
        }
    }

    /// The store once a transfer has ended well.
    pub open spec fn after_completion(
        self,
        id: u128,
        peak: Option<Signed>,
        now: Timestamp,
    ) -> StoreView {
        match self.job(id) {
            Some(job) => self.with_job(id, job.completed(peak, now)),
            None => self,
        }
    }

    /// A retry of the job, counted from `base`, would start beyond the calendar.
    pub open spec fn retry_out_of_range(self, id: u128, base: Timestamp) -> bool {
        self.job(id) matches Some(job) && job.may_retry() && base.secs + backoff(job.attempt)
            > MAX_SECS
    }

    /// The store once a transfer has failed.
    pub open spec fn after_failure(
        self,
        id: u128,
        error: Seq<char>,
        now: Timestamp,
        base: Timestamp,
    ) -> StoreView {
        match self.job(id) {
            Some(job) => self.with_job(id, job.after_failure(error, now, base)),
            None => self,
        }
    }

    /// The job with the id can be cancelled.
    pub open spec fn can_cancel(self, id: u128) -> bool {
        self.job(id) matches Some(job) && job.cancellable()
    }

    /// The store once the job with the id has been cancelled, if it can be.
    pub open spec fn after_cancel(self, id: u128, now: Timestamp) -> StoreView {
        match self.job(id) {
            Some(job) => {
                if job.cancellable() {
                    self.with_job(id, job.cancelled(now))
                } else {
                    self
                }
            },
            None => self,
        }
    }

    /// The store once the job in place `i` has been claimed.
    pub open spec fn after_claim(self, i: int, now: Timestamp) -> StoreView {
        StoreView { jobs: self.jobs.update(i, self.jobs[i].claimed(now)), ..self }
    }

    /// `claimed` is what a worker that asks for work gets, and `after` what the store
    /// then holds. A job that cannot be handed out is an error, and no longer queued.
    pub open spec fn claims(
        self,
        now: Timestamp,
        claimed: Result<Option<JobView>, StoreError>,
        after: StoreView,
    ) -> bool {
        match claimed {
            Ok(Some(job)) => exists|i: int|
                #![trigger self.is_next(i, now)]
                {
                    &&& self.is_next(i, now) && self.jobs[i].can_be_handed_out(now)
                    &&& job == self.jobs[i].claimed(now).job()
                    &&& after == self.after_claim(i, now)
                },
            Ok(None) => self.idle(now) && after == self,
            Err(e) => {
                &&& e == StoreError::UnreadableRow
                &&& exists|i: int|
                    #![trigger self.is_next(i, now)]
                    {
                        &&& self.is_next(i, now) && !self.jobs[i].can_be_handed_out(now)
                        &&& after == self.after_claim(i, now)
                    }
            },
        }
    }

    /// The store with one more job.
    pub open spec fn with_new_job(self, job: JobView) -> StoreView {
        StoreView { jobs: self.jobs.push(job.row()), ..self }
    }

    /// The store with one more schedule.
    pub open spec fn with_new_cron(self, entry: CronJobView) -> StoreView {
        StoreView { crons: self.crons.push(entry), ..self }
    }

    /// The store without the schedule with the id.
    pub open spec fn without_cron(self, id: u128) -> StoreView {
        if self.has_cron(id) {
            StoreView { crons: self.crons.remove(self.cron_place(id)), ..self }
        } else {
            self
        }
    }

    /// The store once a schedule has spawned a job and knows its next run.
    pub open spec fn after_advance(
        self,
        id: u128,
        job_id: u128,
        next_run_at: Timestamp,
    ) -> StoreView {
        match self.cron(id) {
            Some(entry) => self.with_cron(
                id,
                CronJobView { last_job_id: Some(job_id), next_run_at, ..entry },
            ),
            None => self,
        }
    }
}

/// What a claim brought, as a job of the model.
pub open spec fn claim_view(claimed: Result<Option<Job>, StoreError>) -> Result<
    Option<JobView>,
    StoreError,
> {
    match claimed {
        Ok(Some(job)) => Ok(Some(job@)),
        Ok(None) => Ok(None),
        Err(e) => Err(e),
    }
}

/// No two rows have the same text for their id.
pub open spec fn distinct_ids(rows: Seq<JobRowView>) -> bool {
    forall|i: int, j: int|
        0 <= i < j < rows.len() ==> (#[trigger] rows[i]).id != (#[trigger] rows[j]).id
}

/// The schedules that rows hold. A row that cannot be read, or whose id is taken by a row
/// before it, is left alone.
pub open spec fn crons_in(rows: Seq<CronRow>) -> Seq<CronJobView>
    decreases rows.len(),
{
    if rows.len() == 0 {
        Seq::empty()
    } else {
        let before = crons_in(rows.drop_last());
        let row = rows.last();
        if row.readable() && !has_cron_id(before, row.entry().id) {
            before.push(row.entry())
        } else {
            before
        }
    }
}

pub open spec fn has_cron_id(crons: Seq<CronJobView>, id: u128) -> bool {
    exists|i: int| 0 <= i < crons.len() && (#[trigger] crons[i]).id == id
}

/// The store that rows hold.
pub open spec fn stored_in(job_rows: Seq<JobRow>, cron_rows: Seq<CronRow>) -> StoreView {
    StoreView { jobs: row_views(job_rows), crons: crons_in(cron_rows) }
}

/// The rows hold the schedules, one for one, and read back as them.
pub open spec fn rows_hold_crons(rows: Seq<CronRow>, crons: Seq<CronJobView>) -> bool {
    &&& rows.len() == crons.len()
    &&& forall|i: int|
        #![trigger rows[i]]
        #![trigger crons[i]]
        0 <= i < rows.len() ==> rows[i].holds(crons[i]) && rows[i].readable() && rows[i].entry()
            == crons[i]
}

} // verus!
