//! The job store: the tables of jobs and schedules, and every operation on them.
use vstd::prelude::*;
use crate::double::Signed;
use crate::ids::{fresh_id, id_chars, id_text, is_random_id};
use crate::job::{CreateCronRequest, CronJob, CronJobView, Job};
use crate::row::{
    cron_to_row, job_to_row, peak_bits, read_cron, read_job, time_chars, CronRow, JobRow,
    JobRowView,
};
use crate::table::{
    all_readable, any_billed, backoff, billed, billed_sum, claim_view, cloud_of, cron_views, crons_in,
    distinct_ids, due, has_come, has_cron_id, is_due, is_listing, job_views, lines_view,
    listed_before, lower, row_views, rows_hold_crons, starts_like, stored_in, summary, summary_of,
    sums_fit, taken_before, Cloud, StoreError, StoreView, FIRST_BACKOFF_SECS, LAST_BACKOFF_SECS,
    LIST_LIMIT, SECOND_BACKOFF_SECS,
};
use crate::text::{
    chars_of, order_of_texts_chains, same_text, sorts_before, text_sorts_before,
    texts_are_ordered,
};
use crate::time::{parse_rfc3339, to_rfc3339, utc_now, Timestamp, MAX_SECS};

verus! {

/// The tables of jobs and schedules.
#[derive(Debug)]
pub struct JobStore {
    jobs: Vec<JobRow>,
    crons: Vec<CronJob>,
}

impl View for JobStore {
    type V = StoreView;

    closed spec fn view(&self) -> StoreView {
        StoreView { jobs: row_views(self.jobs@), crons: cron_views(self.crons@) }
    }
}

/// With no id twice, the place of a job is the only place that holds its id.
pub proof fn lemma_row_place(store: StoreView, id: Seq<char>, i: int)
    requires
        store.wf(),
        store.row_in(id, i),
    ensures
        store.has_row(id),
        store.row_place(id) == i,
        store.row(id) == Some(store.jobs[i]),
{
    let j = store.row_place(id);
    assert(store.row_in(id, j));
    if j < i {
        assert(store.jobs[j].id != store.jobs[i].id);
    } else if i < j {
        assert(store.jobs[i].id != store.jobs[j].id);
    }
}

/// With no id twice, the place of a schedule is the only place that holds its id.
proof fn lemma_cron_place(store: StoreView, id: u128, i: int)
    requires
        store.wf(),
        store.cron_in(id, i),
    ensures
        store.has_cron(id),
        store.cron_place(id) == i,
        store.cron(id) == Some(store.crons[i]),
{
    let j = store.cron_place(id);
    assert(store.cron_in(id, j));
    if j < i {
        assert(store.crons[j].id != store.crons[i].id);
    } else if i < j {
        assert(store.crons[i].id != store.crons[j].id);
    }
}

/// A new row for a job, under its old id, keeps the store well-formed.
pub proof fn lemma_with_row_wf(store: StoreView, id: Seq<char>, job: JobRowView)
    requires
        store.wf(),
        store.has_row(id),
        job.id == id,
    ensures
        store.with_row(id, job).wf(),
        store.with_row(id, job).row(id) == Some(job),
        store.with_row(id, job).row_place(id) == store.row_place(id),
{
    let i = store.row_place(id);
    assert(store.row_in(id, i));
    let after = store.with_row(id, job);
    assert forall|a: int, b: int| 0 <= a < b < after.jobs.len() implies (#[trigger] after.jobs[a]).id
        != (#[trigger] after.jobs[b]).id by {
        assert(after.jobs[a].id == store.jobs[a].id);
        assert(after.jobs[b].id == store.jobs[b].id);
    }
    assert(after.row_in(id, i));
    lemma_row_place(after, id, i);
}

/// A new row for a schedule, under its old id, keeps the store well-formed.
proof fn lemma_with_cron_wf(store: StoreView, id: u128, entry: CronJobView)
    requires
        store.wf(),
        store.has_cron(id),
        entry.id == id,
        entry.valid(),
    ensures
        store.with_cron(id, entry).wf(),
{
    let i = store.cron_place(id);
    assert(store.cron_in(id, i));
    let after = store.with_cron(id, entry);
    assert forall|a: int, b: int|
        0 <= a < b < after.crons.len() implies (#[trigger] after.crons[a]).id != (
    #[trigger] after.crons[b]).id by {
        assert(after.crons[a].id == store.crons[a].id);
        assert(after.crons[b].id == store.crons[b].id);
    }
}

/// Seconds to wait before the next attempt, once the given attempt has failed.
pub fn backoff_secs(attempt: i64) -> (secs: i64)
    ensures
        secs == backoff(attempt),
{
    match attempt {
        1 => FIRST_BACKOFF_SECS,
        2 => SECOND_BACKOFF_SECS,
        _ => LAST_BACKOFF_SECS,
    }
}

/// Whether a time in a column has come.
fn time_has_come(text: &str, now: Timestamp, now_text: &str) -> (yes: bool)
    requires
        now_text@ == time_chars(now),
    ensures
        yes == has_come(text@, now),
{
    match parse_rfc3339(text) {
        Some(t) => t.is_at_or_before(&now),
        None => !text_sorts_before(now_text, text),
    }
}

proof fn lemma_taken_before_chains(jobs: Seq<JobRowView>, i: int, j: int, k: int)
    requires
        taken_before(jobs, i, j),
        taken_before(jobs, j, k),
    ensures
        taken_before(jobs, i, k),
{
    let (a, b, c) = (jobs[i].created_at, jobs[j].created_at, jobs[k].created_at);
    if sorts_before(a, b) && sorts_before(b, c) {
        order_of_texts_chains(a, b, c);
    }
}

proof fn lemma_one_is_taken_before(jobs: Seq<JobRowView>, i: int, j: int)
    requires
        i != j,
    ensures
        taken_before(jobs, i, j) != taken_before(jobs, j, i),
{
    texts_are_ordered(jobs[i].created_at, jobs[j].created_at);
}

proof fn lemma_listed_before_chains(jobs: Seq<JobRowView>, i: int, j: int, k: int)
    requires
        listed_before(jobs, i, j),
        listed_before(jobs, j, k),
    ensures
        listed_before(jobs, i, k),
{
    let (a, b, c) = (jobs[i].created_at, jobs[j].created_at, jobs[k].created_at);
    if sorts_before(c, b) && sorts_before(b, a) {
        order_of_texts_chains(c, b, a);
    }
}

proof fn lemma_one_is_listed_before(jobs: Seq<JobRowView>, i: int, j: int)
    requires
        i != j,
    ensures
        listed_before(jobs, i, j) != listed_before(jobs, j, i),
{
    texts_are_ordered(jobs[i].created_at, jobs[j].created_at);
}

impl JobStore {
    /// An empty store.
    pub fn new() -> (store: JobStore)
        ensures
            store@ == (StoreView { jobs: Seq::empty(), crons: Seq::empty() }),
            store@.wf(),
    {
        let store = JobStore { jobs: Vec::new(), crons: Vec::new() };
        assert(store@ =~= StoreView { jobs: Seq::empty(), crons: Seq::empty() });
        store
    }

    /// The place of the job whose id has the given text.
    fn find_row(&self, id: &str) -> (place: Option<usize>)
        requires
            self@.wf(),
        ensures
            match place {
                Some(i) => {
                    &&& self@.row_in(id@, i as int)
                    &&& self@.has_row(id@)
                    &&& self@.row_place(id@) == i
                    &&& self@.row(id@) == Some(self.jobs@[i as int]@)
                    &&& i < self.jobs@.len()
                },
                None => !self@.has_row(id@),
            },
    {
        let mut i: usize = 0;
        while i < self.jobs.len()
            invariant
                i <= self.jobs.len(),
                self@.wf(),
                forall|j: int| 0 <= j < i ==> (#[trigger] self.jobs@[j]).id@ != id@,
            decreases self.jobs.len() - i,
        {
            if same_text(self.jobs[i].id.as_str(), id) {
                proof {
                    assert(self@.jobs[i as int] == self.jobs@[i as int]@);
                    assert(self@.row_in(id@, i as int));
                    lemma_row_place(self@, id@, i as int);
                }
                return Some(i);
            }
            i += 1;
        }
        proof {
            if self@.has_row(id@) {
                let j = self@.row_place(id@);
                assert(self@.row_in(id@, j));
                assert(self@.jobs[j] == self.jobs@[j]@);
            }
        }
        None
    }

    /// The place of the job with the id.
    fn find_job(&self, id: u128) -> (place: Option<usize>)
        requires
            self@.wf(),
        ensures
            match place {
                Some(i) => {
                    &&& self@.row_in(id_chars(id), i as int)
                    &&& self@.has_job(id)
                    &&& self@.row_place(id_chars(id)) == i
                    &&& self@.job(id) == Some(self.jobs@[i as int]@)
                    &&& i < self.jobs@.len()
                },
                None => !self@.has_job(id),
            },
    {
        let text = id_text(id);
        self.find_row(text.as_str())
    }

    /// The place of the schedule with the id.
    fn find_cron(&self, id: u128) -> (place: Option<usize>)
        requires
            self@.wf(),
        ensures
            match place {
                Some(i) => {
                    &&& self@.cron_in(id, i as int)
                    &&& self@.has_cron(id)
                    &&& self@.cron_place(id) == i
                    &&& self@.cron(id) == Some(self.crons@[i as int]@)
                    &&& i < self.crons@.len()
                },
                None => !self@.has_cron(id),
            },
    {
        let mut i: usize = 0;
        while i < self.crons.len()
            invariant
                i <= self.crons.len(),
                self@.wf(),
                forall|j: int| 0 <= j < i ==> (#[trigger] self.crons@[j]).id != id,
            decreases self.crons.len() - i,
        {
            if self.crons[i].id == id {
                proof {
                    assert(self@.crons[i as int] == self.crons@[i as int]@);
                    assert(self@.cron_in(id, i as int));
                    lemma_cron_place(self@, id, i as int);
                }
                return Some(i);
            }
            i += 1;
        }
        proof {
            if self@.has_cron(id) {
                let j = self@.cron_place(id);
                assert(self@.cron_in(id, j));
                assert(self@.crons[j] == self.crons@[j]@);
            }
        }
        None
    }

    /// Inserts a row.
    fn insert_row(&mut self, row: JobRow) -> (r: Result<(), StoreError>)
        requires
            old(self)@.wf(),
        ensures
            final(self)@.wf(),
            match r {
                Ok(_) => {
                    &&& !old(self)@.has_row(row@.id)
                    &&& final(self)@ == (StoreView {
                        jobs: old(self)@.jobs.push(row@),
                        ..old(self)@
                    })
                    &&& final(self)@.row(row@.id) == Some(row@)
                },
                Err(e) => {
                    &&& e == StoreError::DuplicateId
                    &&& old(self)@.has_row(row@.id)
                    &&& final(self)@ == old(self)@
                },
            },
    {
        if self.find_row(row.id.as_str()).is_some() {
            return Err(StoreError::DuplicateId);
        }
        let ghost view = row@;
        self.jobs.push(row);
        proof {
            let before = old(self)@;
            assert(self@.jobs =~= before.jobs.push(view));
            assert(self@.crons == before.crons);
            let n = before.jobs.len() as int;
            assert forall|a: int, b: int| 0 <= a < b < self@.jobs.len() implies (
            #[trigger] self@.jobs[a]).id != (#[trigger] self@.jobs[b]).id by {
                assert(self@.jobs[a] == before.jobs[a]);
                if b == n {
                    if before.jobs[a].id == view.id {
                        assert(before.row_in(view.id, a));
                    }
                } else {
                    assert(self@.jobs[b] == before.jobs[b]);
                }
            }
            assert(self@.row_in(view.id, n));
            lemma_row_place(self@, view.id, n);
        }
        Ok(())
    }

    /// Inserts a job. Its row reads back as the job.
    pub fn create(&mut self, job: &Job) -> (r: Result<(), StoreError>)
        requires
            old(self)@.wf(),
            job@.valid(),
        ensures
            final(self)@.wf(),
            match r {
                Ok(_) => {
                    &&& !old(self)@.has_job(job.id)
                    &&& final(self)@ == old(self)@.with_new_job(job@)
                    &&& final(self)@.job(job.id) == Some(job@.row())
                    &&& job@.row().readable()
                    &&& job@.row().job() == job@.stored()
                },
                Err(e) => {
                    &&& e == StoreError::DuplicateId
                    &&& old(self)@.has_job(job.id)
                    &&& final(self)@ == old(self)@
                },
            },
    {
        self.insert_row(job_to_row(job))
    }

    /// The job with the id. Only a row that cannot be read is an error.
    pub fn get(&self, id: u128) -> (job: Result<Option<Job>, StoreError>)
        requires
            self@.wf(),
        ensures
            match self@.job(id) {
                None => job matches Ok(None),
                Some(row) => if row.readable() {
                    job matches Ok(Some(found)) && found@ == row.job() && found@.valid()
                } else {
                    job matches Err(StoreError::UnreadableRow)
                },
            },
    {
        match self.find_job(id) {
            Some(i) => match read_job(&self.jobs[i]) {
                Some(job) => Ok(Some(job)),
                None => Err(StoreError::UnreadableRow),
            },
            None => Ok(None),
        }
    }

    /// Puts a new row in place of the job in place `i`.
    fn put_row(&mut self, i: usize, row: JobRow)
        requires
            old(self)@.wf(),
            old(self)@.row_in(row@.id, i as int),
        ensures
            final(self)@.wf(),
            final(self)@ == old(self)@.with_row(row@.id, row@),
            final(self)@ == (StoreView {
                jobs: old(self)@.jobs.update(i as int, row@),
                ..old(self)@
            }),
            final(self)@.row(row@.id) == Some(row@),
    {
        let ghost view = row@;
        self.jobs.set(i, row);
        proof {
            lemma_row_place(old(self)@, view.id, i as int);
            lemma_with_row_wf(old(self)@, view.id, view);
            assert(self@ =~= old(self)@.with_row(view.id, view));
        }
    }

    /// Records how far a transfer has come; a job that is not there stays away.
    pub fn update_progress_at(
        &mut self,
        id: u128,
        bytes_transferred: u64,
        bytes_total: Option<u64>,
        peak_throughput_mbps: Option<Signed>,
        now: Timestamp,
    )
        requires
            old(self)@.wf(),
            peak_throughput_mbps matches Some(d) ==> d.valid(),
            now.valid(),
        ensures
            final(self)@.wf(),
            final(self)@ == old(self)@.after_progress(
                id,
                bytes_transferred,
                bytes_total,
                peak_throughput_mbps,
                now,
            ),
    {
        if let Some(i) = self.find_job(id) {
            let mut row = self.jobs[i].clone();
            row.bytes_transferred = bytes_transferred as i64;
            row.bytes_total = match bytes_total {
                Some(n) => Some(n as i64),
                None => None,
            };
            row.peak_throughput_mbps = peak_bits(peak_throughput_mbps);
            row.updated_at = to_rfc3339(now);
            self.put_row(i, row);
        }
    }

    /// Records how far a transfer has come, at the present time.
    pub fn update_progress(
        &mut self,
        id: u128,
        bytes_transferred: u64,
        bytes_total: Option<u64>,
        peak_throughput_mbps: Option<Signed>,
    )
        requires
            old(self)@.wf(),
            peak_throughput_mbps matches Some(d) ==> d.valid(),
        ensures
            final(self)@.wf(),
            exists|now: Timestamp|
                now.on_clock() && final(self)@ == #[trigger] old(self)@.after_progress(
                    id,
                    bytes_transferred,
                    bytes_total,
                    peak_throughput_mbps,
                    now,
                ),
    {
        let now = utc_now();
        self.update_progress_at(id, bytes_transferred, bytes_total, peak_throughput_mbps, now);
    }

    /// Marks a job as completed; a job that is not there stays away.
    pub fn set_completed_at(
        &mut self,
        id: u128,
        peak_throughput_mbps: Option<Signed>,
        now: Timestamp,
    )
        requires
            old(self)@.wf(),
            peak_throughput_mbps matches Some(d) ==> d.valid(),
            now.valid(),
        ensures
            final(self)@.wf(),
            final(self)@ == old(self)@.after_completion(id, peak_throughput_mbps, now),
    {
        if let Some(i) = self.find_job(id) {
            let mut row = self.jobs[i].clone();
            row.status = "completed".to_owned();
            row.peak_throughput_mbps = peak_bits(peak_throughput_mbps);
            row.completed_at = Some(to_rfc3339(now));
            row.updated_at = to_rfc3339(now);
            row.error = None;
            self.put_row(i, row);
        }
    }

    /// Marks a job as completed, at the present time.
    pub fn set_completed(&mut self, id: u128, peak_throughput_mbps: Option<Signed>)
        requires
            old(self)@.wf(),
            peak_throughput_mbps matches Some(d) ==> d.valid(),
        ensures
            final(self)@.wf(),
            exists|now: Timestamp|
                now.on_clock() && final(self)@ == #[trigger] old(self)@.after_completion(
                    id,
                    peak_throughput_mbps,
                    now,
                ),
    {
        let now = utc_now();
        self.set_completed_at(id, peak_throughput_mbps, now);
    }

    /// Schedules a retry, counted from `base`, or marks the failure as terminal.
    pub fn set_failed_at(
        &mut self,
        id: u128,
        error: &str,
        now: Timestamp,
        base: Timestamp,
    ) -> (r: Result<(), StoreError>)
        requires
            old(self)@.wf(),
            now.valid(),
            base.valid(),
        ensures
            final(self)@.wf(),
            match r {
                Ok(_) => {
                    &&& old(self)@.has_job(id)
                    &&& !old(self)@.retry_out_of_range(id, base)
                    &&& final(self)@ == old(self)@.after_failure(id, error@, now, base)
                    &&& final(self)@.job(id) == Some(
                        old(self)@.job(id)->0.after_failure(error@, now, base),
                    )
                    &&& old(self)@.job(id)->0.readable() ==> final(self)@.job(id)->0.readable()
                    &&& old(self)@.job(id)->0.may_retry() ==> final(self)@.waits_until(
                        id,
                        base.later_by(backoff(old(self)@.job(id)->0.attempt)),
                    )
                },
                Err(StoreError::NoSuchJob) => {
                    !old(self)@.has_job(id) && final(self)@ == old(self)@
                },
                Err(StoreError::TimeOutOfRange) => {
                    old(self)@.retry_out_of_range(id, base) && final(self)@ == old(self)@
                },
                Err(_) => false,
            },
    {
        match self.find_job(id) {
            None => Err(StoreError::NoSuchJob),
            Some(i) => {
                let mut row = self.jobs[i].clone();
                if row.attempt < row.max_attempts {
                    let wait: i64 = backoff_secs(row.attempt);
                    if base.secs > MAX_SECS - wait {
                        return Err(StoreError::TimeOutOfRange);
                    }
                    row.status = "queued".to_owned();
                    row.run_after = Some(to_rfc3339(base.plus_secs(wait)));
                    row.error = Some(error.to_owned());
                    row.updated_at = to_rfc3339(now);
                } else {
                    row.status = "failed".to_owned();
                    row.error = Some(error.to_owned());
                    row.completed_at = Some(to_rfc3339(now));
                    row.updated_at = to_rfc3339(now);
                }
                self.put_row(i, row);
                Ok(())
            },
        }
    }

    /// Schedules a retry or marks the failure as terminal, at the present time.
    pub fn set_failed(&mut self, id: u128, error: &str) -> (r: Result<(), StoreError>)
        requires
            old(self)@.wf(),
        ensures
            final(self)@.wf(),
            match r {
                Ok(_) => exists|now: Timestamp, base: Timestamp|
                    #![trigger old(self)@.after_failure(id, error@, now, base)]
                    {
                        &&& now.on_clock() && base.on_clock()
                        &&& old(self)@.has_job(id)
                        &&& !old(self)@.retry_out_of_range(id, base)
                        &&& final(self)@ == old(self)@.after_failure(id, error@, now, base)
                        &&& old(self)@.job(id)->0.may_retry() ==> final(self)@.waits_until(
                            id,
                            base.later_by(backoff(old(self)@.job(id)->0.attempt)),
                        )
                    },
                Err(StoreError::NoSuchJob) => {
                    !old(self)@.has_job(id) && final(self)@ == old(self)@
                },
                Err(StoreError::TimeOutOfRange) => {
                    &&& exists|base: Timestamp|
                        base.on_clock() && #[trigger] old(self)@.retry_out_of_range(id, base)
                    &&& final(self)@ == old(self)@
                },
                Err(_) => false,
            },
    {
        let now = utc_now();
        let base = utc_now();
        self.set_failed_at(id, error, now, base)
    }

    /// Cancels a job that has not started; whether there was one to cancel.
    pub fn cancel_at(&mut self, id: u128, now: Timestamp) -> (done: bool)
        requires
            old(self)@.wf(),
            now.valid(),
        ensures
            final(self)@.wf(),
            done == old(self)@.can_cancel(id),
            final(self)@ == old(self)@.after_cancel(id, now),
    {
        match self.find_job(id) {
            None => false,
            Some(i) => {
                let mut row = self.jobs[i].clone();
                if same_text(row.status.as_str(), "queued") || same_text(
                    row.status.as_str(),
                    "retrying",
                ) {
                    row.status = "cancelled".to_owned();
                    row.updated_at = to_rfc3339(now);
                    self.put_row(i, row);
                    true
                } else {
                    false
                }
            },
        }
    }

    /// Cancels a job that has not started, at the present time.
    pub fn cancel(&mut self, id: u128) -> (done: bool)
        requires
            old(self)@.wf(),
        ensures
            final(self)@.wf(),
            done == old(self)@.can_cancel(id),
            exists|now: Timestamp|
                now.on_clock() && final(self)@ == #[trigger] old(self)@.after_cancel(id, now),
    {
        let now = utc_now();
        self.cancel_at(id, now)
    }

    /// Whether the job in place `i` may start.
    fn is_ready(&self, i: usize, now: Timestamp, now_text: &str) -> (ready: bool)
        requires
            self@.wf(),
            i < self.jobs@.len(),
            now_text@ == time_chars(now),
        ensures
            ready == self@.ready(i as int, now),
    {
        let row = &self.jobs[i];
        assert(self@.jobs[i as int] == row@);
        if !same_text(row.status.as_str(), "queued") {
            return false;
        }
        if let Some(text) = &row.run_after {
            if !time_has_come(text.as_str(), now, now_text) {
                return false;
            }
        }
        match &row.depends_on {
            None => true,
            Some(dep) => match self.find_row(dep.as_str()) {
                Some(k) => same_text(self.jobs[k].status.as_str(), "completed"),
                None => false,
            },
        }
    }

    /// Whether the job in place `i` is taken before the one in place `j`.
    fn is_taken_before(&self, i: usize, j: usize) -> (yes: bool)
        requires
            i < self.jobs@.len(),
            j < self.jobs@.len(),
        ensures
            yes == taken_before(self@.jobs, i as int, j as int),
    {
        let a = &self.jobs[i];
        let b = &self.jobs[j];
        assert(self@.jobs[i as int] == a@);
        assert(self@.jobs[j as int] == b@);
        proof {
            texts_are_ordered(a.created_at@, b.created_at@);
        }
        if a.priority != b.priority {
            a.priority > b.priority
        } else if same_text(a.created_at.as_str(), b.created_at.as_str()) {
            i < j
        } else {
            text_sorts_before(a.created_at.as_str(), b.created_at.as_str())
        }
    }

    /// Claims the next job that may start: queued, its time come, and what it depends
    /// on completed; the highest priority first, then the oldest. The job that comes
    /// back is already running.
    pub fn claim_next_at(&mut self, now: Timestamp) -> (claimed: Result<Option<Job>, StoreError>)
        requires
            old(self)@.wf(),
            now.valid(),
        ensures
            final(self)@.wf(),
            old(self)@.claims(now, claim_view(claimed), final(self)@),
            claimed matches Ok(Some(job)) ==> job@.valid(),
    {
        let ghost store = self@;
        let now_text = to_rfc3339(now);
        let mut best: Option<usize> = None;
        let mut i: usize = 0;
        while i < self.jobs.len()
            invariant
                i <= self.jobs.len(),
                self@ == store,
                store == old(self)@,
                store.wf(),
                store.jobs.len() == self.jobs@.len(),
                now_text@ == time_chars(now),
                match best {
                    None => forall|j: int| 0 <= j < i ==> !#[trigger] store.ready(j, now),
                    Some(b) => {
                        &&& b < i
                        &&& store.ready(b as int, now)
                        &&& forall|j: int|
                            0 <= j < i && #[trigger] store.ready(j, now) && j != b ==> taken_before(
                                store.jobs,
                                b as int,
                                j,
                            )
                    },
                },
            decreases self.jobs.len() - i,
        {
            if self.is_ready(i, now, now_text.as_str()) {
                match best {
                    None => {
                        best = Some(i);
                    },
                    Some(b) => {
                        proof {
                            lemma_one_is_taken_before(store.jobs, i as int, b as int);
                        }
                        if self.is_taken_before(i, b) {
                            assert forall|j: int|
                                0 <= j < i + 1 && #[trigger] store.ready(j, now) && j
                                    != i implies taken_before(store.jobs, i as int, j) by {
                                if j != b {
                                    lemma_taken_before_chains(
                                        store.jobs,
                                        i as int,
                                        b as int,
                                        j,
                                    );
                                }
                            }
                            best = Some(i);
                        }
                    },
                }
            }
            i += 1;
        }
        match best {
            None => Ok(None),
            Some(b) => {
                let mut row = self.jobs[b].clone();
                let last = row.attempt == i64::MAX;
                row.status = "running".to_owned();
                row.started_at = Some(to_rfc3339(now));
                row.updated_at = to_rfc3339(now);
                row.attempt = if last {
                    i64::MAX
                } else {
                    row.attempt + 1
                };
                let job = read_job(&row);
                proof {
                    assert(store.jobs[b as int] == self.jobs@[b as int]@);
                    assert(store.row_in(row@.id, b as int));
                    assert(store.is_next(b as int, now));
                    assert(row@ =~= store.jobs[b as int].claimed(now));
                }
                self.put_row(b, row);
                match job {
                    Some(job) => if last {
                        Err(StoreError::UnreadableRow)
                    } else {
                        Ok(Some(job))
                    },
                    None => Err(StoreError::UnreadableRow),
                }
            },
        }
    }

    /// Claims the next job that may start, at the present time.
    pub fn claim_next(&mut self) -> (claimed: Result<Option<Job>, StoreError>)
        requires
            old(self)@.wf(),
        ensures
            final(self)@.wf(),
            exists|now: Timestamp|
                now.on_clock() && #[trigger] old(self)@.claims(
                    now,
                    claim_view(claimed),
                    final(self)@,
                ),
            claimed matches Ok(Some(job)) ==> job@.valid(),
    {
        let now = utc_now();
        self.claim_next_at(now)
    }

    /// Whether the job in place `i` is listed before the one in place `j`.
    fn is_listed_before(&self, i: usize, j: usize) -> (yes: bool)
        requires
            i < self.jobs@.len(),
            j < self.jobs@.len(),
        ensures
            yes == listed_before(self@.jobs, i as int, j as int),
    {
        let a = &self.jobs[i];
        let b = &self.jobs[j];
        assert(self@.jobs[i as int] == a@);
        assert(self@.jobs[j as int] == b@);
        proof {
            texts_are_ordered(a.created_at@, b.created_at@);
        }
        if a.priority != b.priority {
            a.priority > b.priority
        } else if same_text(a.created_at.as_str(), b.created_at.as_str()) {
            i < j
        } else {
            text_sorts_before(b.created_at.as_str(), a.created_at.as_str())
        }
    }

    /// The places of the jobs that a listing shows, in its order.
    fn listed_places(&self) -> (places: Vec<usize>)
        requires
            self@.wf(),
        ensures
            is_listing(self@.jobs, places_view(places@)),
            places@.len() <= self.jobs@.len(),
    {
        let total: usize = self.jobs.len();
        let shown: usize = if total < LIST_LIMIT {
            total
        } else {
            LIST_LIMIT
        };
        let mut places: Vec<usize> = Vec::new();
        let mut n: usize = 0;
        while n < total
            invariant
                n <= total,
                places@.len() == n,
                forall|a: int| 0 <= a < n ==> places@[a] == a,
            decreases total - n,
        {
            places.push(n);
            n += 1;
        }
        let ghost jobs_seq = self@.jobs;
        let mut k: usize = 0;
        assert forall|i: int| 0 <= i < total implies #[trigger] holds_place(places@, i) by {
            assert(places@[i] == i);
        }
        while k < shown
            invariant
                self@.wf(),
                jobs_seq == self@.jobs,
                total == self.jobs@.len(),
                jobs_seq.len() == total,
                k <= shown <= total,
                places@.len() == total,
                forall|a: int| 0 <= a < total ==> #[trigger] places@[a] < total,
                forall|i: int| 0 <= i < total ==> #[trigger] holds_place(places@, i),
                forall|a: int, b: int|
                    0 <= a < b < total ==> #[trigger] places@[a] != #[trigger] places@[b],
                forall|a: int, b: int|
                    0 <= a < k && a < b < total ==> listed_before(
                        jobs_seq,
                        #[trigger] places@[a] as int,
                        #[trigger] places@[b] as int,
                    ),
            decreases shown - k,
        {
            let mut best: usize = k;
            let mut c: usize = k + 1;
            while c < total
                invariant
                    total == self.jobs@.len(),
                    jobs_seq == self@.jobs,
                    k <= best < c <= total,
                    places@.len() == total,
                    forall|a: int| 0 <= a < total ==> #[trigger] places@[a] < total,
                    forall|a: int, b: int|
                        0 <= a < b < total ==> #[trigger] places@[a] != #[trigger] places@[b],
                    forall|b: int|
                        k <= b < c && b != best ==> listed_before(
                            jobs_seq,
                            places@[best as int] as int,
                            #[trigger] places@[b] as int,
                        ),
                decreases total - c,
            {
                proof {
                    lemma_one_is_listed_before(
                        jobs_seq,
                        places@[c as int] as int,
                        places@[best as int] as int,
                    );
                }
                if self.is_listed_before(places[c], places[best]) {
                    assert forall|b: int| k <= b < c + 1 && b != c implies listed_before(
                        jobs_seq,
                        places@[c as int] as int,
                        #[trigger] places@[b] as int,
                    ) by {
                        if b != best {
                            lemma_listed_before_chains(
                                jobs_seq,
                                places@[c as int] as int,
                                places@[best as int] as int,
                                places@[b] as int,
                            );
                        }
                    }
                    best = c;
                }
                c += 1;
            }
            let ghost before = places@;
            let chosen: usize = places[best];
            let moved: usize = places[k];
            places.set(best, moved);
            places.set(k, chosen);
            assert forall|i: int| 0 <= i < total implies #[trigger] holds_place(places@, i) by {
                assert(holds_place(before, i));
                let a = choose|a: int| 0 <= a < before.len() && before[a] == i;
                let b = if a == best {
                    k as int
                } else if a == k {
                    best as int
                } else {
                    a
                };
                assert(places@[b] == i);
            }
            k += 1;
        }
        let ghost all_places = places@;
        places.truncate(shown);
        proof {
            let order = Seq::new(shown as nat, |a: int| all_places[a] as int);
            assert forall|i: int, a: int|
                #![trigger jobs_seq[i], order[a]]
                0 <= i < jobs_seq.len() && 0 <= a < order.len() && !order.contains(
                    i,
                ) implies listed_before(jobs_seq, order[a], i) by {
                assert(holds_place(all_places, i));
                let b = choose|b: int| 0 <= b < all_places.len() && all_places[b] == i;
                if b < shown {
                    assert(order[b] == i);
                }
                assert(listed_before(jobs_seq, all_places[a] as int, all_places[b] as int));
            }
            assert(is_listing(jobs_seq, order));
            assert(places_view(places@) =~= order);
        }
        places
    }

    /// The jobs, the highest priority first, then the youngest, up to the limit.
    /// A row among them that cannot be read is an error.
    pub fn list(&self) -> (r: Result<Vec<Job>, StoreError>)
        requires
            self@.wf(),
        ensures
            exists|order: Seq<int>|
                {
                    &&& #[trigger] is_listing(self@.jobs, order)
                    &&& match r {
                        Ok(jobs) => {
                            &&& all_readable(self@.jobs, order)
                            &&& job_views(jobs@) == order.map_values(|i: int| self@.jobs[i].job())
                            &&& forall|k: int|
                                0 <= k < jobs@.len() ==> (#[trigger] jobs@[k])@.valid()
                        },
                        Err(e) => !all_readable(self@.jobs, order) && e
                            == StoreError::UnreadableRow,
                    }
                },
    {
        let places = self.listed_places();
        let ghost order = places_view(places@);
        let ghost rows = self@.jobs;
        let mut jobs: Vec<Job> = Vec::new();
        let mut k: usize = 0;
        while k < places.len()
            invariant
                k <= places@.len(),
                self@.wf(),
                rows == self@.jobs,
                rows.len() == self.jobs@.len(),
                order == places_view(places@),
                is_listing(rows, order),
                jobs@.len() == k,
                forall|a: int|
                    0 <= a < k ==> {
                        &&& rows[#[trigger] order[a]].readable()
                        &&& jobs@[a]@ == rows[order[a]].job()
                        &&& jobs@[a]@.valid()
                    },
            decreases places.len() - k,
        {
            assert(order[k as int] == places@[k as int]);
            let place: usize = places[k];
            assert(rows[place as int] == self.jobs@[place as int]@);
            match read_job(&self.jobs[place]) {
                Some(job) => {
                    jobs.push(job);
                },
                None => {
                    assert(!rows[order[k as int]].readable());
                    return Err(StoreError::UnreadableRow);
                },
            }
            k += 1;
        }
        proof {
            assert forall|a: int| 0 <= a < jobs@.len() implies (#[trigger] jobs@[a])@.valid() by {
                assert(rows[order[a]].readable());
            }
            assert(job_views(jobs@) =~= order.map_values(|i: int| self@.jobs[i].job()));
        }
        Ok(jobs)
    }
}

/// Places as numbers of the model.
spec fn places_view(places: Seq<usize>) -> Seq<int> {
    places.map_values(|place: usize| place as int)
}

/// The number occurs among the places.
spec fn holds_place(places: Seq<usize>, i: int) -> bool {
    exists|a: int| 0 <= a < places.len() && places[a] == i
}

/// Whether a text starts with a prefix in upper or lower case.
fn text_starts_like(text: &str, prefix: &str) -> (yes: bool)
    ensures
        yes == starts_like(text@, prefix@),
{
    let whole = chars_of(text);
    let start = chars_of(prefix);
    if start.len() > whole.len() {
        return false;
    }
    let mut i: usize = 0;
    while i < start.len()
        invariant
            whole@ == text@,
            start@ == prefix@,
            i <= start.len() <= whole.len(),
            forall|j: int| 0 <= j < i ==> lower(#[trigger] text@[j]) == prefix@[j],
        decreases start.len() - i,
    {
        let c = whole[i];
        let low = if c >= 'A' && c <= 'Z' {
            (c as u8 + 32) as char
        } else {
            c
        };
        assert(low == lower(text@[i as int]));
        if low != start[i] {
            return false;
        }
        i += 1;
    }
    true
}

/// The cloud that a source URL belongs to.
pub fn source_cloud(src: &str) -> (cloud: Cloud)
    ensures
        cloud == cloud_of(src@),
{
    if text_starts_like(src, "s3://") {
        Cloud::Aws
    } else if text_starts_like(src, "gs://") {
        Cloud::Gcp
    } else if text_starts_like(src, "az://") {
        Cloud::Azure
    } else {
        Cloud::Local
    }
}

impl JobStore {
    /// Adds the line of a cloud to a cost summary; whether its sum fits.
    fn add_line(&self, cloud: Cloud, lines: &mut Vec<(String, u64)>) -> (fits: bool)
        ensures
            fits == (billed_sum(self@.jobs, cloud) is Some),
            fits ==> lines_view(final(lines)@) == lines_view(old(lines)@) + summary_of(
                self@.jobs,
                cloud,
            ),
    {
        let ghost jobs = self@.jobs;
        let mut sum: i64 = 0;
        let mut any: bool = false;
        let mut i: usize = 0;
        assert(jobs.take(0) =~= Seq::<JobRowView>::empty());
        while i < self.jobs.len()
            invariant
                i <= self.jobs.len(),
                jobs == self@.jobs,
                jobs.len() == self.jobs@.len(),
                lines@ == old(lines)@,
                billed_sum(jobs.take(i as int), cloud) == Some(sum as int),
                any == any_billed(jobs.take(i as int), cloud),
            decreases self.jobs.len() - i,
        {
            let job = &self.jobs[i];
            let ghost upto = jobs.take(i + 1);
            proof {
                assert(jobs[i as int] == job@);
                assert(upto.drop_last() =~= jobs.take(i as int));
                assert(upto.last() == job@);
                if any {
                    let w = choose|w: int|
                        0 <= w < i && billed(#[trigger] jobs.take(i as int)[w], cloud);
                    assert(upto[w] == jobs.take(i as int)[w]);
                    assert(billed(upto[w], cloud));
                } else if any_billed(upto, cloud) {
                    let w = choose|w: int| 0 <= w < upto.len() && billed(#[trigger] upto[w], cloud);
                    if w < i {
                        assert(jobs.take(i as int)[w] == upto[w]);
                    }
                }
            }
            if same_text(job.status.as_str(), "completed") && source_cloud(job.src.as_str())
                == cloud {
                assert(billed(upto[i as int], cloud));
                any = true;
                match sum.checked_add(job.bytes_transferred) {
                    Some(next) => {
                        sum = next;
                    },
                    None => {
                        proof {
                            lemma_sum_stays_lost(jobs, i + 1, cloud);
                        }
                        return false;
                    },
                }
            }
            i += 1;
        }
        assert(jobs.take(i as int) =~= jobs);
        if any {
            let ghost before = lines@;
            lines.push((cloud.name().to_owned(), sum as u64));
            assert(lines_view(lines@) =~= lines_view(before) + summary_of(jobs, cloud));
        } else {
            assert(lines_view(lines@) =~= lines_view(lines@) + summary_of(jobs, cloud));
        }
        true
    }

    /// The bytes that came from each cloud, over all completed jobs.
    pub fn cost_summary(&self) -> (r: Result<Vec<(String, u64)>, StoreError>)
        ensures
            match r {
                Ok(lines) => sums_fit(self@.jobs) && lines_view(lines@) == summary(self@.jobs),
                Err(e) => !sums_fit(self@.jobs) && e == StoreError::SumOverflow,
            },
    {
        let mut lines: Vec<(String, u64)> = Vec::new();
        assert(lines_view(lines@) =~= Seq::empty());
        if self.add_line(Cloud::Aws, &mut lines) && self.add_line(Cloud::Azure, &mut lines)
            && self.add_line(Cloud::Gcp, &mut lines) && self.add_line(Cloud::Local, &mut lines) {
            assert(lines_view(lines@) =~= summary(self@.jobs));
            Ok(lines)
        } else {
            Err(StoreError::SumOverflow)
        }
    }
}

/// A sum that has overflowed on the way stays lost.
proof fn lemma_sum_stays_lost(jobs: Seq<JobRowView>, n: int, cloud: Cloud)
    requires
        0 <= n <= jobs.len(),
        billed_sum(jobs.take(n), cloud) is None,
    ensures
        billed_sum(jobs, cloud) is None,
    decreases jobs.len() - n,
{
    if n == jobs.len() {
        assert(jobs.take(n) =~= jobs);
    } else {
        assert(jobs.take(n + 1).drop_last() =~= jobs.take(n));
        lemma_sum_stays_lost(jobs, n + 1, cloud);
    }
}

impl JobStore {
    /// Inserts the schedule that a request asks for, with a given id and time.
    pub fn create_cron_at(
        &mut self,
        req: &CreateCronRequest,
        next_run_at: Timestamp,
        id: u128,
        now: Timestamp,
    ) -> (r: Result<CronJob, StoreError>)
        requires
            old(self)@.wf(),
            next_run_at.valid(),
            now.valid(),
        ensures
            final(self)@.wf(),
            match r {
                Ok(entry) => {
                    &&& !old(self)@.has_cron(id)
                    &&& entry@ == CronJobView::requested(req@, id, next_run_at, now)
                    &&& final(self)@ == old(self)@.with_new_cron(entry@)
                    &&& final(self)@.cron(id) == Some(entry@)
                },
                Err(e) => {
                    &&& e == StoreError::DuplicateCron
                    &&& old(self)@.has_cron(id)
                    &&& final(self)@ == old(self)@
                },
            },
    {
        let entry = CronJob::requested_at(req, id, next_run_at, now);
        match self.insert_cron(entry.clone()) {
            Ok(_) => Ok(entry),
            Err(e) => Err(e),
        }
    }

    /// Inserts a schedule.
    fn insert_cron(&mut self, entry: CronJob) -> (r: Result<(), StoreError>)
        requires
            old(self)@.wf(),
            entry@.valid(),
        ensures
            final(self)@.wf(),
            match r {
                Ok(_) => {
                    &&& !old(self)@.has_cron(entry.id)
                    &&& final(self)@ == old(self)@.with_new_cron(entry@)
                    &&& final(self)@.cron(entry.id) == Some(entry@)
                },
                Err(e) => {
                    &&& e == StoreError::DuplicateCron
                    &&& old(self)@.has_cron(entry.id)
                    &&& final(self)@ == old(self)@
                },
            },
    {
        if self.find_cron(entry.id).is_some() {
            return Err(StoreError::DuplicateCron);
        }
        let ghost row = entry@;
        self.crons.push(entry);
        proof {
            let before = old(self)@;
            assert(self@.crons =~= before.crons.push(row));
            assert(self@.jobs == before.jobs);
            let n = before.crons.len() as int;
            assert forall|a: int, b: int| 0 <= a < b < self@.crons.len() implies (
            #[trigger] self@.crons[a]).id != (#[trigger] self@.crons[b]).id by {
                assert(self@.crons[a] == before.crons[a]);
                if b == n {
                    if before.crons[a].id == row.id {
                        assert(before.cron_in(row.id, a));
                    }
                } else {
                    assert(self@.crons[b] == before.crons[b]);
                }
            }
            assert(self@.cron_in(row.id, n));
            lemma_cron_place(self@, row.id, n);
        }
        Ok(())
    }

    /// Inserts the schedule that a request asks for, with a fresh id, at the present
    /// time. A fresh id that is already taken is refused.
    pub fn create_cron(&mut self, req: &CreateCronRequest, next_run_at: Timestamp) -> (r: Result<
        CronJob,
        StoreError,
    >)
        requires
            old(self)@.wf(),
            next_run_at.valid(),
        ensures
            final(self)@.wf(),
            match r {
                Ok(entry) => {
                    &&& exists|id: u128, now: Timestamp|
                        #![trigger CronJobView::requested(req@, id, next_run_at, now)]
                        {
                            &&& is_random_id(id) && now.on_clock() && !old(self)@.has_cron(id)
                            &&& entry@ == CronJobView::requested(req@, id, next_run_at, now)
                        }
                    &&& final(self)@ == old(self)@.with_new_cron(entry@)
                },
                Err(e) => {
                    &&& e == StoreError::DuplicateCron
                    &&& exists|id: u128| is_random_id(id) && #[trigger] old(self)@.has_cron(id)
                    &&& final(self)@ == old(self)@
                },
            },
    {
        let id = fresh_id();
        let now = utc_now();
        self.create_cron_at(req, next_run_at, id, now)
    }

    /// Every schedule, in order of creation.
    pub fn list_crons(&self) -> (crons: Vec<CronJob>)
        ensures
            cron_views(crons@) == self@.crons,
    {
        let mut crons: Vec<CronJob> = Vec::new();
        let mut i: usize = 0;
        while i < self.crons.len()
            invariant
                i <= self.crons.len(),
                crons@.len() == i,
                forall|j: int| 0 <= j < i ==> (#[trigger] crons@[j])@ == self.crons@[j]@,
            decreases self.crons.len() - i,
        {
            crons.push(self.crons[i].clone());
            i += 1;
        }
        assert(cron_views(crons@) =~= self@.crons);
        crons
    }

    /// The schedule with the id.
    pub fn get_cron(&self, id: u128) -> (entry: Option<CronJob>)
        requires
            self@.wf(),
        ensures
            match entry {
                Some(entry) => self@.cron(id) == Some(entry@),
                None => self@.cron(id) is None,
            },
    {
        match self.find_cron(id) {
            Some(i) => Some(self.crons[i].clone()),
            None => None,
        }
    }

    /// Deletes the schedule with the id; whether there was one.
    pub fn delete_cron(&mut self, id: u128) -> (done: bool)
        requires
            old(self)@.wf(),
        ensures
            final(self)@.wf(),
            done == old(self)@.has_cron(id),
            final(self)@ == old(self)@.without_cron(id),
            !final(self)@.has_cron(id),
    {
        match self.find_cron(id) {
            None => false,
            Some(i) => {
                self.crons.remove(i);
                proof {
                    let before = old(self)@;
                    let at = i as int;
                    assert(self@ =~= before.without_cron(id));
                    let after = self@.crons;
                    assert forall|a: int| 0 <= a < after.len() implies #[trigger] after[a]
                        == before.crons[if a < at {
                        a
                    } else {
                        a + 1
                    }] by {}
                    assert forall|a: int, b: int| 0 <= a < b < after.len() implies (
                    #[trigger] after[a]).id != (#[trigger] after[b]).id by {}
                    if self@.has_cron(id) {
                        let c = self@.cron_place(id);
                        assert(self@.cron_in(id, c));
                        let d = if c < at {
                            c
                        } else {
                            c + 1
                        };
                        assert(before.crons[d].id == id);
                        assert(before.crons[at].id == id);
                    }
                }
                true
            },
        }
    }

    /// The schedules that are due at a given time.
    pub fn due_crons_at(&self, now: Timestamp) -> (crons: Vec<CronJob>)
        ensures
            cron_views(crons@) == due(self@.crons, now),
    {
        let ghost all = self@.crons;
        let ghost pred = |entry: CronJobView| is_due(entry, now);
        let mut crons: Vec<CronJob> = Vec::new();
        let mut i: usize = 0;
        proof {
            reveal(Seq::filter);
            assert(all.take(0) =~= Seq::<CronJobView>::empty());
            assert(cron_views(crons@) =~= all.take(0).filter(pred));
        }
        while i < self.crons.len()
            invariant
                i <= self.crons.len(),
                all == self@.crons,
                all.len() == self.crons@.len(),
                pred == (|entry: CronJobView| is_due(entry, now)),
                cron_views(crons@) == all.take(i as int).filter(pred),
            decreases self.crons.len() - i,
        {
            let entry = &self.crons[i];
            let ghost so_far = cron_views(crons@);
            proof {
                reveal(Seq::filter);
                assert(all[i as int] == entry@);
                assert(all.take(i + 1).drop_last() =~= all.take(i as int));
                assert(all.take(i + 1).last() == entry@);
            }
            if entry.enabled && entry.next_run_at.is_at_or_before(&now) {
                crons.push(entry.clone());
                assert(cron_views(crons@) =~= so_far.push(entry@));
            }
            i += 1;
        }
        assert(all.take(i as int) =~= all);
        crons
    }

    /// The schedules that are due at the present time.
    pub fn due_crons(&self) -> (crons: Vec<CronJob>)
        ensures
            exists|now: Timestamp|
                now.on_clock() && cron_views(crons@) == #[trigger] due(self@.crons, now),
    {
        let now = utc_now();
        self.due_crons_at(now)
    }

    /// Records the job that a schedule has spawned and its next run.
    pub fn advance_cron(&mut self, id: u128, job_id: u128, next_run_at: Timestamp)
        requires
            old(self)@.wf(),
            next_run_at.valid(),
        ensures
            final(self)@.wf(),
            final(self)@ == old(self)@.after_advance(id, job_id, next_run_at),
    {
        if let Some(i) = self.find_cron(id) {
            let mut entry = self.crons[i].clone();
            entry.last_job_id = Some(job_id);
            entry.next_run_at = next_run_at;
            let ghost row = entry@;
            self.crons.set(i, entry);
            proof {
                lemma_with_cron_wf(old(self)@, id, row);
                assert(self@ =~= old(self)@.with_cron(id, row));
            }
        }
    }
}

impl JobStore {
    /// Makes a store of its rows, unless an id occurs twice among the jobs. No row of a job
    /// is looked into; a row of a schedule that cannot be read is left alone.
    pub fn load(job_rows: Vec<JobRow>, cron_rows: &Vec<CronRow>) -> (r: Option<JobStore>)
        ensures
            match r {
                Some(store) => {
                    &&& distinct_ids(row_views(job_rows@))
                    &&& store@ == stored_in(job_rows@, cron_rows@)
                    &&& store@.wf()
                },
                None => !distinct_ids(row_views(job_rows@)),
            },
    {
        let mut store = JobStore::new();
        let ghost whole = row_views(job_rows@);
        let mut i: usize = 0;
        assert(store@.jobs =~= whole.take(0));
        while i < job_rows.len()
            invariant
                i <= job_rows@.len() == whole.len(),
                whole == row_views(job_rows@),
                store@.wf(),
                store@.jobs == whole.take(i as int),
                store@.crons.len() == 0,
            decreases job_rows.len() - i,
        {
            let row = job_rows[i].clone();
            let ghost before = store@;
            let ghost view = row@;
            assert(view == whole[i as int]);
            if store.insert_row(row).is_err() {
                proof {
                    let k = before.row_place(view.id);
                    assert(before.row_in(view.id, k));
                    assert(before.jobs[k] == whole[k]);
                    assert(whole[k].id == whole[i as int].id);
                }
                return None;
            }
            assert(store@.jobs =~= whole.take(i + 1));
            i += 1;
        }
        assert(store@.jobs =~= whole);
        let mut j: usize = 0;
        assert(cron_rows@.take(0) =~= Seq::<CronRow>::empty());
        assert(store@.crons =~= crons_in(cron_rows@.take(0)));
        while j < cron_rows.len()
            invariant
                j <= cron_rows@.len(),
                store@.wf(),
                store@.jobs == whole,
                store@.crons == crons_in(cron_rows@.take(j as int)),
            decreases cron_rows.len() - j,
        {
            proof {
                assert(cron_rows@.take(j + 1).drop_last() =~= cron_rows@.take(j as int));
                assert(cron_rows@.take(j + 1).last() == cron_rows@[j as int]);
            }
            if let Some(entry) = read_cron(&cron_rows[j]) {
                let ghost before = store@;
                let ghost view = entry@;
                proof {
                    if has_cron_id(before.crons, view.id) {
                        let k = choose|k: int|
                            0 <= k < before.crons.len() && (#[trigger] before.crons[k]).id == view.id;
                        assert(before.cron_in(view.id, k));
                    }
                    if before.has_cron(view.id) {
                        let k = before.cron_place(view.id);
                        assert(before.cron_in(view.id, k));
                        assert(before.crons[k].id == view.id);
                    }
                }
                let _ = store.insert_cron(entry);
                assert(store@.jobs == whole);
            }
            j += 1;
        }
        proof {
            assert(cron_rows@.take(j as int) =~= cron_rows@);
            assert forall|a: int, b: int| 0 <= a < b < whole.len() implies (
            #[trigger] whole[a]).id != (#[trigger] whole[b]).id by {
                assert(store@.jobs[a].id != store@.jobs[b].id);
            }
            assert(store@ =~= stored_in(job_rows@, cron_rows@));
        }
        Some(store)
    }

    /// The rows of the table of jobs.
    pub fn job_rows(&self) -> (rows: Vec<JobRow>)
        ensures
            row_views(rows@) == self@.jobs,
    {
        let mut rows: Vec<JobRow> = Vec::new();
        let mut i: usize = 0;
        while i < self.jobs.len()
            invariant
                i <= self.jobs.len(),
                rows@.len() == i,
                forall|k: int| 0 <= k < i ==> (#[trigger] rows@[k])@ == self.jobs@[k]@,
            decreases self.jobs.len() - i,
        {
            rows.push(self.jobs[i].clone());
            i += 1;
        }
        assert(row_views(rows@) =~= self@.jobs);
        rows
    }

    /// The rows of the table of schedules.
    pub fn cron_rows(&self) -> (rows: Vec<CronRow>)
        requires
            self@.wf(),
        ensures
            rows_hold_crons(rows@, self@.crons),
    {
        let mut rows: Vec<CronRow> = Vec::new();
        let mut i: usize = 0;
        while i < self.crons.len()
            invariant
                i <= self.crons.len(),
                self@.wf(),
                self@.crons.len() == self.crons@.len(),
                rows@.len() == i,
                forall|k: int|
                    #![trigger rows@[k]]
                    #![trigger self@.crons[k]]
                    0 <= k < i ==> rows@[k].holds(self@.crons[k]) && rows@[k].readable()
                        && rows@[k].entry() == self@.crons[k],
            decreases self.crons.len() - i,
        {
            assert(self@.crons[i as int] == self.crons@[i as int]@);
            rows.push(cron_to_row(&self.crons[i]));
            i += 1;
        }
        rows
    }
}

} // verus!
