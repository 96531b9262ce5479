//! What holds of jobs, schedules and their rows.
use vstd::prelude::*;
use crate::double::{Double, Signed};
use crate::ids::{id_chars, id_in};
use crate::job::{
    status_chars, status_in, CreateCronRequest, CreateCronRequestView, CreateJobRequest,
    CreateJobRequestView, CronJob, CronJobView, Job, JobStatus, JobView,
};
use crate::row::{CronRow, JobRow, JobRowView};
use crate::table::StoreView;
use crate::time::{rfc3339, rfc3339_instant, Timestamp};

verus! {

/// A job is what its request asks for, whatever the request holds, and has not started.
pub proof fn jobs_are_as_requested(req: CreateJobRequestView, id: u128, now: Timestamp)
    ensures
        ({
            let job = JobView::requested(req, id, now);
            &&& job.id == id
            &&& job.src == req.src
            &&& job.dst == req.dst
            &&& job.run_after == req.run_after
            &&& job.depends_on == req.depends_on
            &&& job.callback_url == req.callback_url
            &&& req.priority matches Some(p) ==> job.priority == p
            &&& req.priority is None ==> job.priority == 0
            &&& req.max_attempts matches Some(n) ==> job.max_attempts == n
            &&& req.max_attempts is None ==> job.max_attempts == 3
            &&& job.status == JobStatus::Queued
            &&& job.attempt == 0
            &&& job.bytes_transferred == 0
            &&& job.bytes_total is None
            &&& job.peak_throughput_mbps is None
            &&& job.error is None
            &&& job.created_at == now
            &&& job.updated_at == now
            &&& job.started_at is None
            &&& job.completed_at is None
        }),
{
}

/// A schedule is what its request asks for, and is enabled.
pub proof fn schedules_are_as_requested(
    req: CreateCronRequestView,
    id: u128,
    next: Timestamp,
    now: Timestamp,
)
    ensures
        ({
            let entry = CronJobView::requested(req, id, next, now);
            &&& entry.id == id
            &&& entry.src == req.src
            &&& entry.dst == req.dst
            &&& entry.cron == req.cron
            &&& entry.callback_url == req.callback_url
            &&& req.priority matches Some(p) ==> entry.priority == p
            &&& req.priority is None ==> entry.priority == 0
            &&& req.max_attempts matches Some(n) ==> entry.max_attempts == n
            &&& req.max_attempts is None ==> entry.max_attempts == 3
            &&& entry.next_run_at == next
            &&& entry.last_job_id is None
            &&& entry.created_at == now
            &&& entry.enabled
        }),
{
}

/// The job of a tick makes the transfer of its schedule, at once and once.
pub proof fn ticks_make_the_schedules_transfer(entry: CronJobView, id: u128, now: Timestamp)
    ensures
        ({
            let job = JobView::requested(entry.tick_request(), id, now);
            &&& entry.tick_request().cron is None
            &&& job.id == id
            &&& job.src == entry.src
            &&& job.dst == entry.dst
            &&& job.priority == entry.priority
            &&& job.max_attempts == entry.max_attempts
            &&& job.callback_url == entry.callback_url
            &&& job.run_after is None
            &&& job.depends_on is None
            &&& job.status == JobStatus::Queued
            &&& job.created_at == now
        }),
{
}

/// A job that was requested to wait for another does not start before the other has
/// completed, however long it waits.
pub proof fn requested_jobs_wait(
    store: StoreView,
    req: CreateJobRequestView,
    dep: u128,
    id: u128,
    now: Timestamp,
    at: Timestamp,
)
    requires
        req.depends_on == Some(dep),
        forall|k: int|
            0 <= k < store.jobs.len() && (#[trigger] store.jobs[k]).id == id_chars(dep)
                ==> store.jobs[k].status != "completed"@,
    ensures
        !store.with_new_job(JobView::requested(req, id, now)).ready(
            store.jobs.len() as int,
            at,
        ),
{
    let job = JobView::requested(req, id, now);
    let after = store.with_new_job(job);
    let n = store.jobs.len() as int;
    crate::job::status_round_trip(JobStatus::Queued);
    crate::job::status_round_trip(JobStatus::Completed);
    assert(after.jobs[n] == job.row());
    assert(after.jobs[n].depends_on == Some(id_chars(dep)));
    if after.has_row(id_chars(dep)) {
        let p = after.row_place(id_chars(dep));
        assert(after.row_in(id_chars(dep), p));
        if p < n {
            assert(after.jobs[p] == store.jobs[p]);
        }
    }
}

/// The words for the statuses.
pub proof fn words_for_statuses(word: Seq<char>)
    ensures
        status_chars(JobStatus::Queued) == "queued"@,
        status_chars(JobStatus::Waiting) == "waiting"@,
        status_chars(JobStatus::Running) == "running"@,
        status_chars(JobStatus::Completed) == "completed"@,
        status_chars(JobStatus::Retrying) == "retrying"@,
        status_chars(JobStatus::Failed) == "failed"@,
        status_chars(JobStatus::Cancelled) == "cancelled"@,
        status_in(word) != JobStatus::Queued ==> status_chars(status_in(word)) == word,
        (forall|s: JobStatus| #[trigger] status_chars(s) != word) ==> status_in(word)
            == JobStatus::Queued,
{
    assert(status_in(word) != JobStatus::Queued ==> status_chars(status_in(word)) == word);
}

/// Every column of a row holds its part of the job.
pub proof fn rows_hold_jobs(job: JobView)
    ensures
        ({
            let row = job.row();
            &&& row.id == id_chars(job.id)
            &&& row.src == job.src
            &&& row.dst == job.dst
            &&& row.status == status_chars(job.status)
            &&& row.priority == job.priority
            &&& row.attempt == job.attempt
            &&& row.max_attempts == job.max_attempts
            &&& row.callback_url == job.callback_url
            &&& row.error == job.error
            &&& row.created_at == rfc3339(job.created_at.secs, job.created_at.nanos)
            &&& row.updated_at == rfc3339(job.updated_at.secs, job.updated_at.nanos)
            &&& job.depends_on matches Some(dep) ==> row.depends_on == Some(id_chars(dep))
            &&& job.depends_on is None ==> row.depends_on is None
            &&& job.run_after matches Some(t) ==> row.run_after == Some(rfc3339(t.secs, t.nanos))
            &&& job.run_after is None ==> row.run_after is None
            &&& job.started_at matches Some(t) ==> row.started_at == Some(rfc3339(t.secs, t.nanos))
            &&& job.started_at is None ==> row.started_at is None
            &&& job.completed_at matches Some(t) ==> row.completed_at == Some(
                rfc3339(t.secs, t.nanos),
            )
            &&& job.completed_at is None ==> row.completed_at is None
            &&& row.bytes_transferred as u64 == job.bytes_transferred
            &&& job.bytes_total matches Some(n) ==> row.bytes_total matches Some(m) && m as u64
                == n
            &&& job.bytes_total is None ==> row.bytes_total is None
            &&& job.peak_throughput_mbps matches Some(p) ==> (if p.size == Double::Nan {
                row.peak_throughput_mbps is None
            } else {
                row.peak_throughput_mbps == Some(p.bits())
            })
            &&& job.peak_throughput_mbps is None ==> row.peak_throughput_mbps is None
        }),
{
    let done = job.bytes_transferred;
    assert(done as i64 as u64 == done) by (bit_vector);
    if let Some(n) = job.bytes_total {
        assert(n as i64 as u64 == n) by (bit_vector);
    }
}

/// A job that is read from a row holds what the columns hold.
pub proof fn jobs_hold_rows(row: JobRowView)
    ensures
        ({
            let job = row.job();
            &&& id_in(row.id) matches Some(id) ==> job.id == id
            &&& job.src == row.src
            &&& job.dst == row.dst
            &&& job.status == status_in(row.status)
            &&& job.priority == row.priority
            &&& job.attempt == row.attempt as u32
            &&& job.max_attempts == row.max_attempts as u32
            &&& job.callback_url == row.callback_url
            &&& job.error == row.error
            &&& job.bytes_transferred == row.bytes_transferred as u64
            &&& row.bytes_total matches Some(n) ==> job.bytes_total == Some(n as u64)
            &&& row.bytes_total is None ==> job.bytes_total is None
            &&& row.depends_on matches Some(text) ==> job.depends_on == id_in(text)
            &&& row.depends_on is None ==> job.depends_on is None
            &&& rfc3339_instant(row.created_at) matches Some(t) ==> (
            job.created_at.secs, job.created_at.nanos) == t
            &&& rfc3339_instant(row.updated_at) matches Some(t) ==> (
            job.updated_at.secs, job.updated_at.nanos) == t
            &&& reads_time(row.run_after, job.run_after)
            &&& reads_time(row.started_at, job.started_at)
            &&& reads_time(row.completed_at, job.completed_at)
            &&& row.peak_throughput_mbps matches Some(b) ==> job.peak_throughput_mbps == Some(
                Signed::of_bits(b),
            )
            &&& row.peak_throughput_mbps is None ==> job.peak_throughput_mbps is None
        }),
        row.readable() <==> id_in(row.id) is Some && rfc3339_instant(row.created_at) is Some
            && rfc3339_instant(row.updated_at) is Some,
{
}

/// `t` is the instant that a column holds, none where it holds no instant.
pub open spec fn reads_time(column: Option<Seq<char>>, t: Option<Timestamp>) -> bool {
    match (column, t) {
        (Some(text), Some(t)) => rfc3339_instant(text) == Some((t.secs, t.nanos)),
        (Some(text), None) => rfc3339_instant(text) is None,
        (None, t) => t is None,
    }
}

/// The database keeps a job as it is, but for a throughput that is not a number.
pub proof fn jobs_are_kept(job: JobView)
    ensures
        job.stored() == (JobView { peak_throughput_mbps: job.stored().peak_throughput_mbps, ..job }),
        job.stored().peak_throughput_mbps == job.peak_throughput_mbps || (
        job.peak_throughput_mbps matches Some(p) && p.size == Double::Nan
            && job.stored().peak_throughput_mbps is None),
        job.peak_throughput_mbps matches Some(p) && p.size == Double::Nan
            ==> job.stored().peak_throughput_mbps is None,
{
}

/// A schedule that is read from a row holds what the columns hold.
pub proof fn schedules_hold_rows(row: CronRow)
    ensures
        ({
            let entry = row.entry();
            &&& id_in(row.id@) matches Some(id) ==> entry.id == id
            &&& entry.src == row.src@
            &&& entry.dst == row.dst@
            &&& entry.cron == row.cron@
            &&& entry.priority == row.priority
            &&& entry.max_attempts == row.max_attempts as u32
            &&& entry.enabled == row.enabled
            &&& row.callback_url matches Some(url) ==> entry.callback_url == Some(url@)
            &&& row.callback_url is None ==> entry.callback_url is None
            &&& row.last_job_id matches Some(id) ==> entry.last_job_id == id_in(id@)
            &&& row.last_job_id is None ==> entry.last_job_id is None
            &&& rfc3339_instant(row.next_run_at@) matches Some(t) ==> (
            entry.next_run_at.secs, entry.next_run_at.nanos) == t
            &&& rfc3339_instant(row.created_at@) matches Some(t) ==> (
            entry.created_at.secs, entry.created_at.nanos) == t
        }),
        row.readable() ==> rfc3339_instant(row.next_run_at@) is Some && rfc3339_instant(
            row.created_at@,
        ) is Some && id_in(row.id@) is Some,
        id_in(row.id@) matches Some(id) && row.id@ == id_chars(id) && rfc3339_instant(
            row.next_run_at@,
        ) is Some && rfc3339_instant(row.created_at@) is Some ==> row.readable(),
{
}

/// The columns of a row that holds a schedule.
pub proof fn rows_hold_schedules(row: CronRow, entry: CronJobView)
    requires
        row.holds(entry),
    ensures
        row.id@ == id_chars(entry.id),
        row.src@ == entry.src,
        row.dst@ == entry.dst,
        row.cron@ == entry.cron,
        row.priority == entry.priority,
        row.max_attempts == entry.max_attempts,
        row.enabled == entry.enabled,
        row.next_run_at@ == rfc3339(entry.next_run_at.secs, entry.next_run_at.nanos),
        row.created_at@ == rfc3339(entry.created_at.secs, entry.created_at.nanos),
        entry.last_job_id matches Some(id) ==> row.last_job_id matches Some(text) && text@
            == id_chars(id),
        entry.last_job_id is None ==> row.last_job_id is None,
        entry.callback_url matches Some(url) ==> row.callback_url matches Some(text) && text@
            == url,
        entry.callback_url is None ==> row.callback_url is None,
{
}

/// An optional text and its characters.
pub open spec fn shows(text: Option<String>, chars: Option<Seq<char>>) -> bool {
    match (text, chars) {
        (Some(t), Some(c)) => t@ == c,
        (None, None) => true,
        _ => false,
    }
}

/// A request is seen as it is.
pub proof fn requests_are_seen(req: CreateJobRequest, cron: CreateCronRequest)
    ensures
        req@.src == req.src@,
        req@.dst == req.dst@,
        req@.priority == req.priority,
        req@.max_attempts == req.max_attempts,
        req@.run_after == req.run_after,
        req@.depends_on == req.depends_on,
        shows(req.callback_url, req@.callback_url),
        shows(req.cron, req@.cron),
        cron@.src == cron.src@,
        cron@.dst == cron.dst@,
        cron@.cron == cron.cron@,
        cron@.priority == cron.priority,
        cron@.max_attempts == cron.max_attempts,
        shows(cron.callback_url, cron@.callback_url),
{
}

/// A job is seen as it is.
pub proof fn jobs_are_seen(job: Job)
    ensures
        job@.id == job.id,
        job@.src == job.src@,
        job@.dst == job.dst@,
        job@.status == job.status,
        job@.priority == job.priority,
        job@.attempt == job.attempt,
        job@.max_attempts == job.max_attempts,
        job@.run_after == job.run_after,
        job@.depends_on == job.depends_on,
        shows(job.callback_url, job@.callback_url),
        job@.bytes_total == job.bytes_total,
        job@.bytes_transferred == job.bytes_transferred,
        job@.peak_throughput_mbps == job.peak_throughput_mbps,
        shows(job.error, job@.error),
        job@.created_at == job.created_at,
        job@.updated_at == job.updated_at,
        job@.started_at == job.started_at,
        job@.completed_at == job.completed_at,
{
}

/// A schedule is seen as it is.
pub proof fn schedules_are_seen(entry: CronJob)
    ensures
        entry@.id == entry.id,
        entry@.src == entry.src@,
        entry@.dst == entry.dst@,
        entry@.cron == entry.cron@,
        entry@.priority == entry.priority,
        entry@.max_attempts == entry.max_attempts,
        shows(entry.callback_url, entry@.callback_url),
        entry@.next_run_at == entry.next_run_at,
        entry@.last_job_id == entry.last_job_id,
        entry@.created_at == entry.created_at,
        entry@.enabled == entry.enabled,
{
}

/// A row is seen as it is.
pub proof fn rows_are_seen(row: JobRow)
    ensures
        row@.id == row.id@,
        row@.src == row.src@,
        row@.dst == row.dst@,
        row@.status == row.status@,
        row@.priority == row.priority,
        row@.attempt == row.attempt,
        row@.max_attempts == row.max_attempts,
        shows(row.run_after, row@.run_after),
        shows(row.depends_on, row@.depends_on),
        shows(row.callback_url, row@.callback_url),
        row@.bytes_total == row.bytes_total,
        row@.bytes_transferred == row.bytes_transferred,
        row@.peak_throughput_mbps == row.peak_throughput_mbps,
        shows(row.error, row@.error),
        row@.created_at == row.created_at@,
        row@.updated_at == row.updated_at@,
        shows(row.started_at, row@.started_at),
        shows(row.completed_at, row@.completed_at),
{
}

} // verus!
