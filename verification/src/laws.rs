//! What holds of the job store as a whole.
use vstd::prelude::*;
use crate::double::Signed;
use crate::ids::id_chars;
use crate::job::{status_in, status_round_trip, JobStatus, JobView};
use crate::row::{time_chars, CronRow, JobRow, JobRowView};
use crate::store::{lemma_row_place, lemma_with_row_wf};
use crate::table::{
    billed_sum, crons_in, distinct_ids, has_come, has_cron_id, is_listing, listed_before,
    row_views, rows_hold_crons, stored_in, sums_fit, taken_before, Cloud, StoreView,
};
use crate::text::{sorts_before, texts_are_ordered};
use crate::time::Timestamp;

verus! {

proof fn lemma_crons_read_back(store: StoreView, rows: Seq<CronRow>, n: int)
    requires
        store.wf(),
        rows_hold_crons(rows, store.crons),
        0 <= n <= rows.len(),
    ensures
        crons_in(rows.take(n)) == store.crons.take(n),
    decreases n,
{
    if n > 0 {
        lemma_crons_read_back(store, rows, n - 1);
        assert(rows.take(n).drop_last() =~= rows.take(n - 1));
        assert(rows.take(n).last() == rows[n - 1]);
        assert(rows[n - 1].entry() == store.crons[n - 1]);
        let before = store.crons.take(n - 1);
        if has_cron_id(before, store.crons[n - 1].id) {
            let k = choose|k: int|
                0 <= k < before.len() && (#[trigger] before[k]).id == store.crons[n - 1].id;
            assert(store.crons[k].id != store.crons[n - 1].id);
        }
        assert(store.crons.take(n) =~= before.push(store.crons[n - 1]));
    } else {
        assert(rows.take(0) =~= Seq::<CronRow>::empty());
        assert(store.crons.take(0) =~= crons_in(rows.take(0)));
    }
}

/// Writing a store to rows and loading them gives the store back.
pub proof fn rows_round_trip(store: StoreView, job_rows: Seq<JobRow>, cron_rows: Seq<CronRow>)
    requires
        store.wf(),
        row_views(job_rows) == store.jobs,
        rows_hold_crons(cron_rows, store.crons),
    ensures
        distinct_ids(row_views(job_rows)),
        stored_in(job_rows, cron_rows) == store,
{
    let n = cron_rows.len() as int;
    lemma_crons_read_back(store, cron_rows, n);
    assert(cron_rows.take(n) =~= cron_rows);
    assert(store.crons.take(n) =~= store.crons);
    assert(stored_in(job_rows, cron_rows) =~= store);
}

/// There is never more than one job that is next.
pub proof fn next_is_unique(store: StoreView, now: Timestamp, i: int, j: int)
    requires
        store.is_next(i, now),
        store.is_next(j, now),
    ensures
        i == j,
{
    if i != j {
        assert(store.ready(i, now) && store.ready(j, now));
        assert(taken_before(store.jobs, i, j));
        assert(taken_before(store.jobs, j, i));
        texts_are_ordered(store.jobs[i].created_at, store.jobs[j].created_at);
    }
}

/// A claimed job was queued, its time had come, what it depends on had completed, no
/// job that could have started has a higher priority, and none of the same priority
/// was created earlier by its column.
pub proof fn claims_in_order(
    store: StoreView,
    now: Timestamp,
    claimed: JobView,
    after: StoreView,
    other: int,
) -> (i: int)
    requires
        store.claims(now, Ok(Some(claimed)), after),
        store.ready(other, now),
    ensures
        store.ready(i, now),
        claimed == store.jobs[i].claimed(now).job(),
        claimed.status == JobStatus::Running,
        store.jobs[i].run_after matches Some(text) ==> has_come(text, now),
        claimed.run_after matches Some(t) ==> t.at_or_before(now),
        store.jobs[i].depends_on matches Some(dep) ==> (store.row(dep) matches Some(job)
            && job.status == "completed"@),
        store.jobs[other].priority <= claimed.priority,
        store.jobs[other].priority == claimed.priority ==> !sorts_before(
            store.jobs[other].created_at,
            store.jobs[i].created_at,
        ),
{
    let i = choose|i: int|
        #![trigger store.is_next(i, now)]
        {
            &&& store.is_next(i, now) && store.jobs[i].can_be_handed_out(now)
            &&& claimed == store.jobs[i].claimed(now).job()
            &&& after == store.after_claim(i, now)
        };
    status_round_trip(JobStatus::Running);
    texts_are_ordered(store.jobs[i].created_at, store.jobs[other].created_at);
    if i != other {
        assert(taken_before(store.jobs, i, other));
    }
    i
}

/// A job that waits for a job which has not completed is not the one that is claimed.
pub proof fn dependents_wait(store: StoreView, now: Timestamp, i: int, dep: Seq<char>)
    requires
        0 <= i < store.jobs.len(),
        store.jobs[i].depends_on == Some(dep),
        store.row(dep) matches Some(job) ==> job.status != "completed"@,
    ensures
        !store.ready(i, now),
        !store.is_next(i, now),
{
}

/// Once the job that a queued job waits for has completed, the queued job may start as
/// soon as its time has come.
pub proof fn completion_releases_dependents(
    store: StoreView,
    i: int,
    dep: u128,
    peak: Option<Signed>,
    done: Timestamp,
    now: Timestamp,
)
    requires
        store.wf(),
        0 <= i < store.jobs.len(),
        store.jobs[i].id != id_chars(dep),
        store.jobs[i].status == "queued"@,
        store.jobs[i].depends_on == Some(id_chars(dep)),
        store.jobs[i].run_after matches Some(text) ==> has_come(text, now),
        store.has_job(dep),
    ensures
        store.after_completion(dep, peak, done).ready(i, now),
{
    let id = id_chars(dep);
    let place = store.row_place(id);
    assert(store.row_in(id, place));
    let row = store.jobs[place].completed(peak, done);
    lemma_with_row_wf(store, id, row);
    assert(store.after_completion(dep, peak, done).jobs[i] == store.jobs[i]);
}

/// A job whose status is not that of a queued one is not claimed: one that runs, has
/// ended, was cancelled or has a status that nobody knows never starts by itself.
pub proof fn only_queued_jobs_start(store: StoreView, now: Timestamp, i: int)
    requires
        0 <= i < store.jobs.len(),
        store.jobs[i].status != "queued"@,
    ensures
        !store.is_next(i, now),
{
}

proof fn lemma_words_differ()
    ensures
        "running"@ != "queued"@,
        "cancelled"@ != "queued"@,
        "cancelled"@ != "retrying"@,
{
    status_round_trip(JobStatus::Running);
    status_round_trip(JobStatus::Cancelled);
    status_round_trip(JobStatus::Queued);
    status_round_trip(JobStatus::Retrying);
}

/// A claimed job is not claimed again.
pub proof fn claimed_once(store: StoreView, now: Timestamp, later: Timestamp, i: int)
    requires
        store.is_next(i, now),
    ensures
        !store.after_claim(i, now).ready(i, later),
{
    lemma_words_differ();
}

/// A job that was cancelled cannot start, and cannot be cancelled again.
pub proof fn cancelled_stays(store: StoreView, id: u128, now: Timestamp, later: Timestamp)
    requires
        store.wf(),
        store.can_cancel(id),
    ensures
        ({
            let after = store.after_cancel(id, now);
            &&& after.job(id) matches Some(job) && status_in(job.status) == JobStatus::Cancelled
            &&& !after.can_cancel(id)
            &&& !after.ready(after.row_place(id_chars(id)), later)
        }),
{
    let text = id_chars(id);
    let place = store.row_place(text);
    assert(store.row_in(text, place));
    lemma_with_row_wf(store, text, store.jobs[place].cancelled(now));
    lemma_words_differ();
    status_round_trip(JobStatus::Cancelled);
}

/// A job whose status is neither queued nor retrying cannot be cancelled.
pub proof fn started_jobs_cannot_be_cancelled(store: StoreView, id: u128, now: Timestamp)
    requires
        store.job(id) matches Some(job) && job.status != "queued"@ && job.status != "retrying"@,
    ensures
        !store.can_cancel(id),
        store.after_cancel(id, now) == store,
{
}

/// A new row for one job leaves every other job as it was.
pub proof fn other_jobs_stay(
    store: StoreView,
    id: Seq<char>,
    job: JobRowView,
    other: Seq<char>,
)
    requires
        store.wf(),
        store.has_row(id),
        job.id == id,
        other != id,
    ensures
        store.with_row(id, job).row(other) == store.row(other),
        store.with_row(id, job).crons == store.crons,
{
    let place = store.row_place(id);
    assert(store.row_in(id, place));
    let after = store.with_row(id, job);
    lemma_with_row_wf(store, id, job);
    if store.has_row(other) {
        let p = store.row_place(other);
        assert(store.row_in(other, p));
        assert(after.row_in(other, p));
        lemma_row_place(after, other, p);
    } else if after.has_row(other) {
        let q = after.row_place(other);
        assert(after.row_in(other, q));
        assert(store.row_in(other, q));
    }
}

/// An attempt that fails: when the job is claimed, the error, when the failure is
/// recorded, and the instant that the wait counts from.
pub struct FailedAttempt {
    pub claimed: Timestamp,
    pub error: Seq<char>,
    pub now: Timestamp,
    pub base: Timestamp,
}

/// What becomes of a job that is claimed and fails, once for each attempt.
pub open spec fn after_attempts(job: JobRowView, attempts: Seq<FailedAttempt>) -> JobRowView
    decreases attempts.len(),
{
    if attempts.len() == 0 {
        job
    } else {
        let last = attempts.last();
        after_attempts(job, attempts.drop_last()).claimed(last.claimed).after_failure(
            last.error,
            last.now,
            last.base,
        )
    }
}

/// A job whose every attempt fails is queued again after each but the last of its
/// attempts, and has then failed for good; it gets one attempt at least. The wait
/// is 30 seconds after the first, five minutes after the second, and half an hour
/// after every other. The error is that of the last attempt.
pub proof fn retries_are_bounded(job: JobRowView, attempts: Seq<FailedAttempt>)
    requires
        job.attempt == 0,
        1 <= attempts.len(),
        attempts.len() <= job.max_attempts || attempts.len() == 1,
    ensures
        ({
            let after = after_attempts(job, attempts);
            let times = attempts.len();
            let last = attempts.last();
            &&& after.attempt == times
            &&& after.max_attempts == job.max_attempts
            &&& after.error == Some(last.error)
            &&& after.started_at == Some(time_chars(last.claimed))
            &&& after.updated_at == time_chars(last.now)
            &&& times < job.max_attempts ==> {
                &&& after.status == "queued"@
                &&& after.completed_at == job.completed_at
                &&& after.run_after == Some(
                    time_chars(
                        last.base.later_by(
                            if times == 1 {
                                30
                            } else if times == 2 {
                                300
                            } else {
                                1800
                            },
                        ),
                    ),
                )
            }
            &&& times >= job.max_attempts ==> after.status == "failed"@ && after.completed_at
                == Some(time_chars(last.now))
        }),
    decreases attempts.len(),
{
    if attempts.len() > 1 {
        retries_are_bounded(job, attempts.drop_last());
    } else {
        assert(after_attempts(job, attempts.drop_last()) == job);
    }
}

/// A listing is determined by the jobs.
pub proof fn listing_is_unique(jobs: Seq<JobRowView>, one: Seq<int>, other: Seq<int>)
    requires
        is_listing(jobs, one),
        is_listing(jobs, other),
    ensures
        one == other,
{
    assert forall|k: int| 0 <= k < one.len() implies one[k] == other[k] by {
        lemma_same_place(jobs, one, other, k);
    }
    assert(one =~= other);
}

proof fn lemma_same_place(jobs: Seq<JobRowView>, one: Seq<int>, other: Seq<int>, k: int)
    requires
        is_listing(jobs, one),
        is_listing(jobs, other),
        0 <= k < one.len(),
    ensures
        one[k] == other[k],
    decreases k,
{
    assert forall|m: int| 0 <= m < k implies one[m] == other[m] by {
        lemma_same_place(jobs, one, other, m);
    }
    if one[k] != other[k] {
        lemma_not_earlier(jobs, one, other, k);
        lemma_not_earlier(jobs, other, one, k);
        texts_are_ordered(jobs[one[k]].created_at, jobs[other[k]].created_at);
    }
}

/// Where two listings agree up to a place, what the second has there does not come
/// before what the first has.
proof fn lemma_not_earlier(jobs: Seq<JobRowView>, one: Seq<int>, other: Seq<int>, k: int)
    requires
        is_listing(jobs, one),
        is_listing(jobs, other),
        0 <= k < one.len(),
        forall|m: int| 0 <= m < k ==> one[m] == other[m],
        one[k] != other[k],
    ensures
        listed_before(jobs, one[k], other[k]),
{
    let i = other[k];
    if one.contains(i) {
        let m = choose|m: int| 0 <= m < one.len() && one[m] == i;
        if m < k {
            assert(other[m] == i);
            assert(listed_before(jobs, other[m], other[k]));
            texts_are_ordered(jobs[i].created_at, jobs[i].created_at);
        }
        assert(listed_before(jobs, one[k], one[m]));
    } else {
        assert(jobs[i] == jobs[other[k]]);
        assert(listed_before(jobs, one[k], i));
    }
}

/// The signed sum of the bytes of all completed jobs.
pub open spec fn completed_bytes(jobs: Seq<JobRowView>) -> int
    decreases jobs.len(),
{
    if jobs.len() == 0 {
        0
    } else {
        completed_bytes(jobs.drop_last()) + (if jobs.last().status == "completed"@ {
            jobs.last().bytes_transferred as int
        } else {
            0
        })
    }
}

/// The lines of the cost summary add up to the bytes of all completed jobs: every
/// completed job is counted under one cloud.
pub proof fn summary_covers_completed_jobs(jobs: Seq<JobRowView>)
    requires
        sums_fit(jobs),
    ensures
        billed_sum(jobs, Cloud::Aws)->0 + billed_sum(jobs, Cloud::Azure)->0 + billed_sum(
            jobs,
            Cloud::Gcp,
        )->0 + billed_sum(jobs, Cloud::Local)->0 == completed_bytes(jobs),
    decreases jobs.len(),
{
    if jobs.len() > 0 {
        summary_covers_completed_jobs(jobs.drop_last());
    }
}

} // verus!
