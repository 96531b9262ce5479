//! What each operation of the store changes, what it leaves as it is, and which jobs
//! may start.
use vstd::prelude::*;
use crate::double::{Double, Signed};
use crate::ids::{id_chars, id_in};
use crate::job::{status_round_trip, CronJob, CronJobView, Job, JobStatus, JobView};
use crate::laws::completed_bytes;
use crate::row::{CronRow, JobRow, JobRowView};
use crate::store::{lemma_row_place, lemma_with_row_wf};
use crate::table::{
    all_readable, any_billed, billed, billed_sum, claim_view, cloud_of, cron_views, crons_in,
    distinct_ids, due, has_come, has_cron_id, is_due, is_listing, job_views, lines_view,
    listed_before, row_views, rows_hold_crons, stored_in, summary, summary_of, sums_fit,
    taken_before, Cloud, StoreError, StoreView,
};
use crate::text::sorts_before;
use crate::time::{rfc3339, rfc3339_instant, Timestamp, MAX_SECS};

verus! {

/// Nothing but the rows of the job with the given text for its id differs.
pub open spec fn others_stay(before: StoreView, after: StoreView, id: Seq<char>) -> bool {
    &&& after.crons == before.crons
    &&& after.jobs.len() == before.jobs.len()
    &&& forall|k: int|
        0 <= k < before.jobs.len() && before.jobs[k].id != id ==> #[trigger] after.jobs[k]
            == before.jobs[k]
}

proof fn lemma_one_row_changes(store: StoreView, id: Seq<char>, row: JobRowView, k: int)
    requires
        store.wf(),
        store.row_in(id, k),
        row.id == id,
    ensures
        store.row(id) == Some(store.jobs[k]),
        store.with_row(id, row).jobs == store.jobs.update(k, row),
        others_stay(store, store.with_row(id, row), id),
{
    lemma_row_place(store, id, k);
}

/// The column for a throughput: its bits, and nothing for not-a-number.
pub open spec fn holds_peak(column: Option<u64>, peak: Option<Signed>) -> bool {
    match peak {
        Some(p) => if p.size == Double::Nan {
            column is None
        } else {
            column == Some(p.bits())
        },
        None => column is None,
    }
}

/// Completing a job changes its status, throughput, error and times, and nothing else: the
/// bytes of its last report stay.
pub proof fn completing_keeps_the_bytes(
    store: StoreView,
    id: u128,
    k: int,
    peak: Option<Signed>,
    now: Timestamp,
)
    requires
        store.wf(),
        0 <= k < store.jobs.len(),
        store.jobs[k].id == id_chars(id),
    ensures
        ({
            let after = store.after_completion(id, peak, now);
            let (old_row, row) = (store.jobs[k], after.jobs[k]);
            &&& others_stay(store, after, id_chars(id))
            &&& row.status == "completed"@
            &&& row.error is None
            &&& row.completed_at == Some(rfc3339(now.secs, now.nanos))
            &&& row.updated_at == rfc3339(now.secs, now.nanos)
            &&& holds_peak(row.peak_throughput_mbps, peak)
            &&& row.bytes_transferred == old_row.bytes_transferred
            &&& row.bytes_total == old_row.bytes_total
            &&& row.id == old_row.id && row.src == old_row.src && row.dst == old_row.dst
            &&& row.priority == old_row.priority
            &&& row.attempt == old_row.attempt && row.max_attempts == old_row.max_attempts
            &&& row.run_after == old_row.run_after && row.depends_on == old_row.depends_on
            &&& row.callback_url == old_row.callback_url
            &&& row.created_at == old_row.created_at && row.started_at == old_row.started_at
        }),
{
    assert(store.row_in(id_chars(id), k));
    lemma_row_place(store, id_chars(id), k);
    lemma_one_row_changes(store, id_chars(id), store.jobs[k].completed(peak, now), k);
}

/// A report changes the bytes, the throughput and the time of the change, and nothing
/// else.
pub proof fn reports_change_the_progress(
    store: StoreView,
    id: u128,
    k: int,
    bytes: u64,
    total: Option<u64>,
    peak: Option<Signed>,
    now: Timestamp,
)
    requires
        store.wf(),
        0 <= k < store.jobs.len(),
        store.jobs[k].id == id_chars(id),
    ensures
        ({
            let after = store.after_progress(id, bytes, total, peak, now);
            let (old_row, row) = (store.jobs[k], after.jobs[k]);
            &&& others_stay(store, after, id_chars(id))
            &&& row.bytes_transferred as u64 == bytes
            &&& row.bytes_transferred < 0 <==> bytes > i64::MAX
            &&& total matches Some(n) ==> row.bytes_total matches Some(m) && m as u64 == n
            &&& total is None ==> row.bytes_total is None
            &&& holds_peak(row.peak_throughput_mbps, peak)
            &&& row.updated_at == rfc3339(now.secs, now.nanos)
            &&& row == (JobRowView {
                bytes_transferred: row.bytes_transferred,
                bytes_total: row.bytes_total,
                peak_throughput_mbps: row.peak_throughput_mbps,
                updated_at: row.updated_at,
                ..old_row
            })
        }),
{
    assert(store.row_in(id_chars(id), k));
    lemma_row_place(store, id_chars(id), k);
    lemma_one_row_changes(
        store,
        id_chars(id),
        store.jobs[k].progressed(bytes, total, peak, now),
        k,
    );
    assert(bytes as i64 as u64 == bytes) by (bit_vector);
    assert(((bytes as i64) < 0) == (bytes > 0x7fff_ffff_ffff_ffff)) by (bit_vector);
    if let Some(n) = total {
        assert(n as i64 as u64 == n) by (bit_vector);
    }
}

/// A failure with an attempt left queues the job again, to wait 30 seconds after the first
/// attempt, five minutes after the second and half an hour after any other. A failure
/// without one is for good. Nothing else changes.
pub proof fn failures_wait_or_end(
    store: StoreView,
    id: u128,
    k: int,
    error: Seq<char>,
    now: Timestamp,
    base: Timestamp,
)
    requires
        store.wf(),
        0 <= k < store.jobs.len(),
        store.jobs[k].id == id_chars(id),
    ensures
        ({
            let after = store.after_failure(id, error, now, base);
            let (old_row, row) = (store.jobs[k], after.jobs[k]);
            let wait = if old_row.attempt == 1 {
                30int
            } else if old_row.attempt == 2 {
                300
            } else {
                1800
            };
            &&& others_stay(store, after, id_chars(id))
            &&& row.error == Some(error)
            &&& row.updated_at == rfc3339(now.secs, now.nanos)
            &&& if old_row.attempt < old_row.max_attempts {
                &&& row.status == "queued"@
                &&& row.run_after == Some(
                    rfc3339((base.secs + wait) as i64, (base.nanos as int % 1_000_000_000) as u32),
                )
                &&& row == (JobRowView {
                    status: row.status,
                    run_after: row.run_after,
                    error: row.error,
                    updated_at: row.updated_at,
                    ..old_row
                })
            } else {
                &&& row.status == "failed"@
                &&& row.completed_at == Some(rfc3339(now.secs, now.nanos))
                &&& row == (JobRowView {
                    status: row.status,
                    completed_at: row.completed_at,
                    error: row.error,
                    updated_at: row.updated_at,
                    ..old_row
                })
            }
            &&& store.retry_out_of_range(id, base) <==> old_row.attempt < old_row.max_attempts
                && base.secs + wait > MAX_SECS
        }),
{
    assert(store.row_in(id_chars(id), k));
    lemma_row_place(store, id_chars(id), k);
    lemma_one_row_changes(
        store,
        id_chars(id),
        store.jobs[k].after_failure(error, now, base),
        k,
    );
}

/// Claiming a job changes its status, its times and the count of its attempts, and
/// nothing else.
pub proof fn claiming_counts_an_attempt(store: StoreView, i: int, now: Timestamp)
    requires
        0 <= i < store.jobs.len(),
    ensures
        ({
            let after = store.after_claim(i, now);
            let (old_row, row) = (store.jobs[i], after.jobs[i]);
            &&& after.crons == store.crons
            &&& after.jobs.len() == store.jobs.len()
            &&& forall|k: int|
                0 <= k < store.jobs.len() && k != i ==> #[trigger] after.jobs[k] == store.jobs[k]
            &&& row.status == "running"@
            &&& row.started_at == Some(rfc3339(now.secs, now.nanos))
            &&& row.updated_at == rfc3339(now.secs, now.nanos)
            &&& old_row.attempt < i64::MAX ==> row.attempt == old_row.attempt + 1
            &&& old_row.attempt == i64::MAX ==> row.attempt == i64::MAX
            &&& row == (JobRowView {
                status: row.status,
                started_at: row.started_at,
                updated_at: row.updated_at,
                attempt: row.attempt,
                ..old_row
            })
        }),
{
}

/// A job is cancelled if and only if it is queued or retrying. That changes its status and
/// the time of the change, and nothing else.
pub proof fn cancelling_stops_what_waits(store: StoreView, id: u128, k: int, now: Timestamp)
    requires
        store.wf(),
        0 <= k < store.jobs.len(),
        store.jobs[k].id == id_chars(id),
    ensures
        ({
            let after = store.after_cancel(id, now);
            let (old_row, row) = (store.jobs[k], after.jobs[k]);
            &&& store.can_cancel(id) <==> old_row.status == "queued"@ || old_row.status
                == "retrying"@
            &&& !store.can_cancel(id) ==> after == store
            &&& store.can_cancel(id) ==> {
                &&& others_stay(store, after, id_chars(id))
                &&& row.status == "cancelled"@
                &&& row.updated_at == rfc3339(now.secs, now.nanos)
                &&& row == (JobRowView {
                    status: row.status,
                    updated_at: row.updated_at,
                    ..old_row
                })
            }
        }),
{
    assert(store.row_in(id_chars(id), k));
    lemma_row_place(store, id_chars(id), k);
    lemma_one_row_changes(store, id_chars(id), store.jobs[k].cancelled(now), k);
}

/// What is said of a job that is not there changes nothing.
pub proof fn absent_jobs_change_nothing(
    store: StoreView,
    id: u128,
    bytes: u64,
    total: Option<u64>,
    peak: Option<Signed>,
    error: Seq<char>,
    now: Timestamp,
    base: Timestamp,
)
    requires
        forall|k: int| 0 <= k < store.jobs.len() ==> (#[trigger] store.jobs[k]).id != id_chars(id),
    ensures
        !store.has_job(id),
        store.job(id) is None,
        store.after_completion(id, peak, now) == store,
        store.after_progress(id, bytes, total, peak, now) == store,
        store.after_failure(id, error, now, base) == store,
        store.after_cancel(id, now) == store,
        !store.can_cancel(id),
        !store.retry_out_of_range(id, base),
{
    assert forall|k: int| !store.row_in(id_chars(id), k) by {}
}

/// A job is found by the text of its id.
pub proof fn jobs_are_found_by_id(store: StoreView, id: u128, k: int)
    requires
        store.wf(),
        0 <= k < store.jobs.len(),
        store.jobs[k].id == id_chars(id),
    ensures
        store.has_job(id),
        store.job(id) == Some(store.jobs[k]),
{
    assert(store.row_in(id_chars(id), k));
    lemma_row_place(store, id_chars(id), k);
}

/// A new job comes behind all others, and changes none of them.
pub proof fn new_jobs_come_last(store: StoreView, job: JobView)
    ensures
        store.with_new_job(job).jobs == store.jobs + seq![job.row()],
        store.with_new_job(job).crons == store.crons,
{
    assert(store.with_new_job(job).jobs =~= store.jobs + seq![job.row()]);
}

/// A new schedule comes behind all others, a schedule that is deleted leaves only itself,
/// and one that moves on keeps all but its last job and its next run.
pub proof fn schedules_come_and_go(
    store: StoreView,
    entry: CronJobView,
    k: int,
    job_id: u128,
    next: Timestamp,
)
    requires
        store.wf(),
        0 <= k < store.crons.len(),
    ensures
        store.with_new_cron(entry).crons == store.crons + seq![entry],
        store.with_new_cron(entry).jobs == store.jobs,
        store.without_cron(store.crons[k].id).crons == store.crons.take(k) + store.crons.skip(
            k + 1,
        ),
        store.without_cron(store.crons[k].id).jobs == store.jobs,
        store.cron(store.crons[k].id) == Some(store.crons[k]),
        ({
            let after = store.after_advance(store.crons[k].id, job_id, next);
            &&& after.jobs == store.jobs
            &&& after.crons.len() == store.crons.len()
            &&& after.crons[k].last_job_id == Some(job_id)
            &&& after.crons[k].next_run_at == next
            &&& after.crons[k] == (CronJobView {
                last_job_id: after.crons[k].last_job_id,
                next_run_at: after.crons[k].next_run_at,
                ..store.crons[k]
            })
            &&& forall|m: int|
                0 <= m < store.crons.len() && m != k ==> #[trigger] after.crons[m]
                    == store.crons[m]
        }),
{
    let id = store.crons[k].id;
    assert(store.cron_in(id, k));
    let p = store.cron_place(id);
    assert(store.cron_in(id, p));
    if p < k {
        assert(store.crons[p].id != store.crons[k].id);
    } else if k < p {
        assert(store.crons[k].id != store.crons[p].id);
    }
    assert(store.with_new_cron(entry).crons =~= store.crons + seq![entry]);
    assert(store.without_cron(id).crons =~= store.crons.take(k) + store.crons.skip(k + 1));
}

/// A schedule that is not there is neither deleted nor moved.
pub proof fn absent_schedules_change_nothing(
    store: StoreView,
    id: u128,
    job_id: u128,
    next: Timestamp,
)
    requires
        forall|k: int| 0 <= k < store.crons.len() ==> (#[trigger] store.crons[k]).id != id,
    ensures
        !store.has_cron(id),
        store.cron(id) is None,
        store.without_cron(id) == store,
        store.after_advance(id, job_id, next) == store,
{
    assert forall|k: int| !store.cron_in(id, k) by {}
}

/// A time that a column holds has come at every instant that is not before it, and at no
/// other. It has come once and for all.
pub proof fn times_come_and_stay(
    text: Seq<char>,
    secs: i64,
    nanos: u32,
    now: Timestamp,
    later: Timestamp,
)
    ensures
        rfc3339_instant(text) == Some((secs, nanos)) ==> {
            &&& has_come(text, now) <==> secs < now.secs || (secs == now.secs && nanos <= now.nanos)
            &&& has_come(text, now) && now.at_or_before(later) ==> has_come(text, later)
        },
        rfc3339_instant(text) is None ==> (has_come(text, now) <==> !sorts_before(
            rfc3339(now.secs, now.nanos),
            text,
        )),
{
}

/// A queued job without a dependency, or whose dependency has completed, may start at
/// every instant from the time that it waits for on.
pub proof fn queued_jobs_may_start(store: StoreView, i: int, d: int, now: Timestamp)
    requires
        store.wf(),
        0 <= i < store.jobs.len(),
        store.jobs[i].status == "queued"@,
        store.jobs[i].depends_on matches Some(dep) ==> 0 <= d < store.jobs.len()
            && store.jobs[d].id == dep && store.jobs[d].status == "completed"@,
    ensures
        store.jobs[i].run_after is None ==> store.ready(i, now),
        store.jobs[i].run_after matches Some(text) ==> (rfc3339_instant(text) matches Some(t) ==> (
        store.ready(i, now) <==> t.0 < now.secs || (t.0 == now.secs && t.1 <= now.nanos))),
        store.jobs[i].run_after matches Some(text) ==> (rfc3339_instant(text) is None ==> (
        store.ready(i, now) <==> !sorts_before(rfc3339(now.secs, now.nanos), text))),
{
    if let Some(dep) = store.jobs[i].depends_on {
        assert(store.row_in(dep, d));
        lemma_row_place(store, dep, d);
    }
}

/// Whoever may start is there, is queued, and depends on nothing or on a job that has
/// completed.
pub proof fn only_released_jobs_may_start(store: StoreView, i: int, now: Timestamp) -> (d: int)
    requires
        store.ready(i, now),
    ensures
        0 <= i < store.jobs.len(),
        store.jobs[i].status == "queued"@,
        store.jobs[i].depends_on matches Some(dep) ==> 0 <= d < store.jobs.len()
            && store.jobs[d].id == dep && store.jobs[d].status == "completed"@,
        store.jobs[i].run_after matches Some(text) ==> (rfc3339_instant(text) matches Some(t)
            ==> t.0 < now.secs || (t.0 == now.secs && t.1 <= now.nanos)),
{
    match store.jobs[i].depends_on {
        Some(dep) => {
            let d = store.row_place(dep);
            assert(store.row_in(dep, d));
            d
        },
        None => 0,
    }
}

/// A queued job that may start goes on to be one that may start as time passes.
pub proof fn readiness_stays(store: StoreView, i: int, now: Timestamp, later: Timestamp)
    requires
        store.ready(i, now),
        now.at_or_before(later),
    ensures
        store.jobs[i].run_after is None ==> store.ready(i, later),
        store.jobs[i].run_after matches Some(text) ==> (rfc3339_instant(text) is Some
            ==> store.ready(i, later)),
{
}

/// While a job may start, a worker that asks gets one, or an error for a job that cannot
/// be read; never nothing. Where no job may start, it gets nothing and nothing changes.
pub proof fn work_is_handed_out(
    store: StoreView,
    now: Timestamp,
    claimed: Result<Option<JobView>, StoreError>,
    after: StoreView,
    i: int,
)
    requires
        store.claims(now, claimed, after),
    ensures
        store.ready(i, now) ==> claimed != Ok::<Option<JobView>, StoreError>(None) && after != store,
        store.ready(i, now) && (forall|k: int|
            0 <= k < store.jobs.len() ==> (#[trigger] store.jobs[k]).attempt < i64::MAX
                && id_in(store.jobs[k].id) is Some && rfc3339_instant(store.jobs[k].created_at)
                is Some) && rfc3339_instant(rfc3339(now.secs, now.nanos)) is Some
            ==> (claimed matches Ok(Some(job)) && job.priority >= store.jobs[i].priority),
        (forall|k: int| !#[trigger] store.ready(k, now)) ==> claimed == Ok::<
            Option<JobView>,
            StoreError,
        >(None) && after == store,
{
    status_round_trip(JobStatus::Running);
    status_round_trip(JobStatus::Queued);
    if !store.idle(now) {
        let j = choose|j: int|
            #![trigger store.is_next(j, now)]
            store.is_next(j, now) && after == store.after_claim(j, now);
        assert(after.jobs[j].status == "running"@);
        assert(store.jobs[j].status == "queued"@);
        if store.ready(i, now) && i != j {
            assert(taken_before(store.jobs, j, i));
        }
    }
}

/// What a worker gets is what the store then holds of the job, and of jobs alike it is the
/// one that came first.
pub proof fn claimed_jobs_are_in_the_store(
    store: StoreView,
    now: Timestamp,
    claimed: JobView,
    after: StoreView,
) -> (i: int)
    requires
        store.claims(now, Ok(Some(claimed)), after),
    ensures
        0 <= i < after.jobs.len() == store.jobs.len(),
        claimed == after.jobs[i].job(),
        claimed.src == store.jobs[i].src,
        claimed.dst == store.jobs[i].dst,
        claimed.status == JobStatus::Running,
        store.jobs[i].status == "queued"@,
        after.jobs[i].status == "running"@,
        after.jobs[i].attempt == store.jobs[i].attempt + 1,
        forall|k: int| #[trigger]
            store.ready(k, now) && store.jobs[k].priority == store.jobs[i].priority
                && store.jobs[k].created_at == store.jobs[i].created_at ==> i <= k,
{
    status_round_trip(JobStatus::Running);
    let i = choose|i: int|
        #![trigger store.is_next(i, now)]
        {
            &&& store.is_next(i, now) && store.jobs[i].can_be_handed_out(now)
            &&& claimed == store.jobs[i].claimed(now).job()
            &&& after == store.after_claim(i, now)
        };
    crate::text::texts_are_ordered(store.jobs[i].created_at, store.jobs[i].created_at);
    i
}

/// Of two jobs, the one with the higher priority is taken and listed first. Of two with
/// the same priority, the one that was created first is taken first and listed last. Of two
/// alike, the one that came first.
pub proof fn priority_decides(jobs: Seq<JobRowView>, i: int, j: int)
    ensures
        jobs[i].priority > jobs[j].priority ==> {
            &&& taken_before(jobs, i, j) && !taken_before(jobs, j, i)
            &&& listed_before(jobs, i, j) && !listed_before(jobs, j, i)
        },
        jobs[i].priority == jobs[j].priority && sorts_before(jobs[i].created_at, jobs[j].created_at)
            ==> {
            &&& taken_before(jobs, i, j) && !taken_before(jobs, j, i)
            &&& listed_before(jobs, j, i) && !listed_before(jobs, i, j)
        },
        jobs[i].priority == jobs[j].priority && jobs[i].created_at == jobs[j].created_at && i < j
            ==> {
            &&& taken_before(jobs, i, j) && !taken_before(jobs, j, i)
            &&& listed_before(jobs, i, j) && !listed_before(jobs, j, i)
        },
{
    crate::text::texts_are_ordered(jobs[i].created_at, jobs[j].created_at);
}

/// A listing shows every job where there are no more than 200, and else 200. None is shown
/// twice, and none with a higher priority, or created later with the same, comes behind or is
/// left out for another.
pub proof fn listings_show_the_first(jobs: Seq<JobRowView>, order: Seq<int>)
    requires
        is_listing(jobs, order),
    ensures
        jobs.len() <= 200 ==> order.len() == jobs.len(),
        jobs.len() > 200 ==> order.len() == 200,
        forall|a: int, b: int| 0 <= a < b < order.len() ==> order[a] != order[b],
        forall|a: int, b: int|
            0 <= a < b < order.len() ==> jobs[#[trigger] order[a]].priority >= jobs[
            #[trigger] order[b]].priority,
        forall|a: int, b: int|
            0 <= a < b < order.len() && jobs[#[trigger] order[a]].priority
                == jobs[#[trigger] order[b]].priority ==> !sorts_before(
                jobs[order[a]].created_at,
                jobs[order[b]].created_at,
            ),
        forall|i: int, a: int|
            #![trigger jobs[i], order[a]]
            0 <= i < jobs.len() && 0 <= a < order.len() && !order.contains(i) ==> {
                &&& jobs[order[a]].priority >= jobs[i].priority
                &&& jobs[order[a]].priority == jobs[i].priority ==> !sorts_before(
                    jobs[order[a]].created_at,
                    jobs[i].created_at,
                )
            },
        all_readable(jobs, order) <==> forall|a: int|
            0 <= a < order.len() ==> id_in(jobs[#[trigger] order[a]].id) is Some
                && rfc3339_instant(jobs[order[a]].created_at) is Some && rfc3339_instant(
                jobs[order[a]].updated_at,
            ) is Some,
{
    assert forall|a: int, b: int| 0 <= a < b < order.len() implies order[a] != order[b] by {
        assert(listed_before(jobs, order[a], order[b]));
        crate::text::texts_are_ordered(jobs[order[a]].created_at, jobs[order[a]].created_at);
    }
    assert forall|a: int, b: int|
        0 <= a < b < order.len() && jobs[#[trigger] order[a]].priority
            == jobs[#[trigger] order[b]].priority implies !sorts_before(
        jobs[order[a]].created_at,
        jobs[order[b]].created_at,
    ) by {
        assert(listed_before(jobs, order[a], order[b]));
        crate::text::texts_are_ordered(jobs[order[a]].created_at, jobs[order[b]].created_at);
    }
    assert forall|i: int, a: int|
        #![trigger jobs[i], order[a]]
        0 <= i < jobs.len() && 0 <= a < order.len() && !order.contains(i) implies {
        &&& jobs[order[a]].priority >= jobs[i].priority
        &&& jobs[order[a]].priority == jobs[i].priority ==> !sorts_before(
            jobs[order[a]].created_at,
            jobs[i].created_at,
        )
    } by {
        assert(listed_before(jobs, order[a], i));
        crate::text::texts_are_ordered(jobs[order[a]].created_at, jobs[i].created_at);
    }
    if all_readable(jobs, order) {
        assert forall|a: int| 0 <= a < order.len() implies id_in(jobs[#[trigger] order[a]].id)
            is Some && rfc3339_instant(jobs[order[a]].created_at) is Some && rfc3339_instant(
            jobs[order[a]].updated_at,
        ) is Some by {
            assert(jobs[order[a]].readable());
        }
    }
}

/// A schedule is due if and only if it is enabled and its next run is not in the future,
/// and those that are due keep their order.
pub proof fn due_schedules(a: Seq<CronJobView>, b: Seq<CronJobView>, e: CronJobView, now: Timestamp)
    ensures
        due(a + b, now) == due(a, now) + due(b, now),
        due(Seq::empty(), now) == Seq::<CronJobView>::empty(),
        e.enabled && (e.next_run_at.secs < now.secs || (e.next_run_at.secs == now.secs
            && e.next_run_at.nanos <= now.nanos)) ==> due(seq![e], now) == seq![e],
        !e.enabled || e.next_run_at.secs > now.secs || (e.next_run_at.secs == now.secs
            && e.next_run_at.nanos > now.nanos) ==> due(seq![e], now) == Seq::<CronJobView>::empty(),
{
    let wanted = |entry: CronJobView| is_due(entry, now);
    Seq::filter_distributes_over_add(a, b, wanted);
    assert(due(a + b, now) =~= due(a, now) + due(b, now));
    reveal_with_fuel(Seq::filter, 2);
    assert(seq![e].drop_last() =~= Seq::<CronJobView>::empty());
    assert(due(seq![e], now) =~= (if is_due(e, now) {
        seq![e]
    } else {
        Seq::empty()
    }));
}

/// The text starts with the given characters, letters in upper or lower case.
pub open spec fn starts_scheme(
    src: Seq<char>,
    lower: char,
    upper: char,
    second: char,
    other: char,
) -> bool {
    &&& src.len() >= 5
    &&& src[0] == lower || src[0] == upper
    &&& src[1] == second || src[1] == other
    &&& src[2] == ':' && src[3] == '/' && src[4] == '/'
}

/// A source belongs to a cloud if and only if it starts with the cloud's scheme, in upper
/// or lower case.
pub proof fn clouds_by_scheme(src: Seq<char>)
    ensures
        cloud_of(src) == Cloud::Aws <==> starts_scheme(src, 's', 'S', '3', '3'),
        cloud_of(src) == Cloud::Gcp <==> starts_scheme(src, 'g', 'G', 's', 'S'),
        cloud_of(src) == Cloud::Azure <==> starts_scheme(src, 'a', 'A', 'z', 'Z'),
        Cloud::Aws.label() == "aws"@,
        Cloud::Azure.label() == "azure"@,
        Cloud::Gcp.label() == "gcp"@,
        Cloud::Local.label() == "local"@,
{
    reveal_strlit("s3://");
    reveal_strlit("gs://");
    reveal_strlit("az://");
    lemma_starts_like(src, 's', '3');
    lemma_starts_like(src, 'g', 's');
    lemma_starts_like(src, 'a', 'z');
    assert("s3://"@ =~= seq!['s', '3', ':', '/', '/']);
    assert("gs://"@ =~= seq!['g', 's', ':', '/', '/']);
    assert("az://"@ =~= seq!['a', 'z', ':', '/', '/']);
}

proof fn lemma_starts_like(src: Seq<char>, x: char, y: char)
    requires
        'a' <= x <= 'z',
        'a' <= y <= 'z' || y == '3',
    ensures
        crate::table::starts_like(src, seq![x, y, ':', '/', '/']) <==> {
            &&& src.len() >= 5
            &&& src[0] == x || src[0] as int == x as int - 32
            &&& src[1] == y || (y != '3' && src[1] as int == y as int - 32)
            &&& src[2] == ':' && src[3] == '/' && src[4] == '/'
        },
{
    let p = seq![x, y, ':', '/', '/'];
    assert(p[0] == x && p[1] == y && p[2] == ':' && p[3] == '/' && p[4] == '/');
    if crate::table::starts_like(src, p) {
        assert(crate::table::lower(src[0]) == p[0]);
        assert(crate::table::lower(src[1]) == p[1]);
        assert(crate::table::lower(src[2]) == p[2]);
        assert(crate::table::lower(src[3]) == p[3]);
        assert(crate::table::lower(src[4]) == p[4]);
    }
}

/// One more job adds its bytes to the sum of its cloud if it has completed, and changes no
/// other sum. Without a job every sum is zero.
pub proof fn completed_jobs_are_billed(jobs: Seq<JobRowView>, row: JobRowView, cloud: Cloud)
    ensures
        billed_sum(Seq::empty(), cloud) == Some(0int),
        billed_sum(jobs, cloud) matches Some(sum) ==> {
            let next = sum + row.bytes_transferred;
            if row.status == "completed"@ && cloud_of(row.src) == cloud {
                billed_sum(jobs.push(row), cloud) == (if -0x8000_0000_0000_0000 <= next
                    <= 0x7fff_ffff_ffff_ffff {
                    Some(next)
                } else {
                    None
                })
            } else {
                billed_sum(jobs.push(row), cloud) == Some(sum)
            }
        },
        any_billed(jobs, cloud) <==> exists|i: int|
            0 <= i < jobs.len() && (#[trigger] jobs[i]).status == "completed"@ && cloud_of(
                jobs[i].src,
            ) == cloud,
{
    assert(jobs.push(row).drop_last() =~= jobs);
    if any_billed(jobs, cloud) {
        let i = choose|i: int| 0 <= i < jobs.len() && billed(#[trigger] jobs[i], cloud);
        assert(jobs[i].status == "completed"@);
    }
    if exists|i: int|
        0 <= i < jobs.len() && (#[trigger] jobs[i]).status == "completed"@ && cloud_of(jobs[i].src)
            == cloud {
        let i = choose|i: int|
            0 <= i < jobs.len() && (#[trigger] jobs[i]).status == "completed"@ && cloud_of(
                jobs[i].src,
            ) == cloud;
        assert(billed(jobs[i], cloud));
    }
}

/// The cost summary has a line for a cloud if and only if a job from it has completed; the
/// line names the cloud and its sum. The lines go by name, and there are no others.
pub proof fn the_summary_has_a_line_for_each_cloud(jobs: Seq<JobRowView>, cloud: Cloud)
    requires
        sums_fit(jobs),
    ensures
        !any_billed(jobs, cloud) ==> summary_of(jobs, cloud).len() == 0,
        any_billed(jobs, cloud) ==> {
            &&& summary_of(jobs, cloud).len() == 1
            &&& summary_of(jobs, cloud)[0].0 == cloud.label()
            &&& billed_sum(jobs, cloud)->0 >= 0 ==> summary_of(jobs, cloud)[0].1 == billed_sum(
                jobs,
                cloud,
            )->0
        },
        summary(jobs) == summary_of(jobs, Cloud::Aws) + summary_of(jobs, Cloud::Azure) + summary_of(
            jobs,
            Cloud::Gcp,
        ) + summary_of(jobs, Cloud::Local),
        billed_sum(jobs, cloud) is Some,
{
    lemma_sum_range(jobs, cloud);
}

proof fn lemma_sum_range(jobs: Seq<JobRowView>, cloud: Cloud)
    ensures
        billed_sum(jobs, cloud) matches Some(sum) ==> i64::MIN <= sum <= i64::MAX,
    decreases jobs.len(),
{
    if jobs.len() > 0 {
        lemma_sum_range(jobs.drop_last(), cloud);
    }
}

proof fn lemma_completed_bytes_update(jobs: Seq<JobRowView>, k: int, row: JobRowView)
    requires
        0 <= k < jobs.len(),
    ensures
        completed_bytes(jobs.update(k, row)) == completed_bytes(jobs) - (if jobs[k].status
            == "completed"@ {
            jobs[k].bytes_transferred as int
        } else {
            0
        }) + (if row.status == "completed"@ {
            row.bytes_transferred as int
        } else {
            0
        }),
    decreases jobs.len(),
{
    let after = jobs.update(k, row);
    if k == jobs.len() - 1 {
        assert(after.drop_last() =~= jobs.drop_last());
    } else {
        assert(after.drop_last() =~= jobs.drop_last().update(k, row));
        lemma_completed_bytes_update(jobs.drop_last(), k, row);
        assert(after.last() == jobs.last());
    }
}

/// When a job completes after a report, the bytes of that report are added to those of the
/// completed jobs.
pub proof fn completion_bills_the_last_report(
    store: StoreView,
    id: u128,
    k: int,
    bytes: u64,
    total: Option<u64>,
    peak: Option<Signed>,
    reported: Timestamp,
    now: Timestamp,
)
    requires
        store.wf(),
        0 <= k < store.jobs.len(),
        store.jobs[k].id == id_chars(id),
        store.jobs[k].status != "completed"@,
        bytes <= i64::MAX,
    ensures
        completed_bytes(
            store.after_progress(id, bytes, total, peak, reported).after_completion(
                id,
                peak,
                now,
            ).jobs,
        ) == completed_bytes(store.jobs) + bytes,
{
    let text = id_chars(id);
    assert(store.row_in(text, k));
    lemma_row_place(store, text, k);
    let row = store.jobs[k].progressed(bytes, total, peak, reported);
    lemma_one_row_changes(store, text, row, k);
    lemma_with_row_wf(store, text, row);
    let mid = store.after_progress(id, bytes, total, peak, reported);
    assert(mid.row_in(text, k));
    lemma_one_row_changes(mid, text, row.completed(peak, now), k);
    lemma_row_place(mid, text, k);
    lemma_completed_bytes_update(store.jobs, k, row);
    lemma_completed_bytes_update(mid.jobs, k, row.completed(peak, now));
}

/// Loading keeps every job row, in order, and every schedule row that can be read and whose
/// id no row before it has.
pub proof fn loading_keeps_the_rows(job_rows: Seq<JobRow>, cron_rows: Seq<CronRow>, row: CronRow)
    ensures
        stored_in(job_rows, cron_rows).jobs.len() == job_rows.len(),
        forall|i: int|
            0 <= i < job_rows.len() ==> #[trigger] stored_in(job_rows, cron_rows).jobs[i]
                == job_rows[i]@,
        stored_in(job_rows, cron_rows).crons == crons_in(cron_rows),
        crons_in(Seq::empty()) == Seq::<CronJobView>::empty(),
        !row.readable() ==> crons_in(cron_rows.push(row)) == crons_in(cron_rows),
        row.readable() && has_cron_id(crons_in(cron_rows), row.entry().id) ==> crons_in(
            cron_rows.push(row),
        ) == crons_in(cron_rows),
        row.readable() && !has_cron_id(crons_in(cron_rows), row.entry().id) ==> crons_in(
            cron_rows.push(row),
        ) == crons_in(cron_rows).push(row.entry()),
{
    assert(cron_rows.push(row).drop_last() =~= cron_rows);
}

/// Jobs, rows, schedules and lines are seen one by one, and a claim as what it brought.
pub proof fn lists_are_seen(
    jobs: Seq<Job>,
    rows: Seq<JobRow>,
    crons: Seq<CronJob>,
    lines: Seq<(String, u64)>,
    claimed: Result<Option<Job>, StoreError>,
    i: int,
)
    ensures
        job_views(jobs).len() == jobs.len(),
        0 <= i < jobs.len() ==> job_views(jobs)[i] == jobs[i]@,
        row_views(rows).len() == rows.len(),
        0 <= i < rows.len() ==> row_views(rows)[i] == rows[i]@,
        cron_views(crons).len() == crons.len(),
        0 <= i < crons.len() ==> cron_views(crons)[i] == crons[i]@,
        lines_view(lines).len() == lines.len(),
        0 <= i < lines.len() ==> lines_view(lines)[i] == (lines[i].0@, lines[i].1),
        claimed matches Ok(Some(job)) ==> claim_view(claimed) == Ok::<Option<JobView>, StoreError>(
            Some(job@),
        ),
        claimed matches Ok(None) ==> claim_view(claimed) == Ok::<Option<JobView>, StoreError>(None),
        claimed matches Err(e) ==> claim_view(claimed) == Err::<Option<JobView>, StoreError>(e),
{
}

/// The sums fit if and only if each of them does.
pub proof fn sums_fit_together(jobs: Seq<JobRowView>)
    ensures
        sums_fit(jobs) <==> billed_sum(jobs, Cloud::Aws) is Some && billed_sum(jobs, Cloud::Azure)
            is Some && billed_sum(jobs, Cloud::Gcp) is Some && billed_sum(jobs, Cloud::Local)
            is Some,
{
}

/// Rows are refused only where two have the same text for their id, and a schedule counts
/// as there if and only if its id is.
pub proof fn only_equal_ids_are_refused(rows: Seq<JobRowView>, crons: Seq<CronJobView>, id: u128)
    ensures
        distinct_ids(rows) <==> forall|i: int, j: int|
            0 <= i < rows.len() && 0 <= j < rows.len() && i != j ==> (#[trigger] rows[i]).id != (
            #[trigger] rows[j]).id,
        has_cron_id(crons, id) <==> exists|i: int|
            0 <= i < crons.len() && (#[trigger] crons[i]).id == id,
{
    if distinct_ids(rows) {
        assert forall|i: int, j: int|
            0 <= i < rows.len() && 0 <= j < rows.len() && i != j implies (#[trigger] rows[i]).id != (
        #[trigger] rows[j]).id by {
            if i < j {
                assert(rows[i].id != rows[j].id);
            } else {
                assert(rows[j].id != rows[i].id);
            }
        }
    }
}

/// Rows that hold schedules hold each in its place, and read back as it.
pub proof fn schedule_rows_hold_each(rows: Seq<CronRow>, crons: Seq<CronJobView>, i: int)
    requires
        rows_hold_crons(rows, crons),
        0 <= i < crons.len(),
    ensures
        rows.len() == crons.len(),
        rows[i].holds(crons[i]),
        rows[i].entry() == crons[i],
{
}

} // verus!
