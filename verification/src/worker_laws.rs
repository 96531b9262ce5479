//! What holds of the worker, of schedules that are due, and of calls when a job ends.
use vstd::prelude::*;
use crate::double::Signed;
use crate::ids::{id_chars, is_random_id};
use crate::job::{status_round_trip, CronJobView, JobStatus, JobView};
use crate::schedule::{answer, next_found};
use crate::store::lemma_row_place;
use crate::store_laws::{completing_keeps_the_bytes, failures_wait_or_end};
use crate::table::StoreView;
use crate::time::{rfc3339, Timestamp, MAX_SECS};
use crate::worker::{
    after_all, after_run, after_tick, after_ticks, drawn_for, hook_after_run, hook_for,
    moved_on, outcome_chars, queued_by, searched_from, started_by, tick_tells, ticks_tell,
    CronTick, Draw, Webhook, Worker, WorkerEvent, CRON_SECS, POLL_SECS,
};

verus! {

/// How many jobs a worker has got.
pub open spec fn jobs_got(events: Seq<WorkerEvent>) -> nat
    decreases events.len(),
{
    if events.len() == 0 {
        0
    } else {
        jobs_got(events.drop_last()) + (if events.last() matches WorkerEvent::Claimed(Some(_)) {
            1nat
        } else {
            0
        })
    }
}

/// How many jobs of a worker have ended.
pub open spec fn jobs_ended(events: Seq<WorkerEvent>) -> nat
    decreases events.len(),
{
    if events.len() == 0 {
        0
    } else {
        jobs_ended(events.drop_last()) + (if events.last() is Finished {
            1nat
        } else {
            0
        })
    }
}

/// A worker runs as many jobs as it has got and have not ended.
pub proof fn workers_run_what_has_not_ended(worker: Worker, events: Seq<WorkerEvent>)
    requires
        worker.wf(),
        worker.running == 0,
        !worker.claiming,
        crate::worker::all_expected(worker, events),
        forall|n: int|
            0 <= n <= events.len() ==> jobs_ended(#[trigger] events.take(n)) <= jobs_got(
                events.take(n),
            ),
    ensures
        after_all(worker, events).running == jobs_got(events) - jobs_ended(events),
    decreases events.len(),
{
    let n = events.len() as int;
    assert(events.take(n) =~= events);
    if n > 0 {
        let rest = events.drop_last();
        assert(events.take(n - 1) =~= rest);
        assert forall|i: int| 0 <= i < rest.len() implies after_all(
            worker,
            #[trigger] rest.take(i),
        ).expects(rest[i]) by {
            assert(rest.take(i) =~= events.take(i));
        }
        assert forall|i: int| 0 <= i <= rest.len() implies jobs_ended(#[trigger] rest.take(i))
            <= jobs_got(rest.take(i)) by {
            assert(rest.take(i) =~= events.take(i));
        }
        workers_run_what_has_not_ended(worker, rest);
        crate::worker::concurrency_is_bounded(worker, rest);
        assert(after_all(worker, events.take(n - 1)).expects(events[n - 1]));
        assert(jobs_ended(events.take(n)) <= jobs_got(events.take(n)));
    }
}

/// A worker with a free place asks for work at every tick and after every job it got, and
/// no worker asks twice before it is answered.
pub proof fn free_places_are_offered(worker: Worker, event: WorkerEvent)
    requires
        worker.wf(),
        worker.expects(event),
    ensures
        ({
            let after = worker.after(event);
            &&& after.concurrency == worker.concurrency
            &&& event is Tick ==> {
                &&& after.running == worker.running
                &&& after.claiming == (worker.claiming || worker.running < worker.concurrency)
            }
            &&& event matches WorkerEvent::Claimed(Some(_)) ==> {
                &&& after.running == worker.running + 1
                &&& after.claiming == (worker.running + 1 < worker.concurrency)
            }
            &&& event matches WorkerEvent::Claimed(None) ==> after.running == worker.running
                && !after.claiming
            &&& event is ClaimFailed ==> after.running == worker.running && !after.claiming
            &&& event is Finished ==> {
                &&& after.claiming == worker.claiming
                &&& worker.running > 0 ==> after.running == worker.running - 1
            }
            &&& worker.has_room() <==> !worker.claiming && worker.running < worker.concurrency
        }),
        POLL_SECS == 1,
        CRON_SECS == 30,
{
}

/// A search starts where the clock stands, and in the last second of the calendar a second
/// before.
pub proof fn searches_start_now(now: Timestamp)
    ensures
        now.secs < MAX_SECS ==> searched_from(now) == now,
        now.secs == MAX_SECS ==> searched_from(now).secs == MAX_SECS - 1
            && searched_from(now).nanos == now.nanos,
{
}

/// A schedule that is due queues one job, with its own transfer, and moves on to the next
/// run after the instant asked for; where there is none it stays. Where the id is taken,
/// nothing changes.
pub proof fn a_tick_queues_one_job(
    store: StoreView,
    k: int,
    id: u128,
    now: Timestamp,
    asked: Timestamp,
)
    requires
        store.wf(),
        0 <= k < store.crons.len(),
    ensures
        ({
            let entry = store.crons[k];
            let after = after_tick(store, entry, id, now, asked);
            let next = answer(entry.cron, next_found(entry.cron, asked));
            let last = store.jobs.len() as int;
            &&& store.has_job(id) ==> after == store
            &&& !store.has_job(id) ==> {
                &&& after.jobs.len() == last + 1
                &&& after.jobs.take(last) == store.jobs
                &&& after.jobs[last].id == id_chars(id)
                &&& after.jobs[last].src == entry.src
                &&& after.jobs[last].dst == entry.dst
                &&& after.jobs[last].status == "queued"@
                &&& after.jobs[last].priority == entry.priority
                &&& after.jobs[last].max_attempts == entry.max_attempts
                &&& after.jobs[last].callback_url == entry.callback_url
                &&& after.jobs[last].attempt == 0
                &&& after.jobs[last].run_after is None
                &&& after.jobs[last].depends_on is None
                &&& after.jobs[last].created_at == rfc3339(now.secs, now.nanos)
                &&& next matches Ok(t) ==> after.crons[k].next_run_at == t
                    && after.crons[k].last_job_id == Some(id) && after.crons[k].cron == entry.cron
                    && after.crons[k].enabled == entry.enabled
                &&& next is Err ==> after.crons == store.crons
            }
        }),
{
    let entry = store.crons[k];
    let after = after_tick(store, entry, id, now, asked);
    let last = store.jobs.len() as int;
    if !store.has_job(id) {
        let queued = store.with_new_job(JobView::requested(entry.tick_request(), id, now));
        assert(queued.cron_in(entry.id, k));
        let p = queued.cron_place(entry.id);
        assert(queued.cron_in(entry.id, p));
        if p < k {
            assert(store.crons[p].id != store.crons[k].id);
        } else if k < p {
            assert(store.crons[k].id != store.crons[p].id);
        }
        assert(after.jobs.take(last) =~= store.jobs);
    }
}

/// A tick tells which schedule it was, which job it queued, and when the schedule runs next
/// or why it does not.
pub proof fn ticks_tell_what_happened(
    tick: CronTick,
    store: StoreView,
    entry: CronJobView,
    id: u128,
    asked: Timestamp,
)
    requires
        tick_tells(tick, store, entry, id, asked),
    ensures
        tick is NotCreated <==> store.has_job(id),
        tick matches CronTick::NotCreated { cron_id } ==> cron_id == entry.id,
        tick matches CronTick::Advanced { cron_id, job_id, next } ==> cron_id == entry.id && job_id
            == id && answer(entry.cron, next_found(entry.cron, asked)) == Ok::<
            Timestamp,
            Seq<char>,
        >(next),
        tick matches CronTick::NoNext { cron_id, job_id, error } ==> cron_id == entry.id && job_id
            == id && answer(entry.cron, next_found(entry.cron, asked)) == Err::<
            Timestamp,
            Seq<char>,
        >(error@),
{
}

/// The jobs that schedules queue make the transfers of the schedules, and a schedule that
/// moves on keeps all but its last job and its next run.
pub proof fn queued_jobs_are_the_schedules(
    entries: Seq<CronJobView>,
    draws: Seq<Draw>,
    i: int,
)
    requires
        0 <= i < entries.len(),
        entries.len() == draws.len(),
    ensures
        queued_by(entries, draws).len() == entries.len(),
        queued_by(entries, draws)[i].id == id_chars(draws[i].id),
        queued_by(entries, draws)[i].src == entries[i].src,
        queued_by(entries, draws)[i].dst == entries[i].dst,
        queued_by(entries, draws)[i].status == "queued"@,
        queued_by(entries, draws)[i].priority == entries[i].priority,
        queued_by(entries, draws)[i].max_attempts == entries[i].max_attempts,
        queued_by(entries, draws)[i].callback_url == entries[i].callback_url,
        queued_by(entries, draws)[i].run_after is None,
        queued_by(entries, draws)[i].depends_on is None,
        ({
            let moved = moved_on(entries[i], draws[i]);
            let next = answer(entries[i].cron, next_found(entries[i].cron, draws[i].asked));
            &&& next matches Ok(t) ==> moved == (CronJobView {
                next_run_at: t,
                last_job_id: Some(draws[i].id),
                ..entries[i]
            })
            &&& next is Err ==> moved == entries[i]
        }),
{
}

/// A call goes to the URL of its job, and says what the job is, how it ended and why.
/// Without a URL there is no call.
pub proof fn calls_say_how_a_job_ended(
    hook: Option<Webhook>,
    job: JobView,
    event: Seq<char>,
    error: Option<Seq<char>>,
)
    requires
        hook_for(hook, job, event, error),
    ensures
        hook is Some <==> job.callback_url is Some,
        hook matches Some(call) ==> {
            &&& job.callback_url == Some(call.url@)
            &&& call.event@ == event
            &&& call.job_id == job.id
            &&& call.src@ == job.src
            &&& call.dst@ == job.dst
            &&& call.attempt == job.attempt
            &&& error matches Some(text) ==> call.error matches Some(e) && e@ == text
            &&& error is None ==> call.error is None
        },
{
}

/// A transfer that ends well completes its job, and calls if the job has a URL. One that
/// fails queues the job again and calls nobody, or fails it for good.
pub proof fn the_end_of_a_transfer(
    store: StoreView,
    k: int,
    job: JobView,
    outcome: Result<u64, Seq<char>>,
    peak: Option<Signed>,
    now: Timestamp,
    base: Timestamp,
    hook: Option<Webhook>,
)
    requires
        store.wf(),
        0 <= k < store.jobs.len(),
        store.jobs[k].id == id_chars(job.id),
        base.secs <= MAX_SECS - 1800,
    ensures
        ({
            let after = after_run(store, job.id, outcome, peak, now, base);
            let row = after.jobs[k];
            &&& outcome is Ok ==> {
                &&& after == store.after_completion(job.id, peak, now)
                &&& row.status == "completed"@
                &&& row.bytes_transferred == store.jobs[k].bytes_transferred
                &&& row.error is None
                &&& hook_after_run(hook, job, outcome, after) ==> (hook is Some
                    <==> job.callback_url is Some) && (hook matches Some(call) ==> call.event@
                    == "completed"@ && call.error is None)
            }
            &&& outcome matches Err(error) ==> {
                &&& after == store.after_failure(job.id, error, now, base)
                &&& row.error == Some(error)
                &&& store.jobs[k].attempt < store.jobs[k].max_attempts ==> row.status == "queued"@
                    && (hook_after_run(hook, job, outcome, after) ==> hook is None)
                &&& store.jobs[k].attempt >= store.jobs[k].max_attempts ==> row.status == "failed"@
                    && (hook_after_run(hook, job, outcome, after) && row.readable() ==> (hook is Some
                    <==> job.callback_url is Some) && (hook matches Some(call) ==> call.event@
                    == "failed"@ && (call.error matches Some(e) && e@ == error)))
                &&& hook_after_run(hook, job, outcome, after) && !row.readable() ==> hook is None
            }
        }),
{
    status_round_trip(JobStatus::Failed);
    status_round_trip(JobStatus::Queued);
    completing_keeps_the_bytes(store, job.id, k, peak, now);
    if let Err(error) = outcome {
        failures_wait_or_end(store, job.id, k, error, now, base);
        let after = after_run(store, job.id, outcome, peak, now, base);
        let text = id_chars(job.id);
        assert(store.row_in(text, k));
        lemma_row_place(store, text, k);
        crate::store::lemma_with_row_wf(
            store,
            text,
            store.jobs[k].after_failure(error, now, base),
        );
        assert(after.row_in(text, k));
        lemma_row_place(after, text, k);
    }
}

/// Schedules that are due are taken one by one, in order, and each tick tells of its own.
pub proof fn ticks_go_one_by_one(
    store: StoreView,
    entries: Seq<CronJobView>,
    draws: Seq<Draw>,
    ticks: Seq<CronTick>,
    entry: CronJobView,
    i: int,
)
    requires
        0 <= i < entries.len(),
        entries.len() < draws.len(),
    ensures
        after_ticks(store, Seq::empty(), draws) == store,
        ({
            let draw = draws[entries.len() as int];
            after_ticks(store, entries.push(entry), draws) == after_tick(
                after_ticks(store, entries, draws),
                entry,
                draw.id,
                draw.now,
                draw.asked,
            )
        }),
        ticks_tell(ticks, store, entries, draws) ==> {
            &&& ticks.len() == entries.len()
            &&& ticks[i] matches CronTick::Advanced { cron_id, job_id, next } ==> cron_id
                == entries[i].id && job_id == draws[i].id && answer(
                entries[i].cron,
                next_found(entries[i].cron, draws[i].asked),
            ) == Ok::<Timestamp, Seq<char>>(next)
            &&& ticks[i] matches CronTick::NoNext { cron_id, job_id, error } ==> cron_id
                == entries[i].id && job_id == draws[i].id && answer(
                entries[i].cron,
                next_found(entries[i].cron, draws[i].asked),
            ) == Err::<Timestamp, Seq<char>>(error@)
            &&& ticks[i] matches CronTick::NotCreated { cron_id } ==> cron_id == entries[i].id
            &&& ticks[i] is NotCreated <==> after_ticks(store, entries.take(i), draws).has_job(
                draws[i].id,
            )
        },
{
    assert(entries.push(entry).drop_last() =~= entries);
}

/// Every draw is a random id and readings of the clock.
pub proof fn draws_come_from_chance_and_clock(draws: Seq<Draw>, count: nat, i: int)
    requires
        drawn_for(draws, count),
        0 <= i < count,
    ensures
        draws.len() == count,
        is_random_id(draws[i].id),
        0 <= draws[i].now.secs <= MAX_SECS,
        exists|clock: Timestamp|
            clock.on_clock() && draws[i].asked == #[trigger] searched_from(clock),
{
    assert(draws[i].possible());
}

/// How a transfer ended is seen as it is.
pub proof fn ends_are_seen(outcome: Result<u64, String>)
    ensures
        outcome matches Ok(n) ==> outcome_chars(outcome) == Ok::<u64, Seq<char>>(n),
        outcome matches Err(e) ==> outcome_chars(outcome) == Err::<u64, Seq<char>>(e@),
{
}

/// A failure whose retry would start beyond the calendar is not recorded.
pub proof fn retries_beyond_the_calendar(
    store: StoreView,
    id: u128,
    error: Seq<char>,
    peak: Option<Signed>,
    now: Timestamp,
    base: Timestamp,
)
    requires
        store.retry_out_of_range(id, base),
    ensures
        after_run(store, id, Err(error), peak, now, base) == store,
{
}

/// A worker asks for a job just when it begins to wait for one, and starts just the jobs
/// that it got.
pub proof fn workers_start_what_they_get(worker: Worker, event: WorkerEvent)
    requires
        worker.wf(),
        worker.expects(event),
    ensures
        worker.asks(event) <==> worker.after(event).claiming && (!worker.claiming
            || event is Claimed),
        worker.asks(event) ==> worker.after(event).running < worker.concurrency,
        event matches WorkerEvent::Claimed(Some(job)) ==> started_by(event) == Some(job),
        started_by(event) is Some <==> worker.after(event).running > worker.running,
{
}

} // verus!
