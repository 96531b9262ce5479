//! The background worker: when it asks for work, what a schedule that is due makes of
//! the store, and what the end of a transfer means for its job.
use vstd::prelude::*;
use crate::double::{Double, Signed};
use crate::ids::{fresh_id, is_random_id};
use crate::job::{
    opt_chars, status_in, status_round_trip, CronJob, CronJobView, Job, JobStatus, JobView,
};
use crate::progress::ProgressEvent;
use crate::row::JobRowView;
use crate::schedule::{answer, next_cron_run, next_found};
use crate::store::JobStore;
use crate::table::{cron_views, due, is_due, StoreView};
use crate::time::{utc_now, Timestamp, MAX_SECS};

verus! {

/// Seconds between two looks for work.
pub const POLL_SECS: u64 = 1;

/// Seconds between two looks for schedules that are due.
pub const CRON_SECS: u64 = 30;

/// What the worker is told.
#[derive(Debug)]
pub enum WorkerEvent {
    /// It is time to look for work.
    Tick,
    /// The store gave out this job, or had none.
    Claimed(Option<Job>),
    /// The store could not be asked.
    ClaimFailed,
    /// A job has ended.
    Finished,
}

/// What the worker wants done.
#[derive(Debug)]
pub struct WorkerAction {
    /// A job to run.
    pub spawn: Option<Job>,
    /// Ask the store for the next job.
    pub claim: bool,
}

/// The worker: how many jobs may run at the same time, how many do, and whether it has
/// asked for another.
#[derive(Clone, Copy, PartialEq, Eq, Structural, Debug)]
pub struct Worker {
    pub concurrency: usize,
    pub running: usize,
    /// A place is kept for the job that the store was asked for.
    pub claiming: bool,
}

/// Starts a worker that runs up to `concurrency` transfers at the same time.
pub fn start(concurrency: usize) -> (worker: Worker)
    ensures
        worker == (Worker { concurrency, running: 0, claiming: false }),
        worker.wf(),
{
    Worker { concurrency, running: 0, claiming: false }
}

/// The job that an event has the worker start.
pub open spec fn started_by(event: WorkerEvent) -> Option<Job> {
    match event {
        WorkerEvent::Claimed(job) => job,
        _ => None,
    }
}

impl Worker {
    /// No more places are taken than there are.
    pub open spec fn wf(self) -> bool {
        self.running + (if self.claiming {
            1int
        } else {
            0
        }) <= self.concurrency
    }

    /// The worker can be told this now: an answer from the store follows a question.
    pub open spec fn expects(self, event: WorkerEvent) -> bool {
        event is Claimed || event is ClaimFailed ==> self.claiming
    }

    /// There is a place for one more job.
    pub open spec fn has_room(self) -> bool {
        !self.claiming && self.running < self.concurrency
    }

    /// The worker, asking for a job if there is a place for one.
    pub open spec fn looking(self) -> Worker {
        if self.has_room() {
            Worker { claiming: true, ..self }
        } else {
            self
        }
    }

    /// The worker once it has been told something.
    pub open spec fn after(self, event: WorkerEvent) -> Worker {
        match event {
            WorkerEvent::Tick => self.looking(),
            WorkerEvent::Claimed(Some(_)) => (Worker {
                running: (self.running + 1) as usize,
                claiming: false,
                ..self
            }).looking(),
            WorkerEvent::Claimed(None) | WorkerEvent::ClaimFailed => Worker {
                claiming: false,
                ..self
            },
            WorkerEvent::Finished => Worker {
                running: if self.running > 0 {
                    (self.running - 1) as usize
                } else {
                    0
                },
                ..self
            },
        }
    }

    /// Whether the worker asks the store for a job once it has been told something.
    pub open spec fn asks(self, event: WorkerEvent) -> bool {
        match event {
            WorkerEvent::Tick => self.has_room(),
            WorkerEvent::Claimed(Some(_)) => self.running + 1 < self.concurrency,
            _ => false,
        }
    }

    /// Asks for a job if there is a place for one.
    fn look(&mut self) -> (claim: bool)
        requires
            old(self).wf(),
        ensures
            final(self).wf(),
            *final(self) == old(self).looking(),
            claim == old(self).has_room(),
    {
        if !self.claiming && self.running < self.concurrency {
            self.claiming = true;
            true
        } else {
            false
        }
    }

    /// Takes in an event. The worker looks for work at every tick and after every job it
    /// got, as long as there is room, and stops looking once the store has none or fails.
    pub fn step(&mut self, event: WorkerEvent) -> (action: WorkerAction)
        requires
            old(self).wf(),
            old(self).expects(event),
        ensures
            final(self).wf(),
            *final(self) == old(self).after(event),
            action.spawn == started_by(event),
            action.claim == old(self).asks(event),
    {
        match event {
            WorkerEvent::Tick => WorkerAction { spawn: None, claim: self.look() },
            WorkerEvent::Claimed(Some(job)) => {
                self.running += 1;
                self.claiming = false;
                WorkerAction { spawn: Some(job), claim: self.look() }
            },
            WorkerEvent::Claimed(None) => {
                self.claiming = false;
                WorkerAction { spawn: None, claim: false }
            },
            WorkerEvent::ClaimFailed => {
                self.claiming = false;
                WorkerAction { spawn: None, claim: false }
            },
            WorkerEvent::Finished => {
                if self.running > 0 {
                    self.running -= 1;
                }
                WorkerAction { spawn: None, claim: false }
            },
        }
    }
}

/// The worker once it has been told several things.
pub open spec fn after_all(worker: Worker, events: Seq<WorkerEvent>) -> Worker
    decreases events.len(),
{
    if events.len() == 0 {
        worker
    } else {
        after_all(worker, events.drop_last()).after(events.last())
    }
}

/// Each event is one that the worker expects.
pub open spec fn all_expected(worker: Worker, events: Seq<WorkerEvent>) -> bool {
    forall|i: int|
        0 <= i < events.len() ==> after_all(worker, #[trigger] events.take(i)).expects(events[i])
}

/// Whatever the worker is told, it never runs more jobs than it may.
pub proof fn concurrency_is_bounded(worker: Worker, events: Seq<WorkerEvent>)
    requires
        worker.wf(),
        all_expected(worker, events),
    ensures
        after_all(worker, events).wf(),
        after_all(worker, events).running <= worker.concurrency,
        after_all(worker, events).concurrency == worker.concurrency,
    decreases events.len(),
{
    if events.len() > 0 {
        let rest = events.drop_last();
        assert forall|i: int| 0 <= i < rest.len() implies after_all(
            worker,
            #[trigger] rest.take(i),
        ).expects(rest[i]) by {
            assert(rest.take(i) =~= events.take(i));
        }
        concurrency_is_bounded(worker, rest);
        assert(events.take(events.len() - 1) =~= rest);
    }
}

/// What became of a schedule that was due.
#[derive(Debug)]
pub enum CronTick {
    /// A job was queued and the schedule moved on.
    Advanced { cron_id: u128, job_id: u128, next: Timestamp },
    /// A job was queued, and the schedule has no next run; the text says why.
    NoNext { cron_id: u128, job_id: u128, error: String },
    /// No job could be queued; the schedule stays due.
    NotCreated { cron_id: u128 },
}

/// What becomes of the store when a schedule is due: a job with the given id is queued
/// at `now`, and the schedule moves on to its next run after `asked`.
pub open spec fn after_tick(
    store: StoreView,
    entry: CronJobView,
    id: u128,
    now: Timestamp,
    asked: Timestamp,
) -> StoreView {
    if store.has_job(id) {
        store
    } else {
        let queued = store.with_new_job(JobView::requested(entry.tick_request(), id, now));
        match answer(entry.cron, next_found(entry.cron, asked)) {
            Ok(next) => queued.after_advance(entry.id, id, next),
            Err(_) => queued,
        }
    }
}

/// `tick` tells what became of a schedule that was due.
pub open spec fn tick_tells(
    tick: CronTick,
    store: StoreView,
    entry: CronJobView,
    id: u128,
    asked: Timestamp,
) -> bool {
    if store.has_job(id) {
        tick == (CronTick::NotCreated { cron_id: entry.id })
    } else {
        match answer(entry.cron, next_found(entry.cron, asked)) {
            Ok(next) => tick == (CronTick::Advanced { cron_id: entry.id, job_id: id, next }),
            Err(e) => {
                &&& tick matches CronTick::NoNext { cron_id, job_id, error }
                &&& cron_id == entry.id
                &&& job_id == id
                &&& error@ == e
            },
        }
    }
}

/// Queues the job of a schedule that is due and moves the schedule on.
pub fn fire_at(
    store: &mut JobStore,
    entry: &CronJob,
    id: u128,
    now: Timestamp,
    asked: Timestamp,
) -> (tick: CronTick)
    requires
        old(store)@.wf(),
        now.valid(),
        asked.valid(),
        asked.secs < MAX_SECS,
    ensures
        final(store)@.wf(),
        final(store)@ == after_tick(old(store)@, entry@, id, now, asked),
        tick_tells(tick, old(store)@, entry@, id, asked),
{
    let job = Job::requested_at(entry.tick_request(), id, now);
    if store.create(&job).is_err() {
        return CronTick::NotCreated { cron_id: entry.id };
    }
    match next_cron_run(entry.cron.as_str(), asked) {
        Ok(next) => {
            store.advance_cron(entry.id, id, next);
            CronTick::Advanced { cron_id: entry.id, job_id: id, next }
        },
        Err(error) => CronTick::NoNext { cron_id: entry.id, job_id: id, error },
    }
}

/// The instant to search the calendar from when the clock shows `now`. The very last
/// second of the calendar counts as the one before.
pub open spec fn searched_from(now: Timestamp) -> Timestamp {
    if now.secs < MAX_SECS {
        now
    } else {
        Timestamp { secs: (MAX_SECS - 1) as i64, nanos: now.nanos }
    }
}

/// The instant to search the calendar from when the clock shows `now`.
pub fn search_from(now: Timestamp) -> (start: Timestamp)
    requires
        now.valid(),
        now.nanos < 1_000_000_000,
    ensures
        start == searched_from(now),
        start.valid(),
        start.secs < MAX_SECS,
{
    if now.secs < MAX_SECS {
        now
    } else {
        Timestamp { secs: MAX_SECS - 1, nanos: now.nanos }
    }
}

/// The calendar is searched from the instant at some time that the clock can show.
pub open spec fn is_search_start(start: Timestamp) -> bool {
    exists|now: Timestamp| now.on_clock() && start == #[trigger] searched_from(now)
}

/// The instant to search the calendar from at the present time.
pub(crate) fn search_start() -> (start: Timestamp)
    ensures
        is_search_start(start),
        start.valid(),
        start.secs < MAX_SECS,
{
    let now = utc_now();
    search_from(now)
}

/// What is drawn for a schedule that is due.
#[derive(Clone, Copy, PartialEq, Eq, Structural, Debug)]
pub struct Draw {
    /// The id of its job.
    pub id: u128,
    /// When its job is created.
    pub now: Timestamp,
    /// The instant to search for its next run from.
    pub asked: Timestamp,
}

impl Draw {
    /// The instants are of the calendar, and a search has somewhere to go.
    pub open spec fn valid(self) -> bool {
        self.now.valid() && self.asked.valid() && self.asked.secs < MAX_SECS
    }

    /// Chance and the clock can give these values.
    pub open spec fn possible(self) -> bool {
        is_random_id(self.id) && self.now.on_clock() && is_search_start(self.asked)
    }
}

/// What becomes of the store when schedules are due, one after the other.
pub open spec fn after_ticks(
    store: StoreView,
    entries: Seq<CronJobView>,
    draws: Seq<Draw>,
) -> StoreView
    decreases entries.len(),
{
    if entries.len() == 0 {
        store
    } else {
        let draw = draws[entries.len() - 1];
        after_tick(
            after_ticks(store, entries.drop_last(), draws),
            entries.last(),
            draw.id,
            draw.now,
            draw.asked,
        )
    }
}

/// `ticks` tell what became of schedules that were due, one after the other.
pub open spec fn ticks_tell(
    ticks: Seq<CronTick>,
    store: StoreView,
    entries: Seq<CronJobView>,
    draws: Seq<Draw>,
) -> bool {
    &&& ticks.len() == entries.len()
    &&& forall|i: int|
        0 <= i < entries.len() ==> tick_tells(
            #[trigger] ticks[i],
            after_ticks(store, entries.take(i), draws),
            entries[i],
            draws[i].id,
            draws[i].asked,
        )
}

/// Queues the jobs of schedules that are due and moves the schedules on, with what was
/// drawn for each.
pub fn fire_all(store: &mut JobStore, entries: &Vec<CronJob>, draws: &Vec<Draw>) -> (ticks: Vec<
    CronTick,
>)
    requires
        old(store)@.wf(),
        draws@.len() == entries@.len(),
        forall|i: int| 0 <= i < draws@.len() ==> (#[trigger] draws@[i]).valid(),
    ensures
        final(store)@.wf(),
        final(store)@ == after_ticks(old(store)@, cron_views(entries@), draws@),
        ticks_tell(ticks@, old(store)@, cron_views(entries@), draws@),
{
    let ghost list = cron_views(entries@);
    let mut ticks: Vec<CronTick> = Vec::new();
    let mut i: usize = 0;
    while i < entries.len()
        invariant
            i <= entries@.len() == list.len() == draws@.len(),
            list == cron_views(entries@),
            forall|j: int| 0 <= j < draws@.len() ==> (#[trigger] draws@[j]).valid(),
            store@.wf(),
            store@ == after_ticks(old(store)@, list.take(i as int), draws@),
            ticks@.len() == i,
            forall|j: int|
                0 <= j < i ==> tick_tells(
                    #[trigger] ticks@[j],
                    after_ticks(old(store)@, list.take(j), draws@),
                    list[j],
                    draws@[j].id,
                    draws@[j].asked,
                ),
        decreases entries.len() - i,
    {
        let draw = draws[i];
        proof {
            assert(draws@[i as int].valid());
            assert(list[i as int] == entries@[i as int]@);
            assert(list.take(i + 1).drop_last() =~= list.take(i as int));
        }
        let tick = fire_at(store, &entries[i], draw.id, draw.now, draw.asked);
        ticks.push(tick);
        i += 1;
    }
    assert(list.take(i as int) =~= list);
    ticks
}

/// Every value was drawn for one of `count` schedules.
pub open spec fn drawn_for(draws: Seq<Draw>, count: nat) -> bool {
    &&& draws.len() == count
    &&& forall|i: int| 0 <= i < draws.len() ==> (#[trigger] draws[i]).possible()
}

/// Queues a job for every schedule that is due at a given time.
pub fn fire_due_at(store: &mut JobStore, now: Timestamp) -> (ticks: Vec<CronTick>)
    requires
        old(store)@.wf(),
        now.valid(),
    ensures
        final(store)@.wf(),
        exists|draws: Seq<Draw>|
            #![trigger after_ticks(old(store)@, due(old(store)@.crons, now), draws)]
            {
                let entries = due(old(store)@.crons, now);
                &&& drawn_for(draws, entries.len())
                &&& final(store)@ == after_ticks(old(store)@, entries, draws)
                &&& ticks_tell(ticks@, old(store)@, entries, draws)
            },
{
    let entries = store.due_crons_at(now);
    let mut draws: Vec<Draw> = Vec::new();
    let mut i: usize = 0;
    while i < entries.len()
        invariant
            i <= entries@.len(),
            draws@.len() == i,
            forall|j: int|
                0 <= j < i ==> (#[trigger] draws@[j]).possible() && draws@[j].valid(),
        decreases entries.len() - i,
    {
        let id = fresh_id();
        let now = utc_now();
        let asked = search_start();
        draws.push(Draw { id, now, asked });
        i += 1;
    }
    let ghost list = cron_views(entries@);
    assert(list.len() == entries@.len());
    assert(drawn_for(draws@, list.len()));
    fire_all(store, &entries, &draws)
}

/// Queues a job for every schedule that is due, at the present time.
pub fn fire_due(store: &mut JobStore) -> (ticks: Vec<CronTick>)
    requires
        old(store)@.wf(),
    ensures
        final(store)@.wf(),
        exists|now: Timestamp, draws: Seq<Draw>|
            #![trigger after_ticks(old(store)@, due(old(store)@.crons, now), draws)]
            {
                let entries = due(old(store)@.crons, now);
                &&& now.on_clock()
                &&& drawn_for(draws, entries.len())
                &&& final(store)@ == after_ticks(old(store)@, entries, draws)
                &&& ticks_tell(ticks@, old(store)@, entries, draws)
            },
{
    let now = utc_now();
    fire_due_at(store, now)
}

/// Each id is free when its job is queued.
pub open spec fn ids_are_free(
    store: StoreView,
    entries: Seq<CronJobView>,
    draws: Seq<Draw>,
) -> bool {
    forall|i: int|
        0 <= i < entries.len() ==> !after_ticks(store, #[trigger] entries.take(i), draws).has_job(
            draws[i].id,
        )
}

/// A schedule once it has been due: it knows its job and its next run, or is as it was
/// where it has no next run.
pub open spec fn moved_on(entry: CronJobView, draw: Draw) -> CronJobView {
    match answer(entry.cron, next_found(entry.cron, draw.asked)) {
        Ok(next) => CronJobView { last_job_id: Some(draw.id), next_run_at: next, ..entry },
        Err(_) => entry,
    }
}

/// The jobs that schedules queue when they are due, in order.
pub open spec fn queued_by(entries: Seq<CronJobView>, draws: Seq<Draw>) -> Seq<JobRowView> {
    Seq::new(
        entries.len(),
        |i: int| JobView::requested(entries[i].tick_request(), draws[i].id, draws[i].now).row(),
    )
}

spec fn distinct_crons(crons: Seq<CronJobView>) -> bool {
    forall|i: int, j: int|
        0 <= i < j < crons.len() ==> (#[trigger] crons[i]).id != (#[trigger] crons[j]).id
}

spec fn among(entries: Seq<CronJobView>, id: u128) -> bool {
    exists|i: int| 0 <= i < entries.len() && (#[trigger] entries[i]).id == id
}

proof fn lemma_place_of_cron(store: StoreView, id: u128, p: int)
    requires
        distinct_crons(store.crons),
        store.cron_in(id, p),
    ensures
        store.cron_place(id) == p,
        store.cron(id) == Some(store.crons[p]),
{
    let q = store.cron_place(id);
    assert(store.cron_in(id, q));
    if p < q {
        assert(store.crons[p].id != store.crons[q].id);
    } else if q < p {
        assert(store.crons[q].id != store.crons[p].id);
    }
}

/// Moving a schedule on changes no other.
proof fn lemma_advance(store: StoreView, entry: CronJobView, job_id: u128, next: Timestamp)
    requires
        distinct_crons(store.crons),
        store.cron(entry.id) == Some(entry),
    ensures
        ({
            let after = store.after_advance(entry.id, job_id, next);
            &&& distinct_crons(after.crons)
            &&& after.jobs == store.jobs
            &&& after.cron(entry.id) == Some(
                CronJobView { last_job_id: Some(job_id), next_run_at: next, ..entry },
            )
            &&& forall|id: u128| id != entry.id ==> #[trigger] after.cron(id) == store.cron(id)
        }),
{
    let after = store.after_advance(entry.id, job_id, next);
    let p = store.cron_place(entry.id);
    assert(store.cron_in(entry.id, p));
    assert forall|i: int| 0 <= i < after.crons.len() implies (#[trigger] after.crons[i]).id
        == store.crons[i].id by {}
    assert(distinct_crons(after.crons));
    assert(after.cron_in(entry.id, p));
    lemma_place_of_cron(after, entry.id, p);
    assert forall|id: u128| id != entry.id implies #[trigger] after.cron(id) == store.cron(id) by {
        if store.has_cron(id) {
            let q = store.cron_place(id);
            assert(store.cron_in(id, q));
            assert(after.cron_in(id, q));
            lemma_place_of_cron(after, id, q);
        } else if after.has_cron(id) {
            let q = after.cron_place(id);
            assert(after.cron_in(id, q));
            assert(store.cron_in(id, q));
        }
    }
}

proof fn lemma_ticks(store: StoreView, entries: Seq<CronJobView>, draws: Seq<Draw>)
    requires
        distinct_crons(store.crons),
        distinct_crons(entries),
        forall|i: int|
            0 <= i < entries.len() ==> store.cron((#[trigger] entries[i]).id) == Some(entries[i]),
        draws.len() >= entries.len(),
        ids_are_free(store, entries, draws),
    ensures
        ({
            let after = after_ticks(store, entries, draws);
            &&& distinct_crons(after.crons)
            &&& after.jobs == store.jobs + queued_by(entries, draws)
            &&& forall|i: int|
                0 <= i < entries.len() ==> after.cron((#[trigger] entries[i]).id) == Some(
                    moved_on(entries[i], draws[i]),
                )
            &&& forall|id: u128|
                !among(entries, id) ==> #[trigger] after.cron(id) == store.cron(id)
        }),
    decreases entries.len(),
{
    let after = after_ticks(store, entries, draws);
    if entries.len() == 0 {
        assert(after.jobs =~= store.jobs + queued_by(entries, draws));
    } else {
        let n = entries.len() - 1;
        let rest = entries.drop_last();
        let entry = entries.last();
        let draw = draws[n];
        assert forall|i: int| 0 <= i < rest.len() implies store.cron((#[trigger] rest[i]).id)
            == Some(rest[i]) by {
            assert(rest[i] == entries[i]);
        }
        assert forall|i: int| 0 <= i < rest.len() implies !after_ticks(
            store,
            #[trigger] rest.take(i),
            draws,
        ).has_job(draws[i].id) by {
            assert(rest.take(i) =~= entries.take(i));
        }
        assert(distinct_crons(rest)) by {
            assert forall|i: int, j: int| 0 <= i < j < rest.len() implies (#[trigger] rest[i]).id
                != (#[trigger] rest[j]).id by {
                assert(entries[i].id != entries[j].id);
            }
        }
        lemma_ticks(store, rest, draws);
        let before = after_ticks(store, rest, draws);
        assert(entries.take(n) =~= rest);
        assert(!before.has_job(draw.id));
        assert(entries[n] == entry);
        if among(rest, entry.id) {
            let i = choose|i: int| 0 <= i < rest.len() && (#[trigger] rest[i]).id == entry.id;
            assert(entries[i].id != entries[n].id);
        }
        assert(before.cron(entry.id) == Some(entry));
        let job = JobView::requested(entry.tick_request(), draw.id, draw.now);
        let queued = before.with_new_job(job);
        assert forall|id: u128| #[trigger] queued.cron(id) == before.cron(id) by {
            if before.has_cron(id) {
                let q = before.cron_place(id);
                assert(before.cron_in(id, q));
                assert(queued.cron_in(id, q));
                lemma_place_of_cron(before, id, q);
                lemma_place_of_cron(queued, id, q);
            } else if queued.has_cron(id) {
                let q = queued.cron_place(id);
                assert(queued.cron_in(id, q));
                assert(before.cron_in(id, q));
            }
        }
        match answer(entry.cron, next_found(entry.cron, draw.asked)) {
            Ok(next) => {
                lemma_advance(queued, entry, draw.id, next);
            },
            Err(_) => {},
        }
        assert(after.jobs =~= store.jobs + queued_by(entries, draws));
        assert forall|i: int| 0 <= i < entries.len() implies after.cron(
            (#[trigger] entries[i]).id,
        ) == Some(moved_on(entries[i], draws[i])) by {
            if i < n {
                assert(rest[i] == entries[i]);
                assert(entries[i].id != entries[n].id);
                assert(before.cron(rest[i].id) == Some(moved_on(rest[i], draws[i])));
                assert(queued.cron(rest[i].id) == before.cron(rest[i].id));
            }
        }
        assert forall|id: u128| !among(entries, id) implies #[trigger] after.cron(id)
            == store.cron(id) by {
            if among(rest, id) {
                let i = choose|i: int| 0 <= i < rest.len() && (#[trigger] rest[i]).id == id;
                assert(entries[i].id == id);
            }
            assert(entries[n].id != id);
            assert(queued.cron(id) == before.cron(id));
            assert(before.cron(id) == store.cron(id));
        }
    }
}

/// The schedules that are due are among all, and each has its own id.
proof fn lemma_due(crons: Seq<CronJobView>, now: Timestamp)
    requires
        distinct_crons(crons),
    ensures
        distinct_crons(due(crons, now)),
        forall|i: int|
            0 <= i < due(crons, now).len() ==> crons.contains(#[trigger] due(crons, now)[i])
                && is_due(due(crons, now)[i], now),
    decreases crons.len(),
{
    reveal(Seq::filter);
    if crons.len() > 0 {
        let rest = crons.drop_last();
        assert forall|i: int, j: int| 0 <= i < j < rest.len() implies (#[trigger] rest[i]).id != (
        #[trigger] rest[j]).id by {
            assert(crons[i].id != crons[j].id);
        }
        lemma_due(rest, now);
        let list = due(crons, now);
        let before = due(rest, now);
        assert forall|i: int| 0 <= i < list.len() implies crons.contains(#[trigger] list[i])
            && is_due(list[i], now) by {
            if i < before.len() {
                assert(rest.contains(before[i]));
                let k = choose|k: int| 0 <= k < rest.len() && rest[k] == before[i];
                assert(crons[k] == list[i]);
            } else {
                assert(crons[crons.len() - 1] == list[i]);
            }
        }
        assert forall|i: int, j: int| 0 <= i < j < list.len() implies (#[trigger] list[i]).id != (
        #[trigger] list[j]).id by {
            assert(rest.contains(before[i]));
            if j < before.len() {
                assert(before[i].id != before[j].id);
            } else {
                let k = choose|k: int| 0 <= k < rest.len() && rest[k] == before[i];
                assert(crons[k].id != crons[crons.len() - 1].id);
            }
        }
    }
}

/// When every id that is drawn is free, each schedule that is due queues one job and moves
/// on to its next run, and every other schedule stays as it is.
pub proof fn due_schedules_move_on(store: StoreView, now: Timestamp, draws: Seq<Draw>)
    requires
        store.wf(),
        draws.len() == due(store.crons, now).len(),
        ids_are_free(store, due(store.crons, now), draws),
    ensures
        ({
            let entries = due(store.crons, now);
            let after = after_ticks(store, entries, draws);
            &&& after.jobs == store.jobs + queued_by(entries, draws)
            &&& forall|i: int|
                0 <= i < entries.len() ==> after.cron((#[trigger] entries[i]).id) == Some(
                    moved_on(entries[i], draws[i]),
                )
            &&& forall|id: u128|
                (store.cron(id) matches Some(entry) ==> !is_due(entry, now))
                    ==> #[trigger] after.cron(id) == store.cron(id)
        }),
{
    let entries = due(store.crons, now);
    lemma_due(store.crons, now);
    assert forall|i: int| 0 <= i < entries.len() implies store.cron((#[trigger] entries[i]).id)
        == Some(entries[i]) by {
        assert(store.crons.contains(entries[i]));
        let p = choose|p: int| 0 <= p < store.crons.len() && store.crons[p] == entries[i];
        assert(store.cron_in(entries[i].id, p));
        lemma_place_of_cron(store, entries[i].id, p);
    }
    lemma_ticks(store, entries, draws);
    let after = after_ticks(store, entries, draws);
    assert forall|id: u128|
        (store.cron(id) matches Some(entry) ==> !is_due(entry, now)) implies #[trigger] after.cron(
        id,
    ) == store.cron(id) by {
        if among(entries, id) {
            let i = choose|i: int| 0 <= i < entries.len() && (#[trigger] entries[i]).id == id;
            assert(store.cron(entries[i].id) == Some(entries[i]));
            assert(is_due(entries[i], now));
        }
    }
}

/// A schedule that has moved on is not due again before its next run.
pub proof fn fired_schedule_is_not_due(
    store: StoreView,
    entry: CronJobView,
    job_id: u128,
    next: Timestamp,
    at: Timestamp,
)
    requires
        store.wf(),
        store.cron(entry.id) == Some(entry),
        !next.at_or_before(at),
    ensures
        store.after_advance(entry.id, job_id, next).cron(entry.id) matches Some(moved) && !is_due(
            moved,
            at,
        ),
{
    lemma_advance(store, entry, job_id, next);
}

/// A call to make when a job has ended.
#[derive(Debug)]
pub struct Webhook {
    pub url: String,
    pub event: &'static str,
    pub job_id: u128,
    pub src: String,
    pub dst: String,
    pub attempt: u32,
    pub error: Option<String>,
}

/// `hook` is the call that a job with a callback URL asks for, and none for another.
pub open spec fn hook_for(
    hook: Option<Webhook>,
    job: JobView,
    event: Seq<char>,
    error: Option<Seq<char>>,
) -> bool {
    match job.callback_url {
        None => hook is None,
        Some(url) => {
            &&& hook matches Some(hook)
            &&& hook.url@ == url
            &&& hook.event@ == event
            &&& hook.job_id == job.id
            &&& hook.src@ == job.src
            &&& hook.dst@ == job.dst
            &&& hook.attempt == job.attempt
            &&& opt_chars(hook.error) == error
        },
    }
}

/// The call that a job asks for when it has ended.
pub fn webhook(job: &Job, event: &'static str, error: Option<&str>) -> (hook: Option<Webhook>)
    ensures
        hook_for(
            hook,
            job@,
            event@,
            match error {
                Some(e) => Some(e@),
                None => None,
            },
        ),
{
    match &job.callback_url {
        None => None,
        Some(url) => Some(
            Webhook {
                url: url.clone(),
                event,
                job_id: job.id,
                src: job.src.clone(),
                dst: job.dst.clone(),
                attempt: job.attempt,
                error: match error {
                    Some(e) => Some(e.to_owned()),
                    None => None,
                },
            },
        ),
    }
}

/// Takes in a report at a given time: keeps the highest throughput and records the
/// progress.
pub fn on_progress_at(
    store: &mut JobStore,
    peak: Double,
    report: &ProgressEvent,
    now: Timestamp,
) -> (new_peak: Double)
    requires
        old(store)@.wf(),
        peak.valid(),
        report.throughput_mbps.valid(),
        now.valid(),
    ensures
        new_peak == peak.larger(report.throughput_mbps),
        new_peak.valid(),
        final(store)@.wf(),
        final(store)@ == old(store)@.after_progress(
            report.job_id,
            report.bytes_transferred,
            report.bytes_total,
            Some(Signed { negative: false, size: new_peak }),
            now,
        ),
{
    let new_peak = peak.max_of(report.throughput_mbps);
    store.update_progress_at(
        report.job_id,
        report.bytes_transferred,
        report.bytes_total,
        Some(Signed::positive(new_peak)),
        now,
    );
    new_peak
}

/// Takes in a report at the present time.
pub fn on_progress(store: &mut JobStore, peak: Double, report: &ProgressEvent) -> (new_peak: Double)
    requires
        old(store)@.wf(),
        peak.valid(),
        report.throughput_mbps.valid(),
    ensures
        new_peak == peak.larger(report.throughput_mbps),
        new_peak.valid(),
        final(store)@.wf(),
        exists|now: Timestamp|
            now.on_clock() && final(store)@ == #[trigger] old(store)@.after_progress(
                report.job_id,
                report.bytes_transferred,
                report.bytes_total,
                Some(Signed { negative: false, size: new_peak }),
                now,
            ),
{
    let now = utc_now();
    on_progress_at(store, peak, report, now)
}

/// The store once the transfer of a job has ended. A retry that would start beyond the
/// calendar is not recorded.
pub open spec fn after_run(
    store: StoreView,
    id: u128,
    outcome: Result<u64, Seq<char>>,
    peak: Option<Signed>,
    now: Timestamp,
    base: Timestamp,
) -> StoreView {
    match outcome {
        Ok(_) => store.after_completion(id, peak, now),
        Err(error) => if store.retry_out_of_range(id, base) {
            store
        } else {
            store.after_failure(id, error, now, base)
        },
    }
}

/// `hook` is the call to make: on completion, or on a failure that is not tried again.
pub open spec fn hook_after_run(
    hook: Option<Webhook>,
    job: JobView,
    outcome: Result<u64, Seq<char>>,
    after: StoreView,
) -> bool {
    match outcome {
        Ok(_) => hook_for(hook, job, "completed"@, None),
        Err(error) => if after.job(job.id) matches Some(row) && row.readable() && status_in(
            row.status,
        ) == JobStatus::Failed {
            hook_for(hook, job, "failed"@, Some(error))
        } else {
            hook is None
        },
    }
}

/// A transfer that failed and may be tried again makes no call. One that has no attempt
/// left makes the call of its job. Nothing is said of a retry beyond the calendar.
pub open spec fn failure_calls_once(
    hook: Option<Webhook>,
    job: JobView,
    outcome: Result<u64, Seq<char>>,
    before: StoreView,
    base: Timestamp,
) -> bool {
    match (outcome, before.job(job.id)) {
        (Err(error), Some(row)) => before.retry_out_of_range(job.id, base) || {
            &&& row.may_retry() ==> hook is None
            &&& !row.may_retry() && row.readable() ==> hook_for(
                hook,
                job,
                "failed"@,
                Some(error),
            )
        },
        _ => true,
    }
}

pub open spec fn outcome_chars(outcome: Result<u64, String>) -> Result<u64, Seq<char>> {
    match outcome {
        Ok(n) => Ok(n),
        Err(e) => Err(e@),
    }
}

/// Records how the transfer of a job has ended, at given times, and tells the call to
/// make.
pub fn run_job_at(
    store: &mut JobStore,
    job: &Job,
    outcome: Result<u64, String>,
    peak: Option<Signed>,
    now: Timestamp,
    base: Timestamp,
) -> (hook: Option<Webhook>)
    requires
        old(store)@.wf(),
        peak matches Some(d) ==> d.valid(),
        now.valid(),
        base.valid(),
    ensures
        final(store)@.wf(),
        final(store)@ == after_run(
            old(store)@,
            job.id,
            outcome_chars(outcome),
            peak,
            now,
            base,
        ),
        hook_after_run(hook, job@, outcome_chars(outcome), final(store)@),
        failure_calls_once(hook, job@, outcome_chars(outcome), old(store)@, base),
{
    match outcome {
        Ok(_) => {
            store.set_completed_at(job.id, peak, now);
            webhook(job, "completed", None)
        },
        Err(error) => {
            proof {
                status_round_trip(JobStatus::Queued);
                status_round_trip(JobStatus::Failed);
            }
            let _ = store.set_failed_at(job.id, error.as_str(), now, base);
            match store.get(job.id) {
                Ok(Some(updated)) => if updated.status == JobStatus::Failed {
                    webhook(job, "failed", Some(error.as_str()))
                } else {
                    None
                },
                _ => None,
            }
        },
    }
}

/// Records how the transfer of a job has ended, at the present time, and tells the call
/// to make.
pub fn run_job(
    store: &mut JobStore,
    job: &Job,
    outcome: Result<u64, String>,
    peak: Option<Signed>,
) -> (hook: Option<Webhook>)
    requires
        old(store)@.wf(),
        peak matches Some(d) ==> d.valid(),
    ensures
        final(store)@.wf(),
        exists|now: Timestamp, base: Timestamp|
            #![trigger after_run(old(store)@, job.id, outcome_chars(outcome), peak, now, base)]
            {
                &&& now.on_clock() && base.on_clock()
                &&& final(store)@ == after_run(
                    old(store)@,
                    job.id,
                    outcome_chars(outcome),
                    peak,
                    now,
                    base,
                )
                &&& failure_calls_once(hook, job@, outcome_chars(outcome), old(store)@, base)
            },
        hook_after_run(hook, job@, outcome_chars(outcome), final(store)@),
{
    let now = utc_now();
    let base = utc_now();
    run_job_at(store, job, outcome, peak, now, base)
}

} // verus!
