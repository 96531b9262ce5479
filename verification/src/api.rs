//! What the REST API answers to each request.
use vstd::prelude::*;
use crate::cost::{
    cloud_rate, estimate, four_places, gigabytes, gigabytes_of, provider_of, rate_by_name, rate_of,
    to_four_places, to_two_places, two_places,
};
use crate::double::{zero, Double};
use crate::ids::{fresh_id, id_chars, id_text, is_random_id};
use crate::job::{
    opt_valid, CreateCronRequest, CreateCronRequestView, CreateJobRequest, CreateJobRequestView,
    CronJob, CronJobView, Job, JobView,
};
use crate::progress::ProgressEvent;
use crate::schedule::{answer, next_cron_run, next_found};
use crate::store::JobStore;
use crate::table::{
    all_readable, is_listing, job_views, lines_view, summary, sums_fit, StoreError, StoreView,
};
use crate::time::{utc_now, Timestamp, MAX_SECS};
use crate::worker::{is_search_start, search_start};

verus! {

/// Why a request was not served.
#[derive(Debug)]
pub enum AppError {
    NotFound,
    BadRequest(String),
    Internal(String),
}

impl AppError {
    /// The HTTP status code of the answer.
    pub open spec fn code(self) -> u16 {
        match self {
            AppError::NotFound => 404,
            AppError::BadRequest(_) => 400,
            AppError::Internal(_) => 500,
        }
    }

    /// The body of the answer.
    pub open spec fn text(self) -> Seq<char> {
        match self {
            AppError::NotFound => "not found"@,
            AppError::BadRequest(text) => text@,
            AppError::Internal(text) => text@,
        }
    }

    /// The HTTP status code of the answer.
    pub fn status(&self) -> (code: u16)
        ensures
            code == self.code(),
    {
        match self {
            AppError::NotFound => 404,
            AppError::BadRequest(_) => 400,
            AppError::Internal(_) => 500,
        }
    }

    /// The body of the answer.
    pub fn body(&self) -> (text: String)
        ensures
            text@ == self.text(),
    {
        match self {
            AppError::NotFound => "not found".to_owned(),
            AppError::BadRequest(text) => text.clone(),
            AppError::Internal(text) => text.clone(),
        }
    }
}

impl StoreError {
    /// The message for an error of the store, as the database words it. A row that cannot
    /// be read and a time beyond the calendar are no errors of the database.
    pub open spec fn text(self) -> Seq<char> {
        match self {
            StoreError::DuplicateId => {
                "error returned from database: (code: 1555) UNIQUE constraint failed: jobs.id"@
            },
            StoreError::DuplicateCron => {
                "error returned from database: (code: 1555) UNIQUE constraint failed: crons.id"@
            },
            StoreError::UnreadableRow => "a row cannot be read"@,
            StoreError::NoSuchJob => {
                "no rows returned by a query that expected to return at least one row"@
            },
            StoreError::SumOverflow => "error returned from database: (code: 1) integer overflow"@,
            StoreError::TimeOutOfRange => "time out of range"@,
        }
    }

    /// The message for the error.
    pub fn message(&self) -> (text: &'static str)
        ensures
            text@ == self.text(),
    {
        match self {
            StoreError::DuplicateId => {
                "error returned from database: (code: 1555) UNIQUE constraint failed: jobs.id"
            },
            StoreError::DuplicateCron => {
                "error returned from database: (code: 1555) UNIQUE constraint failed: crons.id"
            },
            StoreError::UnreadableRow => "a row cannot be read",
            StoreError::NoSuchJob => {
                "no rows returned by a query that expected to return at least one row"
            },
            StoreError::SumOverflow => "error returned from database: (code: 1) integer overflow",
            StoreError::TimeOutOfRange => "time out of range",
        }
    }
}

/// The answer is that the request cannot be met, in the given words.
pub open spec fn refuses<T>(r: Result<T, AppError>, text: Seq<char>) -> bool {
    r matches Err(AppError::BadRequest(words)) && words@ == text
}

/// The answer is that the store failed.
pub open spec fn breaks<T>(r: Result<T, AppError>, error: StoreError) -> bool {
    r matches Err(AppError::Internal(words)) && words@ == error.text()
}

/// What a request for a job created.
#[derive(Debug)]
pub enum Created {
    /// A one-shot job.
    Job(Job),
    /// A recurring schedule.
    Schedule(CronJob),
}

/// The schedule that a request for a job with a cron expression asks for.
pub open spec fn schedule_request(req: CreateJobRequestView) -> CreateCronRequestView {
    CreateCronRequestView {
        src: req.src,
        dst: req.dst,
        cron: req.cron->0,
        priority: req.priority,
        max_attempts: req.max_attempts,
        callback_url: req.callback_url,
    }
}

/// `r` is the answer to a request for a schedule that draws the given id, and `after`
/// is what the store then holds.
pub open spec fn cron_answered(
    before: StoreView,
    req: CreateCronRequestView,
    id: u128,
    now: Timestamp,
    asked: Timestamp,
    r: Result<CronJob, AppError>,
    after: StoreView,
) -> bool {
    match answer(req.cron, next_found(req.cron, asked)) {
        Err(e) => refuses(r, e) && after == before,
        Ok(next) => if before.has_cron(id) {
            breaks(r, StoreError::DuplicateCron) && after == before
        } else {
            &&& r matches Ok(entry)
            &&& entry@ == CronJobView::requested(req, id, next, now)
            &&& after == before.with_new_cron(entry@)
        },
    }
}

/// The message for a dependency that is not there.
pub open spec fn missing_dependency(dep: u128) -> Seq<char> {
    "depends_on job "@ + id_chars(dep) + " does not exist"@
}

/// `r` is the answer to a request for a job that draws the given id, and `after` is
/// what the store then holds.
pub open spec fn job_answered(
    before: StoreView,
    req: CreateJobRequestView,
    id: u128,
    now: Timestamp,
    asked: Timestamp,
    r: Result<Created, AppError>,
    after: StoreView,
) -> bool {
    if req.depends_on matches Some(dep) && !before.has_job(dep) {
        refuses(r, missing_dependency(req.depends_on->0)) && after == before
    } else if req.depends_on matches Some(dep) && !before.job(dep)->0.readable() {
        breaks(r, StoreError::UnreadableRow) && after == before
    } else if req.cron is Some {
        let made = match r {
            Ok(Created::Schedule(entry)) => Ok(entry),
            Ok(Created::Job(_)) => Err(AppError::NotFound),
            Err(e) => Err(e),
        };
        cron_answered(before, schedule_request(req), id, now, asked, made, after)
    } else if before.has_job(id) {
        breaks(r, StoreError::DuplicateId) && after == before
    } else {
        &&& r matches Ok(Created::Job(job))
        &&& job@ == JobView::requested(req, id, now)
        &&& after == before.with_new_job(job@)
        &&& after.job(id) == Some(job@.row())
        &&& job@.row().readable()
        &&& job@.row().job() == job@.stored()
    }
}

/// Answers a request for a schedule, with a given id and times.
pub fn create_cron_at(
    store: &mut JobStore,
    req: &CreateCronRequest,
    id: u128,
    now: Timestamp,
    asked: Timestamp,
) -> (r: Result<CronJob, AppError>)
    requires
        old(store)@.wf(),
        now.valid(),
        asked.valid(),
        asked.secs < MAX_SECS,
    ensures
        final(store)@.wf(),
        cron_answered(old(store)@, req@, id, now, asked, r, final(store)@),
{
    let next = match next_cron_run(req.cron.as_str(), asked) {
        Ok(next) => next,
        Err(e) => {
            return Err(AppError::BadRequest(e));
        },
    };
    match store.create_cron_at(req, next, id, now) {
        Ok(entry) => Ok(entry),
        Err(e) => Err(AppError::Internal(e.message().to_owned())),
    }
}

/// Answers a request for a schedule, with a fresh id, at the present time.
pub fn create_cron(store: &mut JobStore, req: &CreateCronRequest) -> (r: Result<CronJob, AppError>)
    requires
        old(store)@.wf(),
    ensures
        final(store)@.wf(),
        exists|id: u128, now: Timestamp, asked: Timestamp|
            {
                &&& is_random_id(id) && now.on_clock() && is_search_start(asked)
                &&& #[trigger] cron_answered(old(store)@, req@, id, now, asked, r, final(store)@)
            },
{
    let asked = search_start();
    let id = fresh_id();
    let now = utc_now();
    create_cron_at(store, req, id, now, asked)
}

/// Answers a request for a job, with a given id and times. A request with a cron
/// expression creates a schedule instead.
pub fn create_job_at(
    store: &mut JobStore,
    req: CreateJobRequest,
    id: u128,
    now: Timestamp,
    asked: Timestamp,
) -> (r: Result<Created, AppError>)
    requires
        old(store)@.wf(),
        opt_valid(req@.run_after),
        now.valid(),
        asked.valid(),
        asked.secs < MAX_SECS,
    ensures
        final(store)@.wf(),
        job_answered(old(store)@, req@, id, now, asked, r, final(store)@),
{
    if let Some(dep) = req.depends_on {
        match store.get(dep) {
            Ok(Some(_)) => {},
            Ok(None) => {
                let mut text = "depends_on job ".to_owned();
                let dep_text = id_text(dep);
                text.append(dep_text.as_str());
                text.append(" does not exist");
                return Err(AppError::BadRequest(text));
            },
            Err(e) => {
                return Err(AppError::Internal(e.message().to_owned()));
            },
        }
    }
    if let Some(expr) = &req.cron {
        let schedule = CreateCronRequest {
            src: req.src.clone(),
            dst: req.dst.clone(),
            cron: expr.clone(),
            priority: req.priority,
            max_attempts: req.max_attempts,
            callback_url: req.callback_url.clone(),
        };
        return match create_cron_at(store, &schedule, id, now, asked) {
            Ok(entry) => Ok(Created::Schedule(entry)),
            Err(e) => Err(e),
        };
    }
    let job = Job::requested_at(req, id, now);
    match store.create(&job) {
        Ok(_) => Ok(Created::Job(job)),
        Err(e) => Err(AppError::Internal(e.message().to_owned())),
    }
}

/// Answers a request for a job, with a fresh id, at the present time.
pub fn create_job(store: &mut JobStore, req: CreateJobRequest) -> (r: Result<Created, AppError>)
    requires
        old(store)@.wf(),
        opt_valid(req@.run_after),
    ensures
        final(store)@.wf(),
        exists|id: u128, now: Timestamp, asked: Timestamp|
            {
                &&& is_random_id(id) && now.on_clock() && is_search_start(asked)
                &&& #[trigger] job_answered(old(store)@, req@, id, now, asked, r, final(store)@)
            },
{
    let asked = search_start();
    let now = utc_now();
    let id = fresh_id();
    create_job_at(store, req, id, now, asked)
}

/// A request that names a dependency which is not there changes nothing and is refused.
pub proof fn missing_dependency_is_refused(
    before: StoreView,
    req: CreateJobRequestView,
    dep: u128,
    id: u128,
    now: Timestamp,
    asked: Timestamp,
    r: Result<Created, AppError>,
    after: StoreView,
)
    requires
        req.depends_on == Some(dep),
        !before.has_job(dep),
        job_answered(before, req, id, now, asked, r, after),
    ensures
        after == before,
        r matches Err(e) && e.code() == 400 && e.text() == missing_dependency(dep),
{
}

/// Answers a request for a job by its id.
pub fn get_job(store: &JobStore, id: u128) -> (r: Result<Job, AppError>)
    requires
        store@.wf(),
    ensures
        match store@.job(id) {
            Some(row) => if row.readable() {
                r matches Ok(found) && found@ == row.job() && found@.valid()
            } else {
                breaks(r, StoreError::UnreadableRow)
            },
            None => r matches Err(AppError::NotFound),
        },
{
    match store.get(id) {
        Ok(Some(job)) => Ok(job),
        Ok(None) => Err(AppError::NotFound),
        Err(e) => Err(AppError::Internal(e.message().to_owned())),
    }
}

/// Answers a request for a list of jobs.
pub fn list_jobs(store: &JobStore) -> (r: Result<Vec<Job>, AppError>)
    requires
        store@.wf(),
    ensures
        exists|order: Seq<int>|
            {
                &&& #[trigger] is_listing(store@.jobs, order)
                &&& if all_readable(store@.jobs, order) {
                    r matches Ok(jobs) && job_views(jobs@) == order.map_values(
                        |i: int| store@.jobs[i].job(),
                    )
                } else {
                    breaks(r, StoreError::UnreadableRow)
                }
            },
{
    match store.list() {
        Ok(jobs) => Ok(jobs),
        Err(e) => Err(AppError::Internal(e.message().to_owned())),
    }
}

/// Answers a request for a schedule by its id.
pub fn get_cron(store: &JobStore, id: u128) -> (r: Result<CronJob, AppError>)
    requires
        store@.wf(),
    ensures
        match store@.cron(id) {
            Some(entry) => r matches Ok(found) && found@ == entry,
            None => r matches Err(AppError::NotFound),
        },
{
    match store.get_cron(id) {
        Some(entry) => Ok(entry),
        None => Err(AppError::NotFound),
    }
}

/// Answers a request to cancel a job, at a given time.
pub fn cancel_job_at(store: &mut JobStore, id: u128, now: Timestamp) -> (r: Result<(), AppError>)
    requires
        old(store)@.wf(),
        now.valid(),
    ensures
        final(store)@.wf(),
        final(store)@ == old(store)@.after_cancel(id, now),
        old(store)@.can_cancel(id) ==> r is Ok,
        !old(store)@.can_cancel(id) ==> refuses(
            r,
            "job not found or is already running/completed"@,
        ),
{
    if store.cancel_at(id, now) {
        Ok(())
    } else {
        Err(AppError::BadRequest("job not found or is already running/completed".to_owned()))
    }
}

/// Answers a request to cancel a job, at the present time.
pub fn cancel_job(store: &mut JobStore, id: u128) -> (r: Result<(), AppError>)
    requires
        old(store)@.wf(),
    ensures
        final(store)@.wf(),
        exists|now: Timestamp|
            now.on_clock() && final(store)@ == #[trigger] old(store)@.after_cancel(id, now),
        old(store)@.can_cancel(id) ==> r is Ok,
        !old(store)@.can_cancel(id) ==> refuses(
            r,
            "job not found or is already running/completed"@,
        ),
{
    let now = utc_now();
    cancel_job_at(store, id, now)
}

/// Answers a request to delete a schedule.
pub fn delete_cron(store: &mut JobStore, id: u128) -> (r: Result<(), AppError>)
    requires
        old(store)@.wf(),
    ensures
        final(store)@.wf(),
        final(store)@ == old(store)@.without_cron(id),
        old(store)@.has_cron(id) ==> r is Ok,
        !old(store)@.has_cron(id) ==> r matches Err(AppError::NotFound),
{
    if store.delete_cron(id) {
        Ok(())
    } else {
        Err(AppError::NotFound)
    }
}

/// Whether a report belongs into the event stream of a job.
pub fn event_for_job(event: &ProgressEvent, id: u128) -> (yes: bool)
    ensures
        yes == (event.job_id == id),
{
    event.job_id == id
}

/// What the event stream of a job does with what it has received.
#[derive(Clone, Copy, PartialEq, Eq, Structural, Debug)]
pub enum StreamStep {
    /// The report goes out.
    Send,
    /// The report is about another job: wait for the next.
    Skip,
    /// The stream is over.
    End,
}

/// What the event stream of a job does with a report, or with none where receiving one
/// failed.
pub open spec fn step_for(received: Option<&ProgressEvent>, id: u128) -> StreamStep {
    match received {
        Some(event) => if event.job_id == id {
            StreamStep::Send
        } else {
            StreamStep::Skip
        },
        None => StreamStep::End,
    }
}

/// Decides what the event stream of a job does with a report, or with none where
/// receiving one failed.
pub fn stream_step(received: Option<&ProgressEvent>, id: u128) -> (step: StreamStep)
    ensures
        step == step_for(received, id),
{
    match received {
        Some(event) => if event_for_job(event, id) {
            StreamStep::Send
        } else {
            StreamStep::Skip
        },
        None => StreamStep::End,
    }
}

/// What a job has cost.
#[derive(Debug)]
pub struct JobCost {
    pub job_id: u128,
    pub src: String,
    pub bytes_transferred: u64,
    pub provider: &'static str,
    pub rate_per_gb_usd: Double,
    pub estimated_egress_usd: Double,
}

/// The cost tells what the bytes of a job have cost.
pub open spec fn cost_tells(cost: JobCost, id: u128, job: JobView) -> bool {
    &&& cost.job_id == id
    &&& cost.src@ == job.src
    &&& cost.bytes_transferred == job.bytes_transferred
    &&& cost.provider@ == provider_of(job.src)
    &&& cost.rate_per_gb_usd == rate_of(job.src)
    &&& cost.estimated_egress_usd == to_four_places(
        gigabytes_of(job.bytes_transferred).spec_mul(rate_of(job.src)),
    )
}

/// Answers a request for the cost of a job.
pub fn job_cost(store: &JobStore, id: u128) -> (r: Result<JobCost, AppError>)
    requires
        store@.wf(),
    ensures
        match store@.job(id) {
            Some(row) => if row.readable() {
                r matches Ok(cost) && cost_tells(cost, id, row.job())
            } else {
                breaks(r, StoreError::UnreadableRow)
            },
            None => r matches Err(AppError::NotFound),
        },
{
    let job = match get_job(store, id) {
        Ok(job) => job,
        Err(e) => {
            return Err(e);
        },
    };
    let cost = estimate(job.src.as_str(), job.bytes_transferred);
    Ok(
        JobCost {
            job_id: id,
            bytes_transferred: job.bytes_transferred,
            provider: cost.provider,
            rate_per_gb_usd: cost.rate_per_gb,
            estimated_egress_usd: four_places(cost.estimated_usd),
            src: job.src,
        },
    )
}

/// What one cloud has cost.
#[derive(Debug)]
pub struct CostLine {
    pub provider: String,
    pub bytes_transferred: u64,
    pub gb_transferred: Double,
    pub rate_per_gb_usd: Double,
    pub estimated_egress_usd: Double,
}

/// What everything has cost.
#[derive(Debug)]
pub struct CostReport {
    pub breakdown: Vec<CostLine>,
    pub total_estimated_egress_usd: Double,
}

/// The cost of the bytes out of a cloud, not rounded.
pub open spec fn cloud_cost(name: Seq<char>, bytes: u64) -> Double {
    gigabytes_of(bytes).spec_mul(rate_by_name(name))
}

/// The line of the report for a cloud and its bytes.
pub open spec fn line_tells(line: CostLine, name: Seq<char>, bytes: u64) -> bool {
    &&& line.provider@ == name
    &&& line.bytes_transferred == bytes
    &&& line.gb_transferred == to_two_places(gigabytes_of(bytes))
    &&& line.rate_per_gb_usd == rate_by_name(name)
    &&& line.estimated_egress_usd == to_four_places(cloud_cost(name, bytes))
}

/// The costs of all lines, added up in order and not rounded on the way.
pub open spec fn added_up(lines: Seq<(Seq<char>, u64)>) -> Double
    decreases lines.len(),
{
    if lines.len() == 0 {
        zero()
    } else {
        added_up(lines.drop_last()).spec_add(cloud_cost(lines.last().0, lines.last().1))
    }
}

/// The report tells the cost of each line, and the total rounded once.
pub open spec fn report_tells(report: CostReport, lines: Seq<(Seq<char>, u64)>) -> bool {
    &&& report.breakdown@.len() == lines.len()
    &&& forall|i: int|
        0 <= i < lines.len() ==> line_tells(
            #[trigger] report.breakdown@[i],
            lines[i].0,
            lines[i].1,
        )
    &&& report.total_estimated_egress_usd == to_four_places(added_up(lines))
}

/// Works out the report for the bytes of each cloud.
pub fn cost_report(rows: &Vec<(String, u64)>) -> (report: CostReport)
    ensures
        report_tells(report, lines_view(rows@)),
{
    let ghost lines = lines_view(rows@);
    let mut breakdown: Vec<CostLine> = Vec::new();
    let mut total = Double::zero_value();
    let mut i: usize = 0;
    assert(lines.take(0) =~= Seq::<(Seq<char>, u64)>::empty());
    while i < rows.len()
        invariant
            i <= rows@.len() == lines.len(),
            lines == lines_view(rows@),
            breakdown@.len() == i,
            forall|j: int|
                0 <= j < i ==> line_tells(#[trigger] breakdown@[j], lines[j].0, lines[j].1),
            total == added_up(lines.take(i as int)),
            total.valid(),
        decreases rows.len() - i,
    {
        let row = &rows[i];
        let bytes: u64 = row.1;
        proof {
            assert(lines[i as int] == (row.0@, row.1));
            assert(lines.take(i + 1).drop_last() =~= lines.take(i as int));
            assert(lines.take(i + 1).last() == (row.0@, row.1));
        }
        let gb = gigabytes(bytes);
        let rate = cloud_rate(row.0.as_str());
        let usd = gb.times(rate);
        breakdown.push(
            CostLine {
                provider: row.0.clone(),
                bytes_transferred: bytes,
                gb_transferred: two_places(gb),
                rate_per_gb_usd: rate,
                estimated_egress_usd: four_places(usd),
            },
        );
        total = total.plus(usd);
        i += 1;
    }
    assert(lines.take(i as int) =~= lines);
    CostReport { breakdown, total_estimated_egress_usd: four_places(total) }
}

/// Answers a request for the cost of all completed jobs.
pub fn cost_summary(store: &JobStore) -> (r: Result<CostReport, AppError>)
    ensures
        sums_fit(store@.jobs) ==> (r matches Ok(report) && report_tells(
            report,
            summary(store@.jobs),
        )),
        !sums_fit(store@.jobs) ==> breaks(r, StoreError::SumOverflow),
{
    match store.cost_summary() {
        Ok(rows) => Ok(cost_report(&rows)),
        Err(e) => Err(AppError::Internal(e.message().to_owned())),
    }
}

} // verus!
