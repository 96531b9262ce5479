//! What holds of the answers of the API.
use vstd::prelude::*;
use crate::api::{
    added_up, breaks, cost_tells, cron_answered, job_answered, line_tells, refuses,
    report_tells, schedule_request, step_for, AppError, CostReport, Created, JobCost, StreamStep,
};
use crate::cost::{gigabytes_of, provider_of, rate_by_name, rate_of, to_four_places, to_two_places};
use crate::double::zero;
use crate::ids::id_chars;
use crate::job::{CreateCronRequestView, CreateJobRequestView, CronJob, JobStatus, JobView};
use crate::progress::ProgressEvent;
use crate::schedule::{answer, next_found};
use crate::table::{StoreError, StoreView};
use crate::time::{rfc3339, Timestamp};

verus! {

/// The codes of the answers, and what they say.
pub proof fn codes(e: AppError, error: StoreError)
    ensures
        e is NotFound ==> e.code() == 404 && e.text() == "not found"@,
        e matches AppError::BadRequest(words) ==> e.code() == 400 && e.text() == words@,
        e matches AppError::Internal(words) ==> e.code() == 500 && e.text() == words@,
        error == StoreError::NoSuchJob ==> error.text()
            == "no rows returned by a query that expected to return at least one row"@,
        error == StoreError::DuplicateId ==> error.text()
            == "error returned from database: (code: 1555) UNIQUE constraint failed: jobs.id"@,
        error == StoreError::DuplicateCron ==> error.text()
            == "error returned from database: (code: 1555) UNIQUE constraint failed: crons.id"@,
        error == StoreError::SumOverflow ==> error.text()
            == "error returned from database: (code: 1) integer overflow"@,
{
}

/// A request that is refused is answered with 400 and the reason, and a failure of the
/// store with 500 and its words.
pub proof fn refusals<T>(r: Result<T, AppError>, text: Seq<char>, error: StoreError)
    ensures
        refuses(r, text) ==> (r matches Err(e) && e.code() == 400 && e.text() == text),
        breaks(r, error) ==> (r matches Err(e) && e.code() == 500 && e.text() == error.text()),
{
}

/// A request for a job without a cron expression queues one job, which is what the request
/// asks for, and changes nothing else.
pub proof fn requests_queue_jobs(
    before: StoreView,
    req: CreateJobRequestView,
    id: u128,
    now: Timestamp,
    asked: Timestamp,
    r: Result<Created, AppError>,
    after: StoreView,
)
    requires
        job_answered(before, req, id, now, asked, r, after),
        req.cron is None,
        !before.has_job(id),
        req.depends_on matches Some(dep) ==> before.job(dep) matches Some(row) && row.readable(),
    ensures
        r matches Ok(Created::Job(job)) && job@.src == req.src && job@.dst == req.dst
            && job@.depends_on == req.depends_on && job@.run_after == req.run_after
            && job@.callback_url == req.callback_url && job@.id == id && job@.status
            == JobStatus::Queued && job@.created_at == now,
        after.crons == before.crons,
        after.jobs.len() == before.jobs.len() + 1,
        after.jobs.drop_last() == before.jobs,
        after.jobs.last().id == id_chars(id),
        after.jobs.last().src == req.src,
        after.jobs.last().dst == req.dst,
        after.jobs.last().status == "queued"@,
        after.jobs.last().created_at == rfc3339(now.secs, now.nanos),
        req.priority matches Some(p) ==> after.jobs.last().priority == p,
        req.priority is None ==> after.jobs.last().priority == 0,
        req.max_attempts matches Some(n) ==> after.jobs.last().max_attempts == n,
        req.max_attempts is None ==> after.jobs.last().max_attempts == 3,
        req.depends_on matches Some(dep) ==> after.jobs.last().depends_on == Some(id_chars(dep)),
        req.depends_on is None ==> after.jobs.last().depends_on is None,
        req.run_after matches Some(t) ==> after.jobs.last().run_after == Some(
            rfc3339(t.secs, t.nanos),
        ),
        req.run_after is None ==> after.jobs.last().run_after is None,
        after.jobs.last().callback_url == req.callback_url,
{
    if let Some(dep) = req.depends_on {
        assert(before.has_job(dep));
    }
    assert(after.jobs.drop_last() =~= before.jobs);
}

/// A request for a job with a cron expression adds one schedule and no job, and the
/// schedule is what the request asks for.
pub proof fn requests_with_cron_make_schedules(
    before: StoreView,
    req: CreateJobRequestView,
    id: u128,
    now: Timestamp,
    asked: Timestamp,
    r: Result<Created, AppError>,
    after: StoreView,
    expr: Seq<char>,
)
    requires
        job_answered(before, req, id, now, asked, r, after),
        req.cron == Some(expr),
        req.depends_on is None,
        !before.has_cron(id),
    ensures
        after.jobs == before.jobs,
        answer(expr, next_found(expr, asked)) matches Ok(next) ==> {
            &&& r matches Ok(Created::Schedule(entry)) && entry@ == after.crons.last()
            &&& after.crons.len() == before.crons.len() + 1
            &&& after.crons.drop_last() == before.crons
            &&& after.crons.last().id == id
            &&& after.crons.last().src == req.src
            &&& after.crons.last().dst == req.dst
            &&& after.crons.last().cron == expr
            &&& after.crons.last().next_run_at == next
            &&& after.crons.last().created_at == now
            &&& after.crons.last().enabled
            &&& after.crons.last().callback_url == req.callback_url
            &&& req.priority matches Some(p) ==> after.crons.last().priority == p
            &&& req.max_attempts matches Some(n) ==> after.crons.last().max_attempts == n
        },
        answer(expr, next_found(expr, asked)) matches Err(why) ==> after == before && (r matches Err(
            e,
        ) && e.code() == 400 && e.text() == why),
{
    if let Ok(next) = answer(expr, next_found(expr, asked)) {
        assert(after.crons.drop_last() =~= before.crons);
    }
}

/// A request for a schedule adds one, which is what the request asks for, or is refused.
pub proof fn schedule_requests_make_schedules(
    before: StoreView,
    req: CreateCronRequestView,
    id: u128,
    now: Timestamp,
    asked: Timestamp,
    r: Result<CronJob, AppError>,
    after: StoreView,
)
    requires
        cron_answered(before, req, id, now, asked, r, after),
        !before.has_cron(id),
    ensures
        after.jobs == before.jobs,
        answer(req.cron, next_found(req.cron, asked)) matches Ok(next) ==> {
            &&& r matches Ok(entry) && entry@ == after.crons.last()
            &&& after.crons.len() == before.crons.len() + 1
            &&& after.crons.drop_last() == before.crons
            &&& after.crons.last().id == id
            &&& after.crons.last().src == req.src
            &&& after.crons.last().dst == req.dst
            &&& after.crons.last().cron == req.cron
            &&& after.crons.last().next_run_at == next
            &&& after.crons.last().enabled
        },
        answer(req.cron, next_found(req.cron, asked)) matches Err(why) ==> after == before && (
        r matches Err(e) && e.code() == 400 && e.text() == why),
{
    if let Ok(next) = answer(req.cron, next_found(req.cron, asked)) {
        assert(after.crons.drop_last() =~= before.crons);
    }
}

/// A request that does not succeed changes nothing, and each reason has its answer.
pub proof fn failed_requests_change_nothing(
    before: StoreView,
    req: CreateJobRequestView,
    id: u128,
    now: Timestamp,
    asked: Timestamp,
    r: Result<Created, AppError>,
    after: StoreView,
)
    requires
        job_answered(before, req, id, now, asked, r, after),
    ensures
        r is Err ==> after == before,
        r is Ok ==> after != before,
        req.depends_on matches Some(dep) ==> (before.job(dep) is None ==> (r matches Err(e)
            && e.code() == 400 && e.text() == "depends_on job "@ + id_chars(dep)
            + " does not exist"@)),
        req.depends_on is None && req.cron is None ==> (r is Err <==> before.has_job(id)),
{
    if r is Ok {
        if req.cron is None {
            assert(after.jobs.len() == before.jobs.len() + 1);
        } else {
            assert(after.crons.len() == before.crons.len() + 1);
        }
    }
}

/// The schedule that a request for a job asks for has the request's own parts.
pub proof fn schedule_requests_keep_their_parts(req: CreateJobRequestView, expr: Seq<char>)
    requires
        req.cron == Some(expr),
    ensures
        schedule_request(req).src == req.src,
        schedule_request(req).dst == req.dst,
        schedule_request(req).cron == expr,
        schedule_request(req).priority == req.priority,
        schedule_request(req).max_attempts == req.max_attempts,
        schedule_request(req).callback_url == req.callback_url,
{
}

/// A cost report has a line for each cloud, in order, with its bytes, its price and what
/// they cost, and the total is that of all lines.
pub proof fn reports_have_a_line_for_each_cloud(
    report: CostReport,
    lines: Seq<(Seq<char>, u64)>,
    i: int,
)
    requires
        report_tells(report, lines),
        0 <= i < lines.len(),
    ensures
        report.breakdown@.len() == lines.len(),
        report.breakdown@[i].provider@ == lines[i].0,
        report.breakdown@[i].bytes_transferred == lines[i].1,
        report.breakdown@[i].rate_per_gb_usd == rate_by_name(lines[i].0),
        report.breakdown@[i].gb_transferred == to_two_places(gigabytes_of(lines[i].1)),
        report.breakdown@[i].estimated_egress_usd == to_four_places(
            gigabytes_of(lines[i].1).spec_mul(rate_by_name(lines[i].0)),
        ),
        report.total_estimated_egress_usd == to_four_places(added_up(lines)),
{
    assert(line_tells(report.breakdown@[i], lines[i].0, lines[i].1));
}

/// The total grows by the cost of each line, and starts at nothing.
pub proof fn totals_add_up(lines: Seq<(Seq<char>, u64)>, name: Seq<char>, bytes: u64)
    ensures
        added_up(Seq::empty()) == zero(),
        added_up(lines.push((name, bytes))) == added_up(lines).spec_add(
            gigabytes_of(bytes).spec_mul(rate_by_name(name)),
        ),
{
    assert(lines.push((name, bytes)).drop_last() =~= lines);
}

/// Every report of a job goes out, whatever it says, none of another job does, and the
/// stream ends if and only if receiving fails.
pub proof fn streams_send_their_own_reports(received: Option<&ProgressEvent>, id: u128)
    ensures
        received matches Some(event) ==> (step_for(received, id) == StreamStep::Send
            <==> event.job_id == id),
        received matches Some(event) ==> (step_for(received, id) == StreamStep::Skip
            <==> event.job_id != id),
        step_for(received, id) == StreamStep::End <==> received is None,
{
}

/// The cost of a job is that of its own bytes out of its own source.
pub proof fn costs_are_those_of_the_job(cost: JobCost, id: u128, job: JobView)
    requires
        cost_tells(cost, id, job),
    ensures
        cost.job_id == id,
        cost.src@ == job.src,
        cost.bytes_transferred == job.bytes_transferred,
        cost.provider@ == provider_of(job.src),
        cost.rate_per_gb_usd == rate_of(job.src),
        cost.estimated_egress_usd == to_four_places(
            gigabytes_of(job.bytes_transferred).spec_mul(rate_of(job.src)),
        ),
{
}

} // verus!
