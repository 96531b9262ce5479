use slate::api::{
    cancel_job, cancel_job_at, cost_report, cost_summary, create_cron, create_cron_at, create_job,
    create_job_at, delete_cron, event_for_job, get_cron, get_job, job_cost, list_jobs,
    stream_step, AppError, Created, StreamStep,
};
use slate::double::{Double, Signed};
use slate::job::{
    parse_status, status_str, CreateCronRequest, CreateJobRequest, CronJob, Job, JobStatus,
};
use slate::progress::ProgressEvent;
use slate::row::job_to_row;
use slate::schedule::{answer_for, day_field_text, earlier_of, next_cron_run};
use slate::store::JobStore;
use slate::table::StoreError;
use slate::time::{Timestamp, MAX_SECS};
use slate::worker::{
    fire_all, fire_at, fire_due, fire_due_at, on_progress, on_progress_at, run_job, run_job_at,
    search_from, start, webhook, CronTick, Draw, WorkerEvent,
};

fn at(secs: i64) -> Timestamp {
    Timestamp::new(secs, 0).unwrap()
}

/// 2026-01-01T00:00:00Z, a Thursday.
const NEW_YEAR: i64 = 1_767_225_600;
const DAY: i64 = 86_400;
const HOUR: i64 = 3_600;

fn request() -> CreateJobRequest {
    CreateJobRequest {
        src: "s3://bucket/data".to_string(),
        dst: "/out".to_string(),
        priority: None,
        max_attempts: None,
        run_after: None,
        depends_on: None,
        callback_url: None,
        cron: None,
    }
}

fn cron_request(cron: &str) -> CreateCronRequest {
    CreateCronRequest {
        src: "s3://data-lake/raw/".to_string(),
        dst: "gs://ml-staging/raw/".to_string(),
        cron: cron.to_string(),
        priority: Some(2),
        max_attempts: Some(5),
        callback_url: Some("https://hook".to_string()),
    }
}

fn job(id: u128) -> Job {
    Job::requested_at(request(), id, at(0))
}

fn next(expr: &str, secs: i64) -> i64 {
    let t = next_cron_run(expr, at(secs)).unwrap();
    assert_eq!(t.nanos, 0);
    t.secs
}

#[test]
fn standard_five_fields() {
    assert_eq!(next("0 2 * * *", NEW_YEAR), NEW_YEAR + 2 * HOUR);
    assert_eq!(next("0 2 * * *", NEW_YEAR + 2 * HOUR), NEW_YEAR + DAY + 2 * HOUR);
    assert_eq!(next("0 */6 * * *", NEW_YEAR), NEW_YEAR + 6 * HOUR);
    assert_eq!(next("*/5 * * * *", NEW_YEAR), NEW_YEAR + 300);
    assert_eq!(next("  30\t4  1 2 * ", NEW_YEAR), NEW_YEAR + 31 * DAY + 4 * HOUR + 1800);
}

#[test]
fn six_and_seven_fields() {
    assert_eq!(next("15 30 4 * * *", NEW_YEAR), NEW_YEAR + 4 * HOUR + 1815);
    assert_eq!(next("0 0 0 1 6 * 2027", NEW_YEAR), NEW_YEAR + (365 + 151) * DAY);
    assert_eq!(next("@daily", NEW_YEAR), NEW_YEAR + DAY);
}

#[test]
fn days_of_the_week_in_five_fields() {
    // Thursday is the first day of 2026.
    assert_eq!(next("0 0 * * 5", NEW_YEAR), NEW_YEAR + DAY);
    assert_eq!(next("0 0 * * 0", NEW_YEAR), NEW_YEAR + 3 * DAY);
    assert_eq!(next("0 0 * * 7", NEW_YEAR), NEW_YEAR + 3 * DAY);
    assert_eq!(next("0 0 * * 1-3", NEW_YEAR), NEW_YEAR + 4 * DAY);
    assert_eq!(next("0 0 * * MON", NEW_YEAR), NEW_YEAR + 4 * DAY);
    assert_eq!(next("0 0 * * 6-7", NEW_YEAR + 2 * DAY), NEW_YEAR + 3 * DAY);
    // In six fields the days count from 1 for Sunday.
    assert_eq!(next("0 0 0 * * 5", NEW_YEAR - 1), NEW_YEAR);
}

#[test]
fn either_day_will_do() {
    // The tenth is a Saturday; the Fridays are the second and the ninth.
    assert_eq!(next("0 0 10 * 5", NEW_YEAR), NEW_YEAR + DAY);
    assert_eq!(next("0 0 10 * 5", NEW_YEAR + 8 * DAY), NEW_YEAR + 9 * DAY);
    assert_eq!(next("0 0 10 * *", NEW_YEAR), NEW_YEAR + 9 * DAY);
}

#[test]
fn days_are_counted_from_sunday() {
    assert_eq!(day_field_text("*"), "*");
    assert_eq!(day_field_text("*/2"), "*/2");
    assert_eq!(day_field_text("0"), "1");
    assert_eq!(day_field_text("7"), "1");
    assert_eq!(day_field_text("1-5"), "2,3,4,5,6");
    assert_eq!(day_field_text("5-7"), "6,7,1");
    assert_eq!(day_field_text("0-6/2"), "1,3,5,7");
    assert_eq!(day_field_text("1/3"), "2,5");
    assert_eq!(day_field_text("7/2"), "1");
    assert_eq!(day_field_text("1,3,SAT"), "2,4,SAT");
    assert_eq!(day_field_text("MON-FRI"), "MON-FRI");
    assert_eq!(day_field_text("5-1"), "5-1");
    assert_eq!(day_field_text("8"), "8");
    assert_eq!(day_field_text("1-3/0"), "1-3/0");
    assert_eq!(day_field_text("1-3/+2"), "1-3/+2");
    assert_eq!(day_field_text("1-2-3"), "1-2-3");
    assert_eq!(day_field_text(""), "");
}

#[test]
fn expressions_that_are_none() {
    for expr in ["", "nonsense", "* * * *", "61 0 * * *", "0 0 * * 8", "0 0 * * 5-1", "a b c d e"] {
        assert_eq!(
            next_cron_run(expr, at(NEW_YEAR)),
            Err(format!(
                "invalid cron expression '{expr}': Invalid expression: Invalid cron expression."
            ))
        );
    }
}

#[test]
fn schedules_without_a_future() {
    assert_eq!(
        next_cron_run("0 0 0 1 1 * 2020", at(NEW_YEAR)),
        Err("cron '0 0 0 1 1 * 2020' has no future occurrences".to_string())
    );
    assert!(next_cron_run("0 2 * * *", at(4_133_980_800)).is_err());
    assert!(next_cron_run("0 0 30 2 *", at(NEW_YEAR)).is_err());
}

#[test]
fn answers_from_what_was_found() {
    assert_eq!(answer_for("e", Ok(Some(at(5)))), Ok(at(5)));
    assert_eq!(answer_for("e", Ok(None)), Err("cron 'e' has no future occurrences".to_string()));
    assert_eq!(
        answer_for("e", Err("why".to_string())),
        Err("invalid cron expression 'e': why".to_string())
    );
    assert_eq!(earlier_of(Ok(Some(at(5))), Ok(Some(at(4)))), Ok(Some(at(4))));
    assert_eq!(earlier_of(Ok(Some(at(3))), Ok(Some(at(4)))), Ok(Some(at(3))));
    assert_eq!(earlier_of(Ok(None), Ok(Some(at(4)))), Ok(Some(at(4))));
    assert_eq!(earlier_of(Ok(Some(at(3))), Ok(None)), Ok(Some(at(3))));
    assert_eq!(earlier_of(Ok(None), Err("b".to_string())), Err("b".to_string()));
    assert_eq!(earlier_of(Err("a".to_string()), Err("b".to_string())), Err("a".to_string()));
}

#[test]
fn statuses_and_their_words() {
    for (s, word) in [
        (JobStatus::Queued, "queued"),
        (JobStatus::Waiting, "waiting"),
        (JobStatus::Running, "running"),
        (JobStatus::Completed, "completed"),
        (JobStatus::Retrying, "retrying"),
        (JobStatus::Failed, "failed"),
        (JobStatus::Cancelled, "cancelled"),
    ] {
        assert_eq!(status_str(&s), word);
        assert_eq!(parse_status(word), s);
    }
    assert_eq!(parse_status("Running"), JobStatus::Queued);
    assert_eq!(parse_status(""), JobStatus::Queued);
}

#[test]
fn the_worker_fills_its_places() {
    let mut w = start(2);
    assert!(w.step(WorkerEvent::Tick).claim);
    assert!(!w.step(WorkerEvent::Tick).claim);
    let a = w.step(WorkerEvent::Claimed(Some(job(1))));
    assert_eq!(a.spawn.unwrap().id, 1);
    assert!(a.claim);
    let a = w.step(WorkerEvent::Claimed(Some(job(2))));
    assert_eq!(a.spawn.unwrap().id, 2);
    assert!(!a.claim);
    assert!(!w.step(WorkerEvent::Tick).claim);
    let a = w.step(WorkerEvent::Finished);
    assert!(a.spawn.is_none() && !a.claim);
    assert_eq!(w.running, 1);
    assert!(w.step(WorkerEvent::Tick).claim);
    let a = w.step(WorkerEvent::Claimed(None));
    assert!(a.spawn.is_none() && !a.claim);
    assert!(w.step(WorkerEvent::Tick).claim);
    assert!(!w.step(WorkerEvent::ClaimFailed).claim);
    assert_eq!((w.running, w.claiming), (1, false));
}

#[test]
fn a_worker_without_places_never_asks() {
    let mut w = start(0);
    assert!(!w.step(WorkerEvent::Tick).claim);
    w.step(WorkerEvent::Finished);
    assert_eq!(w.running, 0);
}

fn schedule(id: u128, cron: &str) -> CronJob {
    CronJob::requested_at(&cron_request(cron), id, at(NEW_YEAR), at(0))
}

#[test]
fn a_schedule_that_is_due_queues_a_job_and_moves_on() {
    let mut store = JobStore::new();
    store.create_cron_at(&cron_request("0 2 * * *"), at(NEW_YEAR), 5, at(0)).unwrap();
    let entry = store.get_cron(5).unwrap();
    let tick = fire_at(&mut store, &entry, 77, at(NEW_YEAR + 1), at(NEW_YEAR + 2));
    assert!(matches!(tick, CronTick::Advanced { cron_id: 5, job_id: 77, next }
        if next == at(NEW_YEAR + 2 * HOUR)));
    let queued = store.get(77).unwrap().unwrap();
    assert_eq!(queued.status, JobStatus::Queued);
    assert_eq!((queued.priority, queued.max_attempts), (2, 5));
    assert_eq!(queued.src, "s3://data-lake/raw/");
    assert_eq!(queued.callback_url.as_deref(), Some("https://hook"));
    assert_eq!(queued.created_at, at(NEW_YEAR + 1));
    let moved = store.get_cron(5).unwrap();
    assert_eq!(moved.last_job_id, Some(77));
    assert_eq!(moved.next_run_at, at(NEW_YEAR + 2 * HOUR));
    assert!(store.due_crons_at(at(NEW_YEAR + 2)).is_empty());
}

#[test]
fn a_schedule_whose_job_cannot_be_queued_stays_due() {
    let mut store = JobStore::new();
    store.create(&job(77)).unwrap();
    let tick = fire_at(&mut store, &schedule(5, "0 2 * * *"), 77, at(1), at(2));
    assert!(matches!(tick, CronTick::NotCreated { cron_id: 5 }));
}

#[test]
fn a_schedule_without_a_next_run_queues_its_job() {
    let mut store = JobStore::new();
    let entry = schedule(5, "rubbish");
    let tick = fire_at(&mut store, &entry, 77, at(1), at(2));
    match tick {
        CronTick::NoNext { cron_id: 5, job_id: 77, error } => assert_eq!(
            error,
            "invalid cron expression 'rubbish': Invalid expression: Invalid cron expression."
        ),
        other => panic!("{:?}", other),
    }
    assert!(store.get(77).unwrap().is_some());
}

#[test]
fn a_search_starts_now_but_not_in_the_last_second() {
    assert_eq!(search_from(at(NEW_YEAR)), at(NEW_YEAR));
    assert_eq!(search_from(at(MAX_SECS - 1)), at(MAX_SECS - 1));
    let last = Timestamp::new(MAX_SECS, 7).unwrap();
    assert_eq!(search_from(last), Timestamp::new(MAX_SECS - 1, 7).unwrap());
}

#[test]
fn everything_that_is_due_fires() {
    let mut store = JobStore::new();
    store.create_cron_at(&cron_request("0 2 * * *"), at(100), 1, at(0)).unwrap();
    store.create_cron_at(&cron_request("0 3 * * *"), at(200), 2, at(0)).unwrap();
    let far = at(4_000_000_000);
    store.create_cron_at(&cron_request("0 4 * * *"), far, 3, at(0)).unwrap();
    let ticks = fire_due(&mut store);
    assert_eq!(ticks.len(), 2);
    assert_eq!(store.list().unwrap().len(), 2);
    for (tick, id) in ticks.iter().zip([1u128, 2]) {
        match tick {
            CronTick::Advanced { cron_id, job_id, next } => {
                assert_eq!(*cron_id, id);
                let entry = store.get_cron(id).unwrap();
                assert_eq!(entry.last_job_id, Some(*job_id));
                assert_eq!(entry.next_run_at, *next);
                assert!(next.secs > NEW_YEAR);
            }
            other => panic!("{:?}", other),
        }
    }
    assert_eq!(store.get_cron(3).unwrap().next_run_at, far);
    assert!(fire_due(&mut store).is_empty());
}

#[test]
fn what_is_due_at_a_time_fires() {
    let mut store = JobStore::new();
    store.create_cron_at(&cron_request("0 2 * * *"), at(100), 1, at(0)).unwrap();
    store.create_cron_at(&cron_request("0 3 * * *"), at(200), 2, at(0)).unwrap();
    assert!(fire_due_at(&mut store, at(99)).is_empty());
    assert!(store.list().unwrap().is_empty());
    let ticks = fire_due_at(&mut store, at(100));
    assert!(matches!(ticks[..], [CronTick::Advanced { cron_id: 1, .. }]));
    assert_eq!(store.list().unwrap().len(), 1);
    assert_eq!(store.get_cron(2).unwrap().last_job_id, None);
}

#[test]
fn what_is_drawn_decides_what_fires() {
    let mut store = JobStore::new();
    store.create_cron_at(&cron_request("0 2 * * *"), at(100), 1, at(0)).unwrap();
    store.create_cron_at(&cron_request("rubbish"), at(100), 2, at(0)).unwrap();
    store.create_cron_at(&cron_request("0 4 * * *"), at(100), 3, at(0)).unwrap();
    let draw = |id: u128, day: i64| Draw {
        id,
        now: at(NEW_YEAR + day * DAY),
        asked: at(NEW_YEAR + day * DAY + 1),
    };
    let entries = store.due_crons_at(at(100));
    let ticks = fire_all(&mut store, &entries, &vec![draw(7, 0), draw(8, 1), draw(7, 2)]);
    assert_eq!(ticks.len(), 3);
    assert!(matches!(ticks[0], CronTick::Advanced { cron_id: 1, job_id: 7, next }
        if next == at(NEW_YEAR + 2 * HOUR)));
    assert!(matches!(ticks[1], CronTick::NoNext { cron_id: 2, job_id: 8, .. }));
    assert!(matches!(ticks[2], CronTick::NotCreated { cron_id: 3 }));
    assert_eq!(store.get(7).unwrap().unwrap().created_at, at(NEW_YEAR));
    assert_eq!(store.get(8).unwrap().unwrap().created_at, at(NEW_YEAR + DAY));
    assert_eq!(store.get_cron(1).unwrap().last_job_id, Some(7));
    assert_eq!(store.get_cron(3).unwrap().next_run_at, at(100));
    assert_eq!(store.list().unwrap().len(), 2);
}

fn report(bytes: u64, mbps: u64) -> ProgressEvent {
    ProgressEvent {
        job_id: 1,
        bytes_transferred: bytes,
        bytes_total: Some(100),
        throughput_mbps: Double::from_u64(mbps),
    }
}

#[test]
fn the_highest_throughput_is_kept() {
    let mut store = JobStore::new();
    store.create(&job(1)).unwrap();
    let mut peak = Double::zero_value();
    for (bytes, mbps, best) in [(10u64, 5u64, 5u64), (20, 9, 9), (30, 7, 9)] {
        peak = on_progress_at(&mut store, peak, &report(bytes, mbps), at(3));
        assert_eq!(peak, Double::from_u64(best));
        let j = store.get(1).unwrap().unwrap();
        assert_eq!((j.bytes_transferred, j.bytes_total), (bytes, Some(100)));
        assert_eq!(j.peak_throughput_mbps, Some(Signed::positive(Double::from_u64(best))));
    }
    assert_eq!(on_progress(&mut store, peak, &report(40, 11)), Double::from_u64(11));
    assert_eq!(store.get(1).unwrap().unwrap().bytes_transferred, 40);
}

fn running(id: u128, max_attempts: u32, url: Option<&str>) -> (JobStore, Job) {
    let mut req = request();
    req.max_attempts = Some(max_attempts);
    req.callback_url = url.map(|u| u.to_string());
    let mut store = JobStore::new();
    store.create(&Job::requested_at(req, id, at(0))).unwrap();
    let job = store.claim_next_at(at(1)).unwrap().unwrap();
    (store, job)
}

#[test]
fn a_completed_job_calls_back() {
    let (mut store, job) = running(1, 3, Some("https://hook"));
    let peak = Some(Signed::positive(Double::from_u64(8)));
    let hook = run_job_at(&mut store, &job, Ok(5), peak, at(9), at(9)).unwrap();
    assert_eq!((hook.url.as_str(), hook.event), ("https://hook", "completed"));
    assert_eq!((hook.job_id, hook.attempt), (1, 1));
    assert_eq!((hook.src.as_str(), hook.dst.as_str()), ("s3://bucket/data", "/out"));
    assert_eq!(hook.error, None);
    let done = store.get(1).unwrap().unwrap();
    assert_eq!(done.status, JobStatus::Completed);
    assert_eq!(done.peak_throughput_mbps, peak);
}

#[test]
fn a_job_without_a_url_calls_nobody() {
    let (mut store, job) = running(1, 3, None);
    assert!(run_job(&mut store, &job, Ok(5), None).is_none());
    assert_eq!(store.get(1).unwrap().unwrap().status, JobStatus::Completed);
    assert!(webhook(&job, "failed", Some("x")).is_none());
}

#[test]
fn only_the_last_failure_calls_back() {
    let (mut store, job) = running(1, 2, Some("https://hook"));
    assert!(run_job_at(&mut store, &job, Err("no".to_string()), None, at(9), at(9)).is_none());
    assert_eq!(store.get(1).unwrap().unwrap().status, JobStatus::Queued);
    let job = store.claim_next_at(at(1000)).unwrap().unwrap();
    let hook =
        run_job_at(&mut store, &job, Err("no".to_string()), None, at(1001), at(1001)).unwrap();
    assert_eq!((hook.event, hook.error.as_deref()), ("failed", Some("no")));
    assert_eq!(hook.attempt, 2);
    assert_eq!(store.get(1).unwrap().unwrap().status, JobStatus::Failed);
}

#[test]
fn the_end_of_a_job_that_is_gone() {
    let (_, job) = running(1, 1, Some("https://hook"));
    let mut empty = JobStore::new();
    assert!(run_job(&mut empty, &job, Err("no".to_string()), None).is_none());
}

#[test]
fn jobs_are_created() {
    let mut store = JobStore::new();
    match create_job(&mut store, request()) {
        Ok(Created::Job(made)) => {
            assert_eq!(store.get(made.id).unwrap().unwrap().id, made.id);
            assert_eq!(made.status, JobStatus::Queued);
        }
        other => panic!("{:?}", other),
    }
    assert!(matches!(
        create_job_at(&mut store, request(), 4, at(5), at(6)),
        Ok(Created::Job(ref made)) if made.id == 4 && made.created_at == at(5)
    ));
    match create_job_at(&mut store, request(), 4, at(5), at(6)) {
        Err(e) => {
            assert_eq!(e.status(), 500);
            assert_eq!(
                e.body(),
                "error returned from database: (code: 1555) UNIQUE constraint failed: jobs.id"
            );
        }
        other => panic!("{:?}", other),
    }
}

#[test]
fn a_dependency_must_exist() {
    let mut store = JobStore::new();
    let mut req = request();
    req.depends_on = Some(0xabc);
    match create_job(&mut store, req) {
        Err(e) => {
            assert_eq!(e.status(), 400);
            assert_eq!(
                e.body(),
                "depends_on job 00000000-0000-0000-0000-000000000abc does not exist"
            );
        }
        other => panic!("{:?}", other),
    }
    assert!(store.list().unwrap().is_empty());
    store.create(&job(0xabc)).unwrap();
    let mut req = request();
    req.depends_on = Some(0xabc);
    assert!(create_job(&mut store, req).is_ok());
}

#[test]
fn a_job_with_a_cron_expression_is_a_schedule() {
    let mut store = JobStore::new();
    let mut req = request();
    req.cron = Some("0 2 * * *".to_string());
    req.priority = Some(4);
    match create_job_at(&mut store, req, 8, at(NEW_YEAR), at(NEW_YEAR)) {
        Ok(Created::Schedule(entry)) => {
            assert_eq!((entry.id, entry.priority, entry.max_attempts), (8, 4, 3));
            assert_eq!(entry.next_run_at, at(NEW_YEAR + 2 * HOUR));
        }
        other => panic!("{:?}", other),
    }
    assert!(store.list().unwrap().is_empty());
    assert_eq!(store.list_crons().len(), 1);
    let mut req = request();
    req.cron = Some("never".to_string());
    assert!(matches!(create_job(&mut store, req), Err(AppError::BadRequest(_))));
}

#[test]
fn schedules_are_created_shown_and_deleted() {
    let mut store = JobStore::new();
    let entry = create_cron(&mut store, &cron_request("0 */6 * * *")).unwrap();
    assert!(entry.next_run_at.secs > entry.created_at.secs);
    assert_eq!(entry.next_run_at.secs % (6 * HOUR), 0);
    assert_eq!(get_cron(&store, entry.id).unwrap().cron, "0 */6 * * *");
    assert!(delete_cron(&mut store, entry.id).is_ok());
    let gone = delete_cron(&mut store, entry.id).err().unwrap();
    assert_eq!((gone.status(), gone.body().as_str()), (404, "not found"));
    assert!(matches!(get_cron(&store, entry.id), Err(AppError::NotFound)));
    let bad = create_cron(&mut store, &cron_request("61 * * * *")).err().unwrap();
    assert_eq!(bad.status(), 400);
    assert_eq!(
        bad.body(),
        "invalid cron expression '61 * * * *': Invalid expression: Invalid cron expression."
    );
    create_cron_at(&mut store, &cron_request("0 2 * * *"), 1, at(0), at(0)).unwrap();
    let twice = create_cron_at(&mut store, &cron_request("0 2 * * *"), 1, at(0), at(0));
    let twice = twice.err().unwrap();
    assert_eq!(twice.status(), 500);
    assert_eq!(
        twice.body(),
        "error returned from database: (code: 1555) UNIQUE constraint failed: crons.id"
    );
}

#[test]
fn jobs_are_shown_and_cancelled() {
    let mut store = JobStore::new();
    assert!(matches!(get_job(&store, 1), Err(AppError::NotFound)));
    store.create(&job(1)).unwrap();
    assert_eq!(get_job(&store, 1).unwrap().id, 1);
    assert!(cancel_job_at(&mut store, 1, at(5)).is_ok());
    assert_eq!(store.get(1).unwrap().unwrap().updated_at, at(5));
    let e = cancel_job(&mut store, 1).err().unwrap();
    assert_eq!(e.status(), 400);
    assert_eq!(e.body(), "job not found or is already running/completed");
}

#[test]
fn events_of_a_job() {
    assert!(event_for_job(&report(1, 1), 1));
    assert!(!event_for_job(&report(1, 1), 2));
    assert_eq!(stream_step(Some(&report(1, 1)), 1), StreamStep::Send);
    assert_eq!(stream_step(Some(&report(1, 1)), 2), StreamStep::Skip);
    assert_eq!(stream_step(None, 1), StreamStep::End);
}

#[test]
fn the_cost_of_a_job() {
    let mut store = JobStore::new();
    let mut j = job(1);
    j.bytes_transferred = 2_684_354_560;
    store.create(&j).unwrap();
    let cost = job_cost(&store, 1).unwrap();
    assert_eq!((cost.job_id, cost.provider), (1, "AWS S3"));
    assert_eq!(cost.src, "s3://bucket/data");
    assert_eq!(cost.bytes_transferred, 2_684_354_560);
    assert_eq!(cost.rate_per_gb_usd.to_bits(), 0.09f64.to_bits());
    let usd: f64 = 2_684_354_560.0 / 1_073_741_824.0 * 0.09;
    assert_eq!(
        cost.estimated_egress_usd.to_bits(),
        ((usd * 10000.0).round() / 10000.0).to_bits()
    );
    assert!(matches!(job_cost(&store, 2), Err(AppError::NotFound)));
}

#[test]
fn the_cost_of_everything() {
    let rows = vec![
        ("aws".to_string(), 123_456_789_012u64),
        ("azure".to_string(), 5_000_000_000),
        ("gcp".to_string(), 77),
        ("local".to_string(), 9_999_999_999),
    ];
    let report = cost_report(&rows);
    let mut total = 0.0f64;
    for (line, (name, bytes)) in report.breakdown.iter().zip(rows.iter()) {
        let rate = match name.as_str() {
            "aws" => 0.09,
            "gcp" => 0.12,
            "azure" => 0.087,
            _ => 0.0,
        };
        let gb = *bytes as f64 / 1_073_741_824.0;
        total += gb * rate;
        assert_eq!(&line.provider, name);
        assert_eq!(line.bytes_transferred, *bytes);
        assert_eq!(line.gb_transferred.to_bits(), ((gb * 100.0).round() / 100.0).to_bits());
        assert_eq!(line.rate_per_gb_usd.to_bits(), f64::to_bits(rate));
        assert_eq!(
            line.estimated_egress_usd.to_bits(),
            ((gb * rate * 10000.0).round() / 10000.0).to_bits()
        );
    }
    assert_eq!(
        report.total_estimated_egress_usd.to_bits(),
        ((total * 10000.0).round() / 10000.0).to_bits()
    );
    assert_eq!(report.breakdown.len(), 4);
}

#[test]
fn the_cost_of_a_store() {
    let mut store = JobStore::new();
    let empty = cost_summary(&store).unwrap();
    assert!(empty.breakdown.is_empty());
    assert_eq!(empty.total_estimated_egress_usd, Double::zero_value());
    for id in [1u128, 2] {
        let mut j = job(id);
        j.status = JobStatus::Completed;
        j.bytes_transferred = i64::MAX as u64;
        store.create(&j).unwrap();
        if id == 1 {
            assert_eq!(cost_summary(&store).unwrap().breakdown[0].provider, "aws");
        }
    }
    let e = cost_summary(&store).err().unwrap();
    assert_eq!(e.status(), 500);
    assert_eq!(e.body(), "error returned from database: (code: 1) integer overflow");
}

#[test]
fn words_for_what_the_store_cannot_do() {
    assert_eq!(
        StoreError::NoSuchJob.message(),
        "no rows returned by a query that expected to return at least one row"
    );
    assert_eq!(StoreError::TimeOutOfRange.message(), "time out of range");
}

#[test]
fn a_row_that_cannot_be_read_is_no_answer() {
    let mut row = job_to_row(&job(1));
    row.created_at = "?".to_string();
    let mut store = JobStore::load(vec![row], &vec![]).unwrap();
    for e in [get_job(&store, 1).err().unwrap(), job_cost(&store, 1).err().unwrap()] {
        assert_eq!((e.status(), e.body().as_str()), (500, "a row cannot be read"));
    }
    let mut req = request();
    req.depends_on = Some(1);
    let e = create_job(&mut store, req).err().unwrap();
    assert_eq!((e.status(), e.body().as_str()), (500, "a row cannot be read"));
    let e = list_jobs(&store).err().unwrap();
    assert_eq!((e.status(), e.body().as_str()), (500, "a row cannot be read"));
    assert!(cancel_job(&mut store, 1).is_ok());
}

#[test]
fn jobs_are_listed() {
    let mut store = JobStore::new();
    assert!(list_jobs(&store).unwrap().is_empty());
    store.create(&job(3)).unwrap();
    assert_eq!(list_jobs(&store).unwrap()[0].id, 3);
}
