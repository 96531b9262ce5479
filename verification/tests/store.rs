use slate::double::{Double, Signed};
use slate::job::{CreateCronRequest, CreateJobRequest, CronJob, Job, JobStatus};
use slate::row::{cron_to_row, job_to_row, read_cron, read_job, row_to_job, JobRow};
use slate::store::{backoff_secs, source_cloud, JobStore};
use slate::table::{Cloud, StoreError};
use slate::time::{parse_opt_dt, Timestamp, MAX_SECS};

fn at(secs: i64) -> Timestamp {
    Timestamp::new(secs, 0).unwrap()
}

fn speed(mbps: u64) -> Signed {
    Signed::positive(Double::from_u64(mbps))
}

fn request(src: &str) -> CreateJobRequest {
    CreateJobRequest {
        src: src.to_string(),
        dst: "/mnt/out".to_string(),
        priority: None,
        max_attempts: None,
        run_after: None,
        depends_on: None,
        callback_url: None,
        cron: None,
    }
}

fn job(id: u128, created: i64) -> Job {
    Job::requested_at(request("s3://bucket/data"), id, at(created))
}

fn cron_request() -> CreateCronRequest {
    CreateCronRequest {
        src: "s3://data-lake/raw/".to_string(),
        dst: "gs://ml-staging/raw/".to_string(),
        cron: "0 2 * * *".to_string(),
        priority: None,
        max_attempts: None,
        callback_url: None,
    }
}

#[test]
fn a_new_job_has_the_defaults() {
    let job = Job::new(request("s3://a"));
    assert_eq!(job.status, JobStatus::Queued);
    assert_eq!(job.priority, 0);
    assert_eq!(job.attempt, 0);
    assert_eq!(job.max_attempts, 3);
    assert_eq!(job.bytes_transferred, 0);
    assert_eq!(job.bytes_total, None);
    assert_eq!(job.created_at, job.updated_at);
    assert!(job.created_at.secs > 1_600_000_000);
    assert_eq!((job.id >> 76) & 0xf, 4);
    assert_ne!(job.id, Job::new(request("s3://a")).id);
}

#[test]
fn a_request_fills_the_job() {
    let mut req = request("s3://a");
    req.priority = Some(10);
    req.max_attempts = Some(5);
    req.run_after = Some(at(99));
    req.depends_on = Some(7);
    req.callback_url = Some("https://hook".to_string());
    let job = Job::requested_at(req, 1, at(5));
    assert_eq!(job.priority, 10);
    assert_eq!(job.max_attempts, 5);
    assert_eq!(job.run_after, Some(at(99)));
    assert_eq!(job.depends_on, Some(7));
    assert_eq!(job.callback_url.as_deref(), Some("https://hook"));
}

#[test]
fn progress_in_percent() {
    let mut j = job(1, 0);
    assert_eq!(j.progress_pct(), None);
    j.bytes_total = Some(0);
    assert_eq!(j.progress_pct(), Some(Double::from_u64(100)));
    j.bytes_total = Some(3);
    j.bytes_transferred = 1;
    assert_eq!(j.progress_pct().unwrap().to_bits(), ((1.0f64 / 3.0) * 100.0).to_bits());
}

#[test]
fn created_jobs_can_be_got() {
    let mut store = JobStore::new();
    assert!(store.get(1).unwrap().is_none());
    assert_eq!(store.create(&job(1, 10)), Ok(()));
    assert_eq!(store.get(1).unwrap().unwrap().src, "s3://bucket/data");
    assert_eq!(store.create(&job(1, 20)), Err(StoreError::DuplicateId));
    assert_eq!(store.get(1).unwrap().unwrap().created_at, at(10));
}

#[test]
fn claims_go_by_priority_and_then_by_age() {
    let mut store = JobStore::new();
    let mut urgent = job(3, 30);
    urgent.priority = 10;
    store.create(&job(1, 20)).unwrap();
    store.create(&job(2, 10)).unwrap();
    store.create(&urgent).unwrap();
    let first = store.claim_next_at(at(100)).unwrap().unwrap();
    assert_eq!(first.id, 3);
    assert_eq!(first.status, JobStatus::Running);
    assert_eq!(first.attempt, 1);
    assert_eq!(first.started_at, Some(at(100)));
    assert_eq!(store.get(3).unwrap().unwrap().status, JobStatus::Running);
    assert_eq!(store.claim_next_at(at(100)).unwrap().unwrap().id, 2);
    assert_eq!(store.claim_next_at(at(100)).unwrap().unwrap().id, 1);
    assert!(store.claim_next_at(at(100)).unwrap().is_none());
}

#[test]
fn equal_claims_go_by_insertion() {
    let mut store = JobStore::new();
    store.create(&job(8, 10)).unwrap();
    store.create(&job(2, 10)).unwrap();
    assert_eq!(store.claim_next_at(at(100)).unwrap().unwrap().id, 8);
}

#[test]
fn a_job_waits_for_its_time() {
    let mut store = JobStore::new();
    let mut later = job(1, 0);
    later.run_after = Some(Timestamp::new(50, 5).unwrap());
    store.create(&later).unwrap();
    assert!(store.claim_next_at(at(50)).unwrap().is_none());
    assert_eq!(store.claim_next_at(Timestamp::new(50, 5).unwrap()).unwrap().unwrap().id, 1);
}

#[test]
fn a_job_waits_for_what_it_depends_on() {
    let mut store = JobStore::new();
    let mut second = job(2, 0);
    second.depends_on = Some(1);
    second.priority = 100;
    store.create(&job(1, 5)).unwrap();
    store.create(&second).unwrap();
    assert_eq!(store.claim_next_at(at(10)).unwrap().unwrap().id, 1);
    assert!(store.claim_next_at(at(11)).unwrap().is_none());
    store.set_completed_at(1, None, at(12));
    assert_eq!(store.claim_next_at(at(13)).unwrap().unwrap().id, 2);
}

#[test]
fn a_job_with_a_dependency_that_is_not_there_waits() {
    let mut store = JobStore::new();
    let mut orphan = job(2, 0);
    orphan.depends_on = Some(1);
    store.create(&orphan).unwrap();
    assert!(store.claim_next_at(at(10)).unwrap().is_none());
}

#[test]
fn claiming_by_the_clock() {
    let mut store = JobStore::new();
    store.create(&job(1, 0)).unwrap();
    let claimed = store.claim_next().unwrap().unwrap();
    assert!(claimed.started_at.unwrap().secs > 1_600_000_000);
    assert!(store.claim_next().unwrap().is_none());
}

#[test]
fn the_attempt_wraps() {
    let mut store = JobStore::new();
    let mut old = job(1, 0);
    old.attempt = u32::MAX;
    store.create(&old).unwrap();
    assert_eq!(store.claim_next_at(at(1)).unwrap().unwrap().attempt, 0);
}

#[test]
fn waits_between_attempts() {
    assert_eq!(backoff_secs(1), 30);
    assert_eq!(backoff_secs(2), 300);
    assert_eq!(backoff_secs(3), 1800);
    assert_eq!(backoff_secs(0), 1800);
    assert_eq!(backoff_secs(77), 1800);
}

#[test]
fn a_job_is_tried_until_its_attempts_are_used_up() {
    let mut store = JobStore::new();
    store.create(&job(1, 0)).unwrap();
    let mut now = 1000;
    for (attempt, wait) in [(1u32, 30i64), (2, 300)] {
        assert_eq!(store.claim_next_at(at(now)).unwrap().unwrap().attempt, attempt);
        assert_eq!(store.set_failed_at(1, "boom", at(now), at(now + 1)), Ok(()));
        let j = store.get(1).unwrap().unwrap();
        assert_eq!(j.status, JobStatus::Queued);
        assert_eq!(j.run_after, Some(at(now + 1 + wait)));
        assert_eq!(j.error.as_deref(), Some("boom"));
        assert_eq!(j.completed_at, None);
        assert!(store.claim_next_at(at(now + wait)).unwrap().is_none());
        now = now + 1 + wait;
    }
    assert_eq!(store.claim_next_at(at(now)).unwrap().unwrap().attempt, 3);
    assert_eq!(store.set_failed_at(1, "boom again", at(now), at(now)), Ok(()));
    let j = store.get(1).unwrap().unwrap();
    assert_eq!(j.status, JobStatus::Failed);
    assert_eq!(j.completed_at, Some(at(now)));
    assert_eq!(j.error.as_deref(), Some("boom again"));
    assert!(store.claim_next_at(at(now + 100000)).unwrap().is_none());
}

#[test]
fn failures_that_cannot_be_recorded() {
    let mut store = JobStore::new();
    assert_eq!(store.set_failed(1, "x"), Err(StoreError::NoSuchJob));
    store.create(&job(1, 0)).unwrap();
    store.claim_next_at(at(1)).unwrap().unwrap();
    assert_eq!(
        store.set_failed_at(1, "x", at(2), at(MAX_SECS - 29)),
        Err(StoreError::TimeOutOfRange)
    );
    assert_eq!(store.get(1).unwrap().unwrap().status, JobStatus::Running);
    assert_eq!(store.set_failed_at(1, "x", at(2), at(MAX_SECS - 30)), Ok(()));
    assert_eq!(store.get(1).unwrap().unwrap().run_after, Some(at(MAX_SECS)));
}

#[test]
fn failing_by_the_clock() {
    let mut store = JobStore::new();
    store.create(&job(1, 0)).unwrap();
    store.claim_next_at(at(1)).unwrap().unwrap();
    assert_eq!(store.set_failed(1, "x"), Ok(()));
    let j = store.get(1).unwrap().unwrap();
    let wait = j.run_after.unwrap().secs - j.updated_at.secs;
    assert!(wait == 30 || wait == 31);
}

#[test]
fn completion_clears_the_error() {
    let mut store = JobStore::new();
    store.create(&job(1, 0)).unwrap();
    store.claim_next_at(at(1)).unwrap().unwrap();
    store.set_failed_at(1, "x", at(2), at(2)).unwrap();
    store.claim_next_at(at(100)).unwrap().unwrap();
    store.set_completed_at(1, Some(speed(512)), at(200));
    let j = store.get(1).unwrap().unwrap();
    assert_eq!(j.status, JobStatus::Completed);
    assert_eq!(j.error, None);
    assert_eq!(j.completed_at, Some(at(200)));
    assert_eq!(j.peak_throughput_mbps, Some(speed(512)));
}

#[test]
fn what_is_not_there_is_not_updated() {
    let mut store = JobStore::new();
    store.set_completed(5, None);
    store.update_progress(5, 1, None, None);
    assert!(store.get(5).unwrap().is_none());
    assert!(!store.cancel(5));
}

#[test]
fn progress_is_recorded() {
    let mut store = JobStore::new();
    store.create(&job(1, 0)).unwrap();
    store.update_progress_at(1, 10, Some(40), Some(speed(3)), at(7));
    let j = store.get(1).unwrap().unwrap();
    assert_eq!((j.bytes_transferred, j.bytes_total), (10, Some(40)));
    assert_eq!(j.peak_throughput_mbps, Some(speed(3)));
    assert_eq!(j.updated_at, at(7));
    store.update_progress_at(1, 11, None, Some(Signed::positive(Double::Nan)), at(8));
    assert_eq!(store.get(1).unwrap().unwrap().peak_throughput_mbps, None);
    store.update_progress(1, 12, None, None);
    assert!(store.get(1).unwrap().unwrap().updated_at.secs > 1_600_000_000);
}

#[test]
fn only_jobs_that_have_not_started_are_cancelled() {
    let mut store = JobStore::new();
    store.create(&job(1, 0)).unwrap();
    store.create(&job(2, 1)).unwrap();
    assert!(store.cancel_at(1, at(5)));
    assert_eq!(store.get(1).unwrap().unwrap().status, JobStatus::Cancelled);
    assert!(!store.cancel_at(1, at(6)));
    assert_eq!(store.claim_next_at(at(7)).unwrap().unwrap().id, 2);
    assert!(!store.cancel_at(2, at(8)));
    assert_eq!(store.get(2).unwrap().unwrap().status, JobStatus::Running);
    let mut retrying = job(3, 2);
    retrying.status = JobStatus::Retrying;
    store.create(&retrying).unwrap();
    assert!(store.cancel(3));
    for (id, status) in [
        (4u128, JobStatus::Waiting),
        (5, JobStatus::Completed),
        (6, JobStatus::Failed),
    ] {
        let mut j = job(id, 3);
        j.status = status;
        store.create(&j).unwrap();
        assert!(!store.cancel(id));
        assert_eq!(store.get(id).unwrap().unwrap().status, status);
    }
}

#[test]
fn listing_shows_the_urgent_and_the_young_first() {
    let mut store = JobStore::new();
    let mut urgent = job(9, 1);
    urgent.priority = 5;
    store.create(&job(1, 10)).unwrap();
    store.create(&job(2, 20)).unwrap();
    store.create(&urgent).unwrap();
    store.create(&job(3, 20)).unwrap();
    let ids: Vec<u128> = store.list().unwrap().iter().map(|j| j.id).collect();
    assert_eq!(ids, vec![9, 2, 3, 1]);
}

#[test]
fn a_listing_is_limited() {
    let mut store = JobStore::new();
    assert!(store.list().unwrap().is_empty());
    for i in 0..250 {
        store.create(&job(i as u128, i)).unwrap();
    }
    let list = store.list().unwrap();
    assert_eq!(list.len(), 200);
    assert_eq!(list[0].id, 249);
    assert_eq!(list[199].id, 50);
}

#[test]
fn clouds_by_scheme() {
    assert_eq!(source_cloud("s3://b"), Cloud::Aws);
    assert_eq!(source_cloud("S3://b"), Cloud::Aws);
    assert_eq!(source_cloud("gS://b"), Cloud::Gcp);
    assert_eq!(source_cloud("AZ://b"), Cloud::Azure);
    assert_eq!(source_cloud("/s3://b"), Cloud::Local);
    assert_eq!(source_cloud("s3:"), Cloud::Local);
    assert_eq!(source_cloud(""), Cloud::Local);
}

#[test]
fn the_cost_summary_counts_completed_jobs() {
    let mut store = JobStore::new();
    assert_eq!(store.cost_summary(), Ok(vec![]));
    for (id, src, bytes, status) in [
        (1u128, "s3://a", 10u64, JobStatus::Completed),
        (2, "gs://b", 5, JobStatus::Completed),
        (3, "s3://c", 7, JobStatus::Completed),
        (4, "s3://d", 100, JobStatus::Failed),
        (5, "/mnt", 3, JobStatus::Completed),
        (6, "AZ://e", 0, JobStatus::Completed),
    ] {
        let mut j = Job::requested_at(request(src), id, at(0));
        j.bytes_transferred = bytes;
        j.status = status;
        store.create(&j).unwrap();
    }
    assert_eq!(
        store.cost_summary(),
        Ok(vec![
            ("aws".to_string(), 17),
            ("azure".to_string(), 0),
            ("gcp".to_string(), 5),
            ("local".to_string(), 3),
        ])
    );
}

#[test]
fn sums_that_do_not_fit() {
    let mut store = JobStore::new();
    for id in [1u128, 2] {
        let mut j = job(id, 0);
        j.bytes_transferred = i64::MAX as u64;
        j.status = JobStatus::Completed;
        store.create(&j).unwrap();
    }
    assert_eq!(store.cost_summary(), Err(StoreError::SumOverflow));
}

#[test]
fn schedules_are_kept() {
    let mut store = JobStore::new();
    let entry = store.create_cron_at(&cron_request(), at(500), 1, at(100)).unwrap();
    assert_eq!((entry.priority, entry.max_attempts, entry.enabled), (0, 3, true));
    assert_eq!((entry.next_run_at, entry.created_at), (at(500), at(100)));
    assert_eq!(entry.last_job_id, None);
    assert_eq!(
        store.create_cron_at(&cron_request(), at(1), 1, at(1)).err(),
        Some(StoreError::DuplicateCron)
    );
    let other = store.create_cron(&cron_request(), at(600)).unwrap();
    assert_eq!((other.id >> 76) & 0xf, 4);
    assert!(other.created_at.secs > 1_600_000_000);
    let ids: Vec<u128> = store.list_crons().iter().map(|c| c.id).collect();
    assert_eq!(ids, vec![1, other.id]);
    assert_eq!(store.get_cron(1).unwrap().cron, "0 2 * * *");
    assert!(store.delete_cron(1));
    assert!(!store.delete_cron(1));
    assert!(store.get_cron(1).is_none());
    assert_eq!(store.list_crons().len(), 1);
}

#[test]
fn schedules_that_are_due() {
    let mut store = JobStore::new();
    store.create_cron_at(&cron_request(), at(500), 1, at(0)).unwrap();
    store.create_cron_at(&cron_request(), at(501), 2, at(0)).unwrap();
    let due: Vec<u128> = store.due_crons_at(at(500)).iter().map(|c| c.id).collect();
    assert_eq!(due, vec![1]);
    assert_eq!(store.due_crons().len(), 2);
    store.advance_cron(1, 77, at(9000));
    let moved = store.get_cron(1).unwrap();
    assert_eq!((moved.last_job_id, moved.next_run_at), (Some(77), at(9000)));
    let due: Vec<u128> = store.due_crons_at(at(600)).iter().map(|c| c.id).collect();
    assert_eq!(due, vec![2]);
}

#[test]
fn a_disabled_schedule_is_not_due() {
    let store_entry = CronJob::requested_at(&cron_request(), 1, at(0), at(0));
    let mut row = cron_to_row(&store_entry);
    row.enabled = false;
    let store = JobStore::load(vec![], &vec![row]).unwrap();
    assert!(store.due_crons_at(at(1000)).is_empty());
}

#[test]
fn a_job_survives_its_row() {
    let mut j = job(0x0123_4567_89ab_cdef_0011_2233_4455_6677, 1_700_000_000);
    j.status = JobStatus::Failed;
    j.priority = -3;
    j.attempt = u32::MAX;
    j.run_after = Some(Timestamp::new(1_700_000_030, 123_456_789).unwrap());
    j.depends_on = Some(u128::MAX);
    j.callback_url = Some("https://hook".to_string());
    j.bytes_total = Some(u64::MAX);
    j.bytes_transferred = u64::MAX - 1;
    j.peak_throughput_mbps = Some(Signed::positive(Double::from_ratio(5123, 10)));
    j.error = Some("it broke".to_string());
    j.started_at = Some(at(1_700_000_001));
    let row = job_to_row(&j);
    assert_eq!(row.id, "01234567-89ab-cdef-0011-223344556677");
    assert_eq!(row.status, "failed");
    assert_eq!(row.created_at, "2023-11-14T22:13:20+00:00");
    assert_eq!(row.run_after.as_deref(), Some("2023-11-14T22:13:50.123456789+00:00"));
    assert_eq!(row.attempt, u32::MAX as i64);
    assert_eq!(row.bytes_total, Some(-1));
    assert_eq!(row.bytes_transferred, -2);
    assert_eq!(row.peak_throughput_mbps, Some(512.3f64.to_bits()));
    let back = row_to_job(&row);
    assert_eq!(format!("{:?}", back), format!("{:?}", j));
}

#[test]
fn rows_that_cannot_be_read() {
    let row = || job_to_row(&job(1, 0));
    assert!(read_job(&row()).is_some());
    let mut bad = row();
    bad.id = "nonsense".to_string();
    assert!(read_job(&bad).is_none());
    let mut bad = row();
    bad.created_at = "yesterday".to_string();
    assert!(read_job(&bad).is_none());
    let mut bad = row();
    bad.updated_at = String::new();
    assert!(read_job(&bad).is_none());
    let mut odd = row();
    odd.run_after = Some("never".to_string());
    odd.depends_on = Some("nobody".to_string());
    odd.status = "dreaming".to_string();
    odd.peak_throughput_mbps = Some((-1.5f64).to_bits());
    odd.attempt = (1 << 32) + 2;
    let j = read_job(&odd).unwrap();
    assert_eq!(j.run_after, None);
    assert_eq!(j.depends_on, None);
    assert_eq!(j.status, JobStatus::Queued);
    assert_eq!(j.peak_throughput_mbps.unwrap().to_bits(), (-1.5f64).to_bits());
    assert_eq!(j.attempt, 2);
}

fn loaded(change: fn(&mut JobRow)) -> JobStore {
    let mut row = job_to_row(&job(1, 0));
    change(&mut row);
    JobStore::load(vec![row, job_to_row(&job(2, 10))], &vec![]).unwrap()
}

#[test]
fn a_word_for_no_status_is_neither_claimed_nor_cancelled() {
    let mut store = loaded(|row| row.status = "dreaming".to_string());
    assert_eq!(store.get(1).unwrap().unwrap().status, JobStatus::Queued);
    assert!(!store.cancel(1));
    assert_eq!(store.claim_next_at(at(100)).unwrap().unwrap().id, 2);
    assert!(store.claim_next_at(at(100)).unwrap().is_none());
    assert_eq!(store.job_rows()[0].status, "dreaming");
}

#[test]
fn a_time_that_is_none_goes_by_its_text() {
    let mut store = loaded(|row| row.run_after = Some("never".to_string()));
    assert_eq!(store.claim_next_at(at(1_700_000_000)).unwrap().unwrap().id, 2);
    assert!(store.claim_next_at(at(1_700_000_000)).unwrap().is_none());
    let mut store = loaded(|row| row.run_after = Some("1999".to_string()));
    assert_eq!(store.claim_next_at(at(1_700_000_000)).unwrap().unwrap().id, 1);
}

#[test]
fn a_dependency_goes_by_its_text() {
    let mut store = loaded(|row| row.depends_on = Some("nobody".to_string()));
    assert_eq!(store.get(1).unwrap().unwrap().depends_on, None);
    assert_eq!(store.claim_next_at(at(100)).unwrap().unwrap().id, 2);
    assert!(store.claim_next_at(at(100)).unwrap().is_none());
}

#[test]
fn a_row_that_cannot_be_read_fails_alone() {
    let mut store = loaded(|row| row.updated_at = "?".to_string());
    assert!(matches!(store.get(1), Err(StoreError::UnreadableRow)));
    assert_eq!(store.get(2).unwrap().unwrap().id, 2);
    assert!(matches!(store.list(), Err(StoreError::UnreadableRow)));
    // Claiming writes the time of the change.
    assert_eq!(store.claim_next_at(at(100)).unwrap().unwrap().id, 1);
    assert_eq!(store.get(1).unwrap().unwrap().updated_at, at(100));

    let mut store = loaded(|row| row.created_at = "1".to_string());
    assert!(matches!(store.claim_next_at(at(100)), Err(StoreError::UnreadableRow)));
    assert_eq!(store.job_rows()[0].status, "running");
    assert_eq!(store.claim_next_at(at(100)).unwrap().unwrap().id, 2);
    assert!(store.claim_next_at(at(100)).unwrap().is_none());
}

#[test]
fn a_throughput_below_zero_is_shown_as_it_is() {
    let store = loaded(|row| row.peak_throughput_mbps = Some((-2.25f64).to_bits()));
    let peak = store.get(1).unwrap().unwrap().peak_throughput_mbps.unwrap();
    assert_eq!(f64::from_bits(peak.to_bits()), -2.25);
}

#[test]
fn schedule_rows() {
    let mut entry = CronJob::requested_at(&cron_request(), 5, at(1_700_000_000), at(3));
    entry.last_job_id = Some(9);
    let row = cron_to_row(&entry);
    assert_eq!(row.next_run_at, "2023-11-14T22:13:20+00:00");
    assert_eq!(row.last_job_id.as_deref(), Some("00000000-0000-0000-0000-000000000009"));
    assert_eq!(format!("{:?}", read_cron(&row).unwrap()), format!("{:?}", entry));
    let mut bad = cron_to_row(&entry);
    bad.next_run_at = "?".to_string();
    assert!(read_cron(&bad).is_none());
}

#[test]
fn a_store_survives_its_rows() {
    let mut store = JobStore::new();
    store.create(&job(1, 10)).unwrap();
    store.create(&job(2, 20)).unwrap();
    store.create_cron_at(&cron_request(), at(500), 1, at(0)).unwrap();
    let back = JobStore::load(store.job_rows(), &store.cron_rows()).unwrap();
    assert_eq!(format!("{:?}", back), format!("{:?}", store));
}

#[test]
fn rows_with_an_id_twice_are_refused() {
    let rows = vec![job_to_row(&job(1, 0)), job_to_row(&job(1, 1))];
    assert!(JobStore::load(rows, &vec![]).is_none());
}

#[test]
fn schedule_rows_that_cannot_be_read_are_left_alone() {
    let entry = CronJob::requested_at(&cron_request(), 5, at(0), at(0));
    let mut bad = cron_to_row(&CronJob::requested_at(&cron_request(), 6, at(0), at(0)));
    bad.created_at = "?".to_string();
    let rows = vec![bad, cron_to_row(&entry), cron_to_row(&entry)];
    let store = JobStore::load(vec![], &rows).unwrap();
    let ids: Vec<u128> = store.list_crons().iter().map(|c| c.id).collect();
    assert_eq!(ids, vec![5]);
}

#[test]
fn optional_times_in_text() {
    assert_eq!(parse_opt_dt(None), None);
    assert_eq!(parse_opt_dt(Some("soon")), None);
    assert_eq!(parse_opt_dt(Some("1970-01-01T00:01:00+00:00")), Some(at(60)));
    assert_eq!(parse_opt_dt(Some("1970-01-01 02:01:00+02:00")), Some(at(60)));
}

#[test]
fn instants_of_the_calendar() {
    assert!(Timestamp::new(MAX_SECS, 999_999_999).is_some());
    assert!(Timestamp::new(MAX_SECS + 1, 0).is_none());
    assert!(Timestamp::new(0, 2_000_000_000).is_none());
    assert!(Timestamp::new(0, 1_000_000_000).is_none());
    assert!(Timestamp::new(59, 1_500_000_000).is_some());
    assert_eq!(
        Timestamp::new(59, 1_500_000_000).unwrap().plus_secs(30),
        Timestamp::new(89, 500_000_000).unwrap()
    );
    assert!(at(1).is_at_or_before(&at(1)));
    assert!(!at(2).is_at_or_before(&at(1)));
}

#[test]
fn far_times_and_leap_seconds_survive_their_rows() {
    for t in [
        Timestamp::new(MAX_SECS, 999_999_999).unwrap(),
        Timestamp::new(slate::time::MIN_SECS, 0).unwrap(),
        Timestamp::new(253_402_300_800, 1).unwrap(),
        Timestamp::new(-1, 5).unwrap(),
        Timestamp::new(1_483_228_799, 1_500_000_000).unwrap(),
        Timestamp::new(-1, 1_999_999_999).unwrap(),
    ] {
        let j = Job::requested_at(request("/x"), 1, t);
        assert_eq!(row_to_job(&job_to_row(&j)).created_at, t);
    }
}

#[test]
fn not_a_number_is_not_kept() {
    let mut j = job(1, 0);
    j.peak_throughput_mbps = Some(Signed::positive(Double::Nan));
    assert_eq!(job_to_row(&j).peak_throughput_mbps, None);
    let mut store = JobStore::new();
    store.create(&j).unwrap();
    assert_eq!(store.get(1).unwrap().unwrap().peak_throughput_mbps, None);
}
