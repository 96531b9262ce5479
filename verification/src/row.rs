//! Jobs and schedules as rows of the database: texts, 64-bit integers and the bits
//! of a double.
use vstd::prelude::*;
use crate::double::{Double, Signed};
use crate::ids::{id_chars, id_in, id_text, parse_id};
use crate::job::{
    opt_chars, parse_status, status_chars, status_in, status_round_trip, status_str, CronJob,
    CronJobView, Job, JobView,
};
use crate::text::same_text;
use crate::time::{
    opt_instant, parse_opt_dt, parse_rfc3339, rfc3339, rfc3339_instant, to_rfc3339, Timestamp,
};

verus! {

/// A row of the table of jobs.
#[derive(Debug)]
pub struct JobRow {
    pub id: String,
    pub src: String,
    pub dst: String,
    pub status: String,
    pub priority: i32,
    pub attempt: i64,
    pub max_attempts: i64,
    pub run_after: Option<String>,
    pub depends_on: Option<String>,
    pub callback_url: Option<String>,
    pub bytes_total: Option<i64>,
    pub bytes_transferred: i64,
    /// The bits of the number in the column.
    pub peak_throughput_mbps: Option<u64>,
    pub error: Option<String>,
    pub created_at: String,
    pub updated_at: String,
    pub started_at: Option<String>,
    pub completed_at: Option<String>,
}

/// What a `JobRow` is, with its texts as character sequences.
#[verifier::ext_equal]
pub struct JobRowView {
    pub id: Seq<char>,
    pub src: Seq<char>,
    pub dst: Seq<char>,
    pub status: Seq<char>,
    pub priority: i32,
    pub attempt: i64,
    pub max_attempts: i64,
    pub run_after: Option<Seq<char>>,
    pub depends_on: Option<Seq<char>>,
    pub callback_url: Option<Seq<char>>,
    pub bytes_total: Option<i64>,
    pub bytes_transferred: i64,
    pub peak_throughput_mbps: Option<u64>,
    pub error: Option<Seq<char>>,
    pub created_at: Seq<char>,
    pub updated_at: Seq<char>,
    pub started_at: Option<Seq<char>>,
    pub completed_at: Option<Seq<char>>,
}

impl View for JobRow {
    type V = JobRowView;

    open spec fn view(&self) -> JobRowView {
        JobRowView {
            id: self.id@,
            src: self.src@,
            dst: self.dst@,
            status: self.status@,
            priority: self.priority,
            attempt: self.attempt,
            max_attempts: self.max_attempts,
            run_after: opt_chars(self.run_after),
            depends_on: opt_chars(self.depends_on),
            callback_url: opt_chars(self.callback_url),
            bytes_total: self.bytes_total,
            bytes_transferred: self.bytes_transferred,
            peak_throughput_mbps: self.peak_throughput_mbps,
            error: opt_chars(self.error),
            created_at: self.created_at@,
            updated_at: self.updated_at@,
            started_at: opt_chars(self.started_at),
            completed_at: opt_chars(self.completed_at),
        }
    }
}

impl Clone for JobRow {
    fn clone(&self) -> (copy: JobRow)
        ensures
            copy@ == self@,
    {
        JobRow {
            id: self.id.clone(),
            src: self.src.clone(),
            dst: self.dst.clone(),
            status: self.status.clone(),
            priority: self.priority,
            attempt: self.attempt,
            max_attempts: self.max_attempts,
            run_after: self.run_after.clone(),
            depends_on: self.depends_on.clone(),
            callback_url: self.callback_url.clone(),
            bytes_total: self.bytes_total,
            bytes_transferred: self.bytes_transferred,
            peak_throughput_mbps: self.peak_throughput_mbps,
            error: self.error.clone(),
            created_at: self.created_at.clone(),
            updated_at: self.updated_at.clone(),
            started_at: self.started_at.clone(),
            completed_at: self.completed_at.clone(),
        }
    }
}

/// A row of the table of schedules.
#[derive(Debug)]
pub struct CronRow {
    pub id: String,
    pub src: String,
    pub dst: String,
    pub cron: String,
    pub priority: i32,
    pub max_attempts: i64,
    pub callback_url: Option<String>,
    pub next_run_at: String,
    pub last_job_id: Option<String>,
    pub created_at: String,
    pub enabled: bool,
}

/// The text of an instant in a column.
pub open spec fn time_chars(t: Timestamp) -> Seq<char> {
    rfc3339(t.secs, t.nanos)
}

/// The text of an optional instant.
pub open spec fn opt_rfc3339(t: Option<Timestamp>) -> Option<Seq<char>> {
    match t {
        Some(t) => Some(time_chars(t)),
        None => None,
    }
}

/// The text of an optional id.
pub open spec fn opt_id_chars(id: Option<u128>) -> Option<Seq<char>> {
    match id {
        Some(id) => Some(id_chars(id)),
        None => None,
    }
}

/// The id in an optional text; a text that does not parse counts as none.
pub open spec fn opt_id_in(text: Option<Seq<char>>) -> Option<u128> {
    match text {
        Some(s) => id_in(s),
        None => None,
    }
}

/// The count as a signed column holds it.
pub open spec fn opt_signed(n: Option<u64>) -> Option<i64> {
    match n {
        Some(n) => Some(n as i64),
        None => None,
    }
}

/// The count that a signed column holds.
pub open spec fn opt_unsigned(n: Option<i64>) -> Option<u64> {
    match n {
        Some(n) => Some(n as u64),
        None => None,
    }
}

/// A throughput as the database keeps it: not-a-number is kept as no value.
pub open spec fn kept(peak: Option<Signed>) -> Option<Signed> {
    match peak {
        Some(p) => if p.size == Double::Nan {
            None
        } else {
            peak
        },
        None => None,
    }
}

/// The bits of an optional double, without a value for not-a-number.
pub open spec fn opt_bits(peak: Option<Signed>) -> Option<u64> {
    match kept(peak) {
        Some(d) => Some(d.bits()),
        None => None,
    }
}

/// The double of optional bits.
pub open spec fn opt_of_bits(bits: Option<u64>) -> Option<Signed> {
    match bits {
        Some(b) => Some(Signed::of_bits(b)),
        None => None,
    }
}

/// The instant that a text holds.
pub open spec fn instant_in(text: Seq<char>) -> Timestamp {
    let (secs, nanos) = rfc3339_instant(text)->0;
    Timestamp { secs, nanos }
}

impl JobView {
    /// The job as the database keeps it.
    pub open spec fn stored(self) -> JobView {
        JobView { peak_throughput_mbps: kept(self.peak_throughput_mbps), ..self }
    }

    /// The columns that hold the job.
    pub open spec fn row(self) -> JobRowView {
        JobRowView {
            id: id_chars(self.id),
            src: self.src,
            dst: self.dst,
            status: status_chars(self.status),
            priority: self.priority,
            attempt: self.attempt as i64,
            max_attempts: self.max_attempts as i64,
            run_after: opt_rfc3339(self.run_after),
            depends_on: opt_id_chars(self.depends_on),
            callback_url: self.callback_url,
            bytes_total: opt_signed(self.bytes_total),
            bytes_transferred: self.bytes_transferred as i64,
            peak_throughput_mbps: opt_bits(self.peak_throughput_mbps),
            error: self.error,
            created_at: time_chars(self.created_at),
            updated_at: time_chars(self.updated_at),
            started_at: opt_rfc3339(self.started_at),
            completed_at: opt_rfc3339(self.completed_at),
        }
    }
}

impl JobRowView {
    /// The columns that every job needs can be read.
    pub open spec fn readable(self) -> bool {
        &&& id_in(self.id) is Some
        &&& rfc3339_instant(self.created_at) is Some
        &&& rfc3339_instant(self.updated_at) is Some
    }

    /// The job that the row holds.
    pub open spec fn job(self) -> JobView {
        JobView {
            id: id_in(self.id)->0,
            src: self.src,
            dst: self.dst,
            status: status_in(self.status),
            priority: self.priority,
            attempt: self.attempt as u32,
            max_attempts: self.max_attempts as u32,
            run_after: opt_instant(self.run_after),
            depends_on: opt_id_in(self.depends_on),
            callback_url: self.callback_url,
            bytes_total: opt_unsigned(self.bytes_total),
            bytes_transferred: self.bytes_transferred as u64,
            peak_throughput_mbps: opt_of_bits(self.peak_throughput_mbps),
            error: self.error,
            created_at: instant_in(self.created_at),
            updated_at: instant_in(self.updated_at),
            started_at: opt_instant(self.started_at),
            completed_at: opt_instant(self.completed_at),
        }
    }
}

impl CronRow {
    /// The row holds `entry`, column by column.
    pub open spec fn holds(self, entry: CronJobView) -> bool {
        &&& self.id@ == id_chars(entry.id)
        &&& self.src@ == entry.src
        &&& self.dst@ == entry.dst
        &&& self.cron@ == entry.cron
        &&& self.priority == entry.priority
        &&& self.max_attempts == entry.max_attempts
        &&& opt_chars(self.callback_url) == entry.callback_url
        &&& self.next_run_at@ == time_chars(entry.next_run_at)
        &&& opt_chars(self.last_job_id) == opt_id_chars(entry.last_job_id)
        &&& self.created_at@ == time_chars(entry.created_at)
        &&& self.enabled == entry.enabled
    }

    /// The columns that every schedule needs can be read, the id in its one usual form.
    pub open spec fn readable(self) -> bool {
        &&& id_in(self.id@) matches Some(id) && self.id@ == id_chars(id)
        &&& rfc3339_instant(self.next_run_at@) is Some
        &&& rfc3339_instant(self.created_at@) is Some
    }

    /// The schedule that the row holds.
    pub open spec fn entry(self) -> CronJobView {
        CronJobView {
            id: id_in(self.id@)->0,
            src: self.src@,
            dst: self.dst@,
            cron: self.cron@,
            priority: self.priority,
            max_attempts: self.max_attempts as u32,
            callback_url: opt_chars(self.callback_url),
            next_run_at: instant_in(self.next_run_at@),
            last_job_id: opt_id_in(opt_chars(self.last_job_id)),
            created_at: instant_in(self.created_at@),
            enabled: self.enabled,
        }
    }
}

fn opt_time_text(t: Option<Timestamp>) -> (text: Option<String>)
    requires
        t matches Some(t) ==> t.valid(),
    ensures
        opt_chars(text) == opt_rfc3339(t),
        opt_instant(opt_chars(text)) == t,
{
    match t {
        Some(t) => Some(to_rfc3339(t)),
        None => None,
    }
}

fn opt_id_text(id: Option<u128>) -> (text: Option<String>)
    ensures
        opt_chars(text) == opt_id_chars(id),
        opt_id_in(opt_chars(text)) == id,
{
    match id {
        Some(id) => Some(id_text(id)),
        None => None,
    }
}

fn parse_opt_id(text: &Option<String>) -> (id: Option<u128>)
    ensures
        id == opt_id_in(opt_chars(*text)),
{
    match text {
        Some(s) => parse_id(s.as_str()),
        None => None,
    }
}

fn parse_opt_time(text: &Option<String>) -> (t: Option<Timestamp>)
    ensures
        t == opt_instant(opt_chars(*text)),
        t matches Some(t) ==> t.valid(),
{
    match text {
        Some(s) => parse_opt_dt(Some(s.as_str())),
        None => None,
    }
}

/// The bits of a throughput as the database keeps it.
pub fn peak_bits(peak: Option<Signed>) -> (bits: Option<u64>)
    requires
        peak matches Some(p) ==> p.valid(),
    ensures
        bits == opt_bits(peak),
        opt_of_bits(bits) == kept(peak),
{
    match peak {
        Some(p) => match p.size {
            Double::Nan => None,
            _ => Some(p.to_bits()),
        },
        None => None,
    }
}

/// Writes a job into a row. The row reads back as the job as the database keeps it.
pub fn job_to_row(job: &Job) -> (row: JobRow)
    requires
        job@.valid(),
    ensures
        row@ == job@.row(),
        row@.readable(),
        row@.job() == job@.stored(),
{
    let bytes_total: Option<i64> = match job.bytes_total {
        Some(n) => {
            assert(n as i64 as u64 == n) by (bit_vector);
            Some(n as i64)
        },
        None => None,
    };
    let done: u64 = job.bytes_transferred;
    assert(done as i64 as u64 == done) by (bit_vector);
    proof {
        status_round_trip(job.status);
    }
    JobRow {
        id: id_text(job.id),
        src: job.src.clone(),
        dst: job.dst.clone(),
        status: status_str(&job.status).to_owned(),
        priority: job.priority,
        attempt: job.attempt as i64,
        max_attempts: job.max_attempts as i64,
        run_after: opt_time_text(job.run_after),
        depends_on: opt_id_text(job.depends_on),
        callback_url: job.callback_url.clone(),
        bytes_total,
        bytes_transferred: done as i64,
        peak_throughput_mbps: peak_bits(job.peak_throughput_mbps),
        error: job.error.clone(),
        created_at: to_rfc3339(job.created_at),
        updated_at: to_rfc3339(job.updated_at),
        started_at: opt_time_text(job.started_at),
        completed_at: opt_time_text(job.completed_at),
    }
}

/// Reads the job that a row holds, where the columns that every job needs can be read.
pub fn row_to_job(row: &JobRow) -> (job: Job)
    requires
        row@.readable(),
    ensures
        job@ == row@.job(),
        job@.valid(),
{
    let id = parse_id(row.id.as_str());
    let created_at = parse_rfc3339(row.created_at.as_str());
    let updated_at = parse_rfc3339(row.updated_at.as_str());
    let peak: Option<Signed> = match row.peak_throughput_mbps {
        Some(bits) => Some(Signed::from_bits(bits)),
        None => None,
    };
    let bytes_total: Option<u64> = match row.bytes_total {
        Some(n) => Some(n as u64),
        None => None,
    };
    Job {
        id: id.unwrap(),
        src: row.src.clone(),
        dst: row.dst.clone(),
        status: parse_status(row.status.as_str()),
        priority: row.priority,
        attempt: row.attempt as u32,
        max_attempts: row.max_attempts as u32,
        run_after: parse_opt_time(&row.run_after),
        depends_on: parse_opt_id(&row.depends_on),
        callback_url: row.callback_url.clone(),
        bytes_total,
        bytes_transferred: row.bytes_transferred as u64,
        peak_throughput_mbps: peak,
        error: row.error.clone(),
        created_at: created_at.unwrap(),
        updated_at: updated_at.unwrap(),
        started_at: parse_opt_time(&row.started_at),
        completed_at: parse_opt_time(&row.completed_at),
    }
}

/// Reads the job that a row holds, if the columns that every job needs can be read.
pub fn read_job(row: &JobRow) -> (job: Option<Job>)
    ensures
        match job {
            Some(job) => row@.readable() && job@ == row@.job() && job@.valid(),
            None => !row@.readable(),
        },
{
    if parse_id(row.id.as_str()).is_some() && parse_rfc3339(row.created_at.as_str()).is_some()
        && parse_rfc3339(row.updated_at.as_str()).is_some() {
        Some(row_to_job(row))
    } else {
        None
    }
}

/// Writes a schedule into a row. The row holds the schedule, and reads back as it.
pub fn cron_to_row(entry: &CronJob) -> (row: CronRow)
    requires
        entry@.valid(),
    ensures
        row.holds(entry@),
        row.readable(),
        row.entry() == entry@,
{
    CronRow {
        id: id_text(entry.id),
        src: entry.src.clone(),
        dst: entry.dst.clone(),
        cron: entry.cron.clone(),
        priority: entry.priority,
        max_attempts: entry.max_attempts as i64,
        callback_url: entry.callback_url.clone(),
        next_run_at: to_rfc3339(entry.next_run_at),
        last_job_id: opt_id_text(entry.last_job_id),
        created_at: to_rfc3339(entry.created_at),
        enabled: entry.enabled,
    }
}

/// Reads the schedule that a row holds, if the columns that every schedule needs can
/// be read.
pub fn read_cron(row: &CronRow) -> (entry: Option<CronJob>)
    ensures
        match entry {
            Some(entry) => row.readable() && entry@ == row.entry() && entry@.valid(),
            None => !row.readable(),
        },
{
    match (
        parse_id(row.id.as_str()),
        parse_rfc3339(row.next_run_at.as_str()),
        parse_rfc3339(row.created_at.as_str()),
    ) {
        (Some(id), Some(next_run_at), Some(created_at)) => {
            if !same_text(id_text(id).as_str(), row.id.as_str()) {
                return None;
            }
            Some(
                CronJob {
                    id,
                    src: row.src.clone(),
                    dst: row.dst.clone(),
                    cron: row.cron.clone(),
                    priority: row.priority,
                    max_attempts: row.max_attempts as u32,
                    callback_url: row.callback_url.clone(),
                    next_run_at,
                    last_job_id: parse_opt_id(&row.last_job_id),
                    created_at,
                    enabled: row.enabled,
                },
            )
        },
        _ => None,
    }
}

} // verus!
