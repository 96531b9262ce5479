//! What the command line prints.
use vstd::prelude::*;
use crate::cost::{estimate, gigabytes_of, provider_of, rate_of};
use crate::double::{nearest, Double, Signed};
use crate::ids::{id_chars, id_text};
use crate::job::{
    opt_chars, status_chars, status_str, CreateJobRequest, CreateJobRequestView, Job, JobStatus,
    JobView,
};
use crate::progress::{rate_of_transfer, seconds, seconds_of, transfer_rate};
use crate::table::job_views;
use crate::text::{
    align_left, decimal, decimal_text, left_aligned, repeat, repeated, texts_view,
};
use crate::time::{display_utc, utc_text, Timestamp};

verus! {

/// A count of bytes in the largest decimal unit that it reaches.
pub open spec fn human(b: u64) -> Seq<char> {
    if b >= 1_000_000_000 {
        nearest(b as nat, 1, 0).spec_div(nearest(1_000_000_000, 1, 0)).fixed_text(2) + " GB"@
    } else if b >= 1_000_000 {
        nearest(b as nat, 1, 0).spec_div(nearest(1_000_000, 1, 0)).fixed_text(2) + " MB"@
    } else if b >= 1_000 {
        nearest(b as nat, 1, 0).spec_div(nearest(1_000, 1, 0)).fixed_text(2) + " KB"@
    } else {
        decimal(b as nat) + " B"@
    }
}

/// Writes a count of bytes for people.
pub fn human_bytes(b: u64) -> (text: String)
    ensures
        text@ == human(b),
{
    let bytes = Double::from_u64(b);
    if b >= 1_000_000_000 {
        let mut text = bytes.over(Double::from_u64(1_000_000_000)).fixed(2);
        text.append(" GB");
        text
    } else if b >= 1_000_000 {
        let mut text = bytes.over(Double::from_u64(1_000_000)).fixed(2);
        text.append(" MB");
        text
    } else if b >= 1_000 {
        let mut text = bytes.over(Double::from_u64(1_000)).fixed(2);
        text.append(" KB");
        text
    } else {
        let mut text = decimal_text(b as u128);
        text.append(" B");
        text
    }
}

/// Writes two texts one behind the other.
fn joined(a: &str, b: &str) -> (text: String)
    ensures
        text@ == a@ + b@,
{
    let mut text = a.to_owned();
    text.append(b);
    text
}

/// What the price list of a source looks like.
pub open spec fn estimate_lines(src: Seq<char>) -> Seq<Seq<char>> {
    seq![
        "Egress cost estimate:"@,
        "  Source:  "@ + provider_of(src),
        "  Rate:    $"@ + rate_of(src).fixed_text(4) + "/GB (approximate list price)"@,
        ""@,
        "Run without --estimate to execute the transfer and see the actual cost."@,
    ]
}

/// The lines for an estimate without a transfer.
pub fn egress_estimate(src: &str) -> (lines: Vec<String>)
    ensures
        texts_view(lines@) == estimate_lines(src@),
{
    let e = estimate(src, 0);
    let mut rate = joined("  Rate:    $", e.rate_per_gb.fixed(4).as_str());
    rate.append("/GB (approximate list price)");
    let mut lines: Vec<String> = Vec::new();
    lines.push("Egress cost estimate:".to_owned());
    lines.push(joined("  Source:  ", e.provider));
    lines.push(rate);
    lines.push("".to_owned());
    lines.push(
        "Run without --estimate to execute the transfer and see the actual cost.".to_owned(),
    );
    assert(texts_view(lines@) =~= estimate_lines(src@));
    lines
}

/// The request for a transfer from the command line: one attempt.
pub open spec fn one_shot(src: Seq<char>, dst: Seq<char>) -> CreateJobRequestView {
    CreateJobRequestView {
        src,
        dst,
        priority: None,
        max_attempts: Some(1),
        run_after: None,
        depends_on: None,
        callback_url: None,
        cron: None,
    }
}

/// The request for a transfer from the command line.
pub fn copy_request(src: &str, dst: &str) -> (req: CreateJobRequest)
    ensures
        req@ == one_shot(src@, dst@),
{
    CreateJobRequest {
        src: src.to_owned(),
        dst: dst.to_owned(),
        priority: None,
        max_attempts: Some(1),
        run_after: None,
        depends_on: None,
        callback_url: None,
        cron: None,
    }
}

/// The line for a job that was queued.
pub fn queued_line(id: u128) -> (line: String)
    ensures
        line@ == "Job "@ + id_chars(id) + " queued"@,
{
    let mut line = joined("Job ", id_text(id).as_str());
    line.append(" queued");
    line
}

/// The line for a job that is not there.
pub fn not_found_line(id: u128) -> (line: String)
    ensures
        line@ == "Job "@ + id_chars(id) + " not found"@,
{
    let mut line = joined("Job ", id_text(id).as_str());
    line.append(" not found");
    line
}

/// What a transfer that ended well took, how fast it was, and what it cost.
#[derive(Debug)]
pub struct CopySummary {
    pub throughput_mbps: Double,
    pub line: String,
}

/// The line that sums up a transfer.
pub open spec fn summary_line(
    src: Seq<char>,
    bytes: u64,
    secs: u64,
    nanos: u32,
    mbps: Double,
) -> Seq<char> {
    "\nTransferred "@ + human(bytes) + " in "@ + seconds_of(secs, nanos).fixed_text(1) + "s  ("@
        + mbps.fixed_text(1) + " MB/s)  ~$"@ + gigabytes_of(bytes).spec_mul(rate_of(src)).fixed_text(
        4,
    ) + " egress"@
}

/// Sums up a transfer that ended well.
pub fn copy_summary(src: &str, bytes: u64, secs: u64, nanos: u32) -> (summary: CopySummary)
    ensures
        summary.throughput_mbps == rate_of_transfer(bytes, seconds_of(secs, nanos)),
        summary.throughput_mbps.valid(),
        summary.line@ == summary_line(src@, bytes, secs, nanos, summary.throughput_mbps),
{
    let elapsed = seconds(secs, nanos);
    let throughput_mbps = transfer_rate(bytes, elapsed);
    let egress = estimate(src, bytes);
    let mut line = joined("\nTransferred ", human_bytes(bytes).as_str());
    line.append(" in ");
    line.append(elapsed.fixed(1).as_str());
    line.append("s  (");
    line.append(throughput_mbps.fixed(1).as_str());
    line.append(" MB/s)  ~$");
    line.append(egress.estimated_usd.fixed(4).as_str());
    line.append(" egress");
    CopySummary { throughput_mbps, line }
}

/// How far a job has come, in a few characters.
pub open spec fn progress_label(job: JobView) -> Seq<char> {
    match job.percent() {
        Some(p) => p.fixed_text(0) + "%"@,
        None => "-"@,
    }
}

/// How far a job has come, in a few characters.
pub fn progress_text(job: &Job) -> (text: String)
    ensures
        text@ == progress_label(job@),
{
    match job.progress_pct() {
        Some(p) => {
            let mut text = p.fixed(0);
            text.append("%");
            text
        },
        None => "-".to_owned(),
    }
}

/// A job's line in the table of jobs. An id is as long as it is, whatever the width of its
/// column.
pub open spec fn job_line(job: JobView) -> Seq<char> {
    id_chars(job.id) + " "@ + left_aligned(status_chars(job.status), 12) + " "@
        + left_aligned(progress_label(job), 10) + " "@ + job.src + " -> "@ + job.dst
}

/// The head of the table of jobs.
pub open spec fn table_head() -> Seq<Seq<char>> {
    seq![
        left_aligned("ID"@, 38) + " "@ + left_aligned("STATUS"@, 12) + " "@ + left_aligned(
            "PROGRESS"@,
            10,
        ) + " "@ + "SRC -> DST"@,
        repeated('-', 100),
    ]
}

/// The table of jobs.
pub open spec fn table_of(jobs: Seq<JobView>) -> Seq<Seq<char>> {
    if jobs.len() == 0 {
        seq!["No jobs found."@]
    } else {
        table_head() + jobs.map_values(|job: JobView| job_line(job))
    }
}

fn columns(id: &str, status: &str, progress: &str) -> (line: String)
    ensures
        line@ == id@ + " "@ + left_aligned(status@, 12) + " "@ + left_aligned(
            progress@,
            10,
        ) + " "@,
{
    let mut line = id.to_owned();
    line.append(" ");
    line.append(align_left(status, 12).as_str());
    line.append(" ");
    line.append(align_left(progress, 10).as_str());
    line.append(" ");
    line
}

/// The lines of the table of jobs.
pub fn jobs_table(jobs: &Vec<Job>) -> (lines: Vec<String>)
    ensures
        texts_view(lines@) == table_of(job_views(jobs@)),
{
    let mut lines: Vec<String> = Vec::new();
    if jobs.len() == 0 {
        lines.push("No jobs found.".to_owned());
        assert(texts_view(lines@) =~= table_of(job_views(jobs@)));
        return lines;
    }
    let mut head = columns(align_left("ID", 38).as_str(), "STATUS", "PROGRESS");
    head.append("SRC -> DST");
    lines.push(head);
    proof {
        reveal_strlit("-");
    }
    lines.push(repeat("-", 100));
    let ghost wanted = job_views(jobs@).map_values(|job: JobView| job_line(job));
    let mut i: usize = 0;
    assert(texts_view(lines@) =~= table_head() + wanted.take(0));
    while i < jobs.len()
        invariant
            i <= jobs@.len() == wanted.len(),
            wanted == job_views(jobs@).map_values(|job: JobView| job_line(job)),
            texts_view(lines@) == table_head() + wanted.take(i as int),
        decreases jobs.len() - i,
    {
        let job = &jobs[i];
        let ghost so_far = texts_view(lines@);
        let mut line = columns(
            id_text(job.id).as_str(),
            status_str(&job.status),
            progress_text(job).as_str(),
        );
        line.append(job.src.as_str());
        line.append(" -> ");
        line.append(job.dst.as_str());
        proof {
            assert(job_views(jobs@)[i as int] == job@);
            assert(line@ =~= job_line(job@));
            assert(wanted[i as int] == job_line(job@));
        }
        lines.push(line);
        proof {
            assert(texts_view(lines@) =~= so_far.push(line@));
            assert(texts_view(lines@) =~= table_head() + wanted.take(i + 1));
        }
        i += 1;
    }
    assert(wanted.take(i as int) =~= wanted);
    lines
}

/// The name of a status.
pub open spec fn status_name(s: JobStatus) -> Seq<char> {
    match s {
        JobStatus::Queued => "Queued"@,
        JobStatus::Waiting => "Waiting"@,
        JobStatus::Running => "Running"@,
        JobStatus::Completed => "Completed"@,
        JobStatus::Retrying => "Retrying"@,
        JobStatus::Failed => "Failed"@,
        JobStatus::Cancelled => "Cancelled"@,
    }
}

fn name_of_status(s: &JobStatus) -> (name: &'static str)
    ensures
        name@ == status_name(*s),
{
    match s {
        JobStatus::Queued => "Queued",
        JobStatus::Waiting => "Waiting",
        JobStatus::Running => "Running",
        JobStatus::Completed => "Completed",
        JobStatus::Retrying => "Retrying",
        JobStatus::Failed => "Failed",
        JobStatus::Cancelled => "Cancelled",
    }
}

/// A line where there is something to show.
pub open spec fn when<T>(value: Option<T>, line: spec_fn(T) -> Seq<char>) -> Seq<Seq<char>> {
    match value {
        Some(v) => seq![line(v)],
        None => Seq::empty(),
    }
}

/// The line for the cost of what a job has transferred.
pub open spec fn egress_line(job: JobView) -> Seq<char> {
    "Egress cost:  ~$"@ + gigabytes_of(job.bytes_transferred).spec_mul(
        rate_of(job.src),
    ).fixed_text(4) + " ("@ + provider_of(job.src) + ")"@
}

/// Everything there is to show of a job.
pub open spec fn status_of(job: JobView) -> Seq<Seq<char>> {
    seq![
        "ID:           "@ + id_chars(job.id),
        "Status:       "@ + status_name(job.status),
        "Source:       "@ + job.src,
        "Destination:  "@ + job.dst,
        "Attempt:      "@ + decimal(job.attempt as nat) + "/"@ + decimal(job.max_attempts as nat),
        "Transferred:  "@ + human(job.bytes_transferred),
    ] + when(job.bytes_total, |n: u64| "Total:        "@ + human(n)) + when(
        job.peak_throughput_mbps,
        |d: Signed| "Peak speed:   "@ + d.fixed_text(1) + " MB/s"@,
    ) + (if job.bytes_transferred > 0 {
        seq![egress_line(job)]
    } else {
        Seq::empty()
    }) + when(job.error, |e: Seq<char>| "Error:        "@ + e) + when(
        job.started_at,
        |t: Timestamp| "Started:      "@ + utc_text(t.secs, t.nanos),
    ) + when(
        job.completed_at,
        |t: Timestamp| "Completed:    "@ + utc_text(t.secs, t.nanos),
    ) + seq!["Created:      "@ + utc_text(job.created_at.secs, job.created_at.nanos)]
}

/// Adds a line.
fn add_line(lines: &mut Vec<String>, line: String)
    ensures
        texts_view(final(lines)@) == texts_view(old(lines)@) + seq![line@],
{
    let ghost before = lines@;
    let ghost text = line@;
    lines.push(line);
    assert(texts_view(lines@) =~= texts_view(before) + seq![text]);
}

/// The lines that show a job.
pub fn job_status(job: &Job) -> (lines: Vec<String>)
    requires
        job@.valid(),
    ensures
        texts_view(lines@) == status_of(job@),
{
    let mut lines: Vec<String> = Vec::new();
    let mut attempt = joined("Attempt:      ", decimal_text(job.attempt as u128).as_str());
    attempt.append("/");
    attempt.append(decimal_text(job.max_attempts as u128).as_str());
    lines.push(joined("ID:           ", id_text(job.id).as_str()));
    lines.push(joined("Status:       ", name_of_status(&job.status)));
    lines.push(joined("Source:       ", job.src.as_str()));
    lines.push(joined("Destination:  ", job.dst.as_str()));
    lines.push(attempt);
    lines.push(joined("Transferred:  ", human_bytes(job.bytes_transferred).as_str()));
    let ghost mut shown: Seq<Seq<char>> = seq![
        "ID:           "@ + id_chars(job.id),
        "Status:       "@ + status_name(job.status),
        "Source:       "@ + job.src@,
        "Destination:  "@ + job.dst@,
        "Attempt:      "@ + decimal(job.attempt as nat) + "/"@ + decimal(job.max_attempts as nat),
        "Transferred:  "@ + human(job.bytes_transferred),
    ];
    assert(texts_view(lines@) =~= shown);
    if let Some(total) = job.bytes_total {
        add_line(&mut lines, joined("Total:        ", human_bytes(total).as_str()));
    }
    proof {
        shown = shown + when(job.bytes_total, |n: u64| "Total:        "@ + human(n));
        assert(texts_view(lines@) =~= shown);
    }
    if let Some(mbps) = job.peak_throughput_mbps {
        let mut line = joined("Peak speed:   ", mbps.fixed(1).as_str());
        line.append(" MB/s");
        add_line(&mut lines, line);
    }
    proof {
        shown = shown + when(
            job.peak_throughput_mbps,
            |d: Signed| "Peak speed:   "@ + d.fixed_text(1) + " MB/s"@,
        );
        assert(texts_view(lines@) =~= shown);
    }
    if job.bytes_transferred > 0 {
        let e = estimate(job.src.as_str(), job.bytes_transferred);
        let mut line = joined("Egress cost:  ~$", e.estimated_usd.fixed(4).as_str());
        line.append(" (");
        line.append(e.provider);
        line.append(")");
        assert(line@ =~= egress_line(job@));
        add_line(&mut lines, line);
    }
    proof {
        shown = shown + (if job.bytes_transferred > 0 {
            seq![egress_line(job@)]
        } else {
            Seq::empty()
        });
        assert(texts_view(lines@) =~= shown);
    }
    if let Some(error) = &job.error {
        add_line(&mut lines, joined("Error:        ", error.as_str()));
    }
    proof {
        shown = shown + when(opt_chars(job.error), |e: Seq<char>| "Error:        "@ + e);
        assert(texts_view(lines@) =~= shown);
    }
    if let Some(t) = job.started_at {
        add_line(&mut lines, joined("Started:      ", display_utc(t).as_str()));
    }
    proof {
        shown = shown + when(
            job.started_at,
            |t: Timestamp| "Started:      "@ + utc_text(t.secs, t.nanos),
        );
        assert(texts_view(lines@) =~= shown);
    }
    if let Some(t) = job.completed_at {
        add_line(&mut lines, joined("Completed:    ", display_utc(t).as_str()));
    }
    proof {
        shown = shown + when(
            job.completed_at,
            |t: Timestamp| "Completed:    "@ + utc_text(t.secs, t.nanos),
        );
        assert(texts_view(lines@) =~= shown);
    }
    add_line(&mut lines, joined("Created:      ", display_utc(job.created_at).as_str()));
    assert(texts_view(lines@) =~= status_of(job@));
    lines
}

} // verus!
