use slate::bench::{
    avg, aws_step, bench_result, cp_throughput, needs_file, next_fill, parse_sizes, payload_bytes,
    payload_name, print_markdown, print_table, run_line, trim, upload_url, AwsStep, BenchResult,
};
use slate::cli::{
    copy_request, copy_summary, egress_estimate, job_status, jobs_table, not_found_line,
    progress_text, queued_line,
};
use slate::double::{Double, Signed};
use slate::job::{Job, JobStatus};
use slate::progress::seconds;
use slate::text::{align_left, align_right, decimal_text, repeat, split, words, Separator};
use slate::time::Timestamp;
use uuid::Uuid;

fn at(secs: i64) -> Timestamp {
    Timestamp::new(secs, 0).unwrap()
}

fn double(x: f64) -> Double {
    Double::from_bits(x.to_bits()).unwrap()
}

fn job() -> Job {
    Job::requested_at(copy_request("s3://b/p", "/out"), 0xff, at(1_767_225_600))
}

#[test]
fn a_copy_gets_one_attempt() {
    let req = copy_request("s3://b/p", "/out");
    assert_eq!(req.max_attempts, Some(1));
    assert_eq!((req.src.as_str(), req.dst.as_str()), ("s3://b/p", "/out"));
    assert!(req.cron.is_none() && req.depends_on.is_none());
}

#[test]
fn lines_about_a_job() {
    assert_eq!(queued_line(1), "Job 00000000-0000-0000-0000-000000000001 queued");
    assert_eq!(not_found_line(2), "Job 00000000-0000-0000-0000-000000000002 not found");
}

#[test]
fn an_estimate_without_a_transfer() {
    assert_eq!(
        egress_estimate("gs://b"),
        vec![
            "Egress cost estimate:",
            "  Source:  Google Cloud Storage",
            "  Rate:    $0.1200/GB (approximate list price)",
            "",
            "Run without --estimate to execute the transfer and see the actual cost.",
        ]
    );
}

#[test]
fn the_sum_of_a_copy() {
    let s = copy_summary("s3://b", 2_684_354_560, 4, 100_000_000);
    let mbps: f64 = (2_684_354_560.0 / 4.1) / 1_000_000.0;
    assert_eq!(s.throughput_mbps.to_bits(), mbps.to_bits());
    assert_eq!(s.line, "\nTransferred 2.68 GB in 4.1s  (654.7 MB/s)  ~$0.2250 egress");
    let s = copy_summary("/x", 0, 0, 0);
    assert_eq!(s.line, "\nTransferred 0 B in 0.0s  (NaN MB/s)  ~$0.0000 egress");
}

#[test]
fn the_table_of_jobs() {
    assert_eq!(jobs_table(&vec![]), vec!["No jobs found."]);
    let mut half = job();
    half.bytes_total = Some(200);
    half.bytes_transferred = 101;
    half.status = JobStatus::Running;
    let lines = jobs_table(&vec![job(), half]);
    assert_eq!(
        lines[0],
        format!("{:<38} {:<12} {:<10} {}", "ID", "STATUS", "PROGRESS", "SRC -> DST")
    );
    assert_eq!(lines[1], "-".repeat(100));
    let id = Uuid::from_u128(0xff);
    assert_eq!(
        lines[2],
        format!("{:<38} {:<12} {:<10} {} -> {}", id, "queued", "-", "s3://b/p", "/out")
    );
    assert_eq!(
        lines[3],
        format!("{:<38} {:<12} {:<10} {} -> {}", id, "running", "50%", "s3://b/p", "/out")
    );
    assert_eq!(lines.len(), 4);
    assert_eq!(
        lines[2],
        "00000000-0000-0000-0000-0000000000ff queued       -          s3://b/p -> /out"
    );
}

#[test]
fn speeds_with_a_sign() {
    for x in [-1.25f64, -0.04, -0.0, 0.0, f64::NEG_INFINITY, -f64::NAN, 7.77] {
        let mut j = job();
        let peak = Signed::from_bits(x.to_bits());
        j.peak_throughput_mbps = Some(peak);
        assert!(job_status(&j).contains(&format!("Peak speed:   {:.1} MB/s", x)));
        if !x.is_nan() {
            assert_eq!(peak.to_bits(), x.to_bits());
        }
    }
}

#[test]
fn progress_in_a_few_characters() {
    let mut j = job();
    assert_eq!(progress_text(&j), "-");
    j.bytes_total = Some(0);
    assert_eq!(progress_text(&j), "100%");
    j.bytes_total = Some(3);
    j.bytes_transferred = 2;
    assert_eq!(progress_text(&j), "67%");
}

#[test]
fn a_job_in_short() {
    assert_eq!(
        job_status(&job()),
        vec![
            "ID:           00000000-0000-0000-0000-0000000000ff",
            "Status:       Queued",
            "Source:       s3://b/p",
            "Destination:  /out",
            "Attempt:      0/1",
            "Transferred:  0 B",
            "Created:      2026-01-01 00:00:00 UTC",
        ]
    );
}

#[test]
fn a_job_in_full() {
    let mut j = job();
    j.status = JobStatus::Failed;
    j.attempt = 1;
    j.bytes_total = Some(4_000_000_000);
    j.bytes_transferred = 1_073_741_824;
    j.peak_throughput_mbps = Some(Signed::positive(double(512.34)));
    j.error = Some("it broke".to_string());
    j.started_at = Some(at(1_767_225_601));
    j.completed_at = Timestamp::new(1_767_225_661, 500_000_000);
    assert_eq!(
        job_status(&j),
        vec![
            "ID:           00000000-0000-0000-0000-0000000000ff",
            "Status:       Failed",
            "Source:       s3://b/p",
            "Destination:  /out",
            "Attempt:      1/1",
            "Transferred:  1.07 GB",
            "Total:        4.00 GB",
            "Peak speed:   512.3 MB/s",
            "Egress cost:  ~$0.0900 (AWS S3)",
            "Error:        it broke",
            "Started:      2026-01-01 00:00:01 UTC",
            "Completed:    2026-01-01 00:01:01.500 UTC",
            "Created:      2026-01-01 00:00:00 UTC",
        ]
    );
}

#[test]
fn sizes_in_a_list() {
    assert_eq!(parse_sizes("10,100,500,1024"), vec![10, 100, 500, 1024]);
    assert_eq!(parse_sizes(" 1 ,\t2,x,,-3,4.5,\u{a0}6\u{3000}"), vec![1, 2, 6]);
    assert!(parse_sizes("").is_empty());
    assert_eq!(parse_sizes("18446744073709551615,18446744073709551616"), vec![u64::MAX]);
}

#[test]
fn white_space_goes() {
    for text in ["", " ", "a", " a b\t", "\u{2003}x\u{85}", "\u{200b}x", "\u{feff}y \r\n"] {
        assert_eq!(trim(text), text.trim());
    }
    for n in 0..0x3100u32 {
        if let Some(c) = char::from_u32(n) {
            assert_eq!(trim(&c.to_string()).is_empty(), c.is_whitespace());
        }
    }
}

#[test]
fn test_files() {
    assert_eq!(payload_bytes(10), Some(10_485_760));
    assert_eq!(payload_bytes(u64::MAX), None);
    assert_eq!(payload_name(500), "payload_500mb.bin");
    assert!(needs_file(None, 5));
    assert!(needs_file(Some(4), 5));
    assert!(!needs_file(Some(5), 5));
    assert_eq!(next_fill(10), 10);
    assert_eq!(next_fill(1_048_577), 1_048_576);
    assert_eq!(next_fill(0), 0);
    assert_eq!(upload_url("b", "slate-bench", "f.bin"), "s3://b/slate-bench/f.bin");
}

#[test]
fn averages_leave_the_slowest_out() {
    let times = |list: &[f64]| -> Vec<Double> { list.iter().map(|&t| double(t)).collect() };
    assert_eq!(avg(&vec![]), Double::zero_value());
    assert_eq!(avg(&times(&[2.0])), double(2.0));
    assert_eq!(avg(&times(&[3.0, 1.0])), double(2.0));
    assert_eq!(avg(&times(&[9.0, 1.0, 3.0])), double(2.0));
    let list = [4.976, 4.724, 4.407, 4.132, 4.475, 4.188];
    let mut sorted = list.to_vec();
    sorted.sort_by(|a, b| a.partial_cmp(b).unwrap());
    sorted.pop();
    let expected = sorted.iter().sum::<f64>() / sorted.len() as f64;
    assert_eq!(avg(&times(&list)).to_bits(), expected.to_bits());
    let mut other = list;
    other.reverse();
    assert_eq!(avg(&times(&other)), avg(&times(&list)));
}

fn results() -> Vec<BenchResult> {
    vec![
        bench_result("slate", 10, double(0.5)),
        bench_result("cp", 10, double(0.25)),
        bench_result("slate", 100, double(4.0)),
        bench_result("aws s3 cp", 10, seconds(0, 0)),
        bench_result("cp", 10, double(1.0)),
    ]
}

#[test]
fn a_run_and_its_line() {
    let r = bench_result("slate", 10, double(0.5));
    assert_eq!(r.throughput_mbps, double(20.0));
    assert_eq!(run_line("  slate:    ", &r), "  slate:    10 MiB in 0.50s  (20.0 MB/s)");
}

#[test]
fn what_to_do_about_aws() {
    assert_eq!(aws_step(false, true, true), AwsStep::Skip);
    assert_eq!(aws_step(true, false, true), AwsStep::NeedsBucket);
    assert_eq!(aws_step(true, true, false), AwsStep::NotFound);
    assert_eq!(aws_step(true, true, true), AwsStep::Run);
}

#[test]
fn results_as_a_table() {
    let lines = print_table(&results());
    assert_eq!(lines[0], "Results");
    assert_eq!(lines[1], "-------");
    assert_eq!(
        lines[2],
        format!("{:<12} {:>10} {:>12} {:>14}", "Tool", "Size (MiB)", "Time (s)", "Throughput")
    );
    assert_eq!(lines[3], "-".repeat(52));
    assert_eq!(lines[4], format!("{:<12} {:>10} {:>12.2} {:>13.1} MB/s", "slate", 10, 0.5, 20.0));
    assert_eq!(
        lines[7],
        format!("{:<12} {:>10} {:>12.2} {:>13.1} MB/s", "aws s3 cp", 10, 0.0, f64::INFINITY)
    );
    assert_eq!(lines.len(), 9);
}

#[test]
fn results_in_markdown() {
    assert_eq!(
        print_markdown(&results()),
        vec![
            "## Slate Benchmark Results\n",
            "| Tool | Size | Time | Throughput |",
            "|------|------|------|------------|",
            "| slate | 10 MiB | 0.50s | **20.0 MB/s** |",
            "| cp | 10 MiB | 0.25s | **40.0 MB/s** |",
            "| slate | 100 MiB | 4.00s | **25.0 MB/s** |",
            "| aws s3 cp | 10 MiB | 0.00s | **inf MB/s** |",
            "| cp | 10 MiB | 1.00s | **10.0 MB/s** |",
            "",
            "### Speedup vs `cp`\n",
            "| Tool | Size | Speedup |",
            "|------|------|---------|",
            "| slate | 10 MiB | 2.00x |",
            "| aws s3 cp | 10 MiB | infx |",
        ]
    );
    assert_eq!(cp_throughput(&results(), 10), Some(double(10.0)));
    assert_eq!(cp_throughput(&results(), 100), None);
}

#[test]
fn texts_and_their_pieces() {
    assert_eq!(split("a,,b", Separator::Comma), vec!["a", "", "b"]);
    assert_eq!(split("", Separator::Dash), vec![""]);
    assert_eq!(split("1-5/2", Separator::Slash), vec!["1-5", "2"]);
    assert_eq!(words(" a \t b\nc "), vec!["a", "b", "c"]);
    assert_eq!(align_left("\u{e4}b", 4), "\u{e4}b  ");
    assert_eq!(align_right("abc", 2), "abc");
    assert_eq!(repeat("-", 3), "---");
    assert_eq!(decimal_text(u128::MAX), u128::MAX.to_string());
    assert_eq!(decimal_text(0), "0");
}
