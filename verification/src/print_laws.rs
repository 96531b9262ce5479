//! What holds of everything that is printed.
use vstd::prelude::*;
use crate::bench::{
    cp_rate, is_white, kept_times, markdown_line, markdown_of, mean, measured, numbers_in, ordered,
    speedup_line, speedups, sum_of_times, table_line, trimmed, trimmed_front, BenchResult,
    BenchResultView,
};
use crate::cli::{
    egress_line, estimate_lines, human, job_line, one_shot, progress_label, status_name,
    status_of, summary_line, table_head, table_of,
};
use crate::cost::{gigabytes_of, provider_of, rate_of};
use crate::double::{nearest, zero, Double, Signed};
use crate::ids::{hex_char, hex_digit_of, id_chars};
use crate::job::{status_chars, JobStatus, JobView};
use crate::number_laws::{one, one_changes_nothing};
use crate::progress::seconds_of;
use crate::text::{decimal, left_aligned, number_in, repeated};
use crate::text_laws::aligned_texts_fill_their_column;
use crate::time::{utc_text, Timestamp};

verus! {

/// A text starts with a part and ends with another.
pub open spec fn spans(text: Seq<char>, start: Seq<char>, end: Seq<char>) -> bool {
    &&& text.len() >= start.len() + end.len()
    &&& text.take(start.len() as int) == start
    &&& text.skip(text.len() - end.len()) == end
}

/// The text of an id has 36 characters, hyphens in four places and hexadecimal digits in
/// all others, in lower case.
pub proof fn ids_have_one_form(id: u128, i: int)
    requires
        0 <= i < 36,
    ensures
        id_chars(id).len() == 36,
        i == 8 || i == 13 || i == 18 || i == 23 ==> id_chars(id)[i] == '-',
        i != 8 && i != 13 && i != 18 && i != 23 ==> '0' <= id_chars(id)[i] <= '9' || 'a' <= id_chars(
            id,
        )[i] <= 'f',
{
    let hyphens = (if i > 8 {
        1int
    } else {
        0
    }) + (if i > 13 {
        1int
    } else {
        0
    }) + (if i > 18 {
        1int
    } else {
        0
    }) + (if i > 23 {
        1int
    } else {
        0
    });
    assert(0 <= hex_digit_of(id, i - hyphens) < 16);
    assert('0' <= hex_char(hex_digit_of(id, i - hyphens)) <= '9' || 'a' <= hex_char(
        hex_digit_of(id, i - hyphens),
    ) <= 'f');
}

/// Bytes are shown in the largest unit of a thousand that they reach, with two digits
/// behind the point, and below a thousand as they are.
pub proof fn bytes_are_shown_in_their_unit(b: u64)
    ensures
        b < 1_000 ==> human(b) == decimal(b as nat) + " B"@,
        1_000 <= b < 1_000_000 ==> human(b) == nearest(b as nat, 1, 0).spec_div(
            nearest(1_000, 1, 0),
        ).fixed_text(2) + " KB"@,
        1_000_000 <= b < 1_000_000_000 ==> human(b) == nearest(b as nat, 1, 0).spec_div(
            nearest(1_000_000, 1, 0),
        ).fixed_text(2) + " MB"@,
        1_000_000_000 <= b ==> human(b) == nearest(b as nat, 1, 0).spec_div(
            nearest(1_000_000_000, 1, 0),
        ).fixed_text(2) + " GB"@,
{
}

/// A job shows its percentage without digits behind the point, and a dash while its size is
/// not known.
pub proof fn progress_is_a_percentage(job: JobView)
    ensures
        job.bytes_total is None ==> progress_label(job) == "-"@,
        job.percent() matches Some(p) ==> progress_label(job) == p.fixed_text(0) + "%"@,
        job.bytes_total is Some ==> job.percent() is Some,
{
}

/// A line in the table of jobs holds the id, the status and the progress of its job, each
/// in its place, and ends with where the job copies from and to.
pub proof fn lines_show_their_job(job: JobView)
    ensures
        ({
            let line = job_line(job);
            let (status, progress) = (status_chars(job.status), progress_label(job));
            let tail = job.src + " -> "@ + job.dst;
            let wide = if progress.len() < 10 {
                10
            } else {
                progress.len()
            };
            &&& line.len() == 36 + 1 + 12 + 1 + wide + 1 + tail.len()
            &&& spans(line, id_chars(job.id) + " "@ + status, " "@ + tail)
            &&& line[49] == ' '
            &&& line.subrange(50, 50 + progress.len() as int) == progress
            &&& forall|i: int| 37 + status.len() <= i < 50 ==> #[trigger] line[i] == ' '
            &&& forall|i: int| 50 + progress.len() <= i < 51 + wide ==> #[trigger] line[i] == ' '
        }),
{
    reveal_strlit(" ");
    reveal_strlit("queued");
    reveal_strlit("waiting");
    reveal_strlit("running");
    reveal_strlit("completed");
    reveal_strlit("retrying");
    reveal_strlit("failed");
    reveal_strlit("cancelled");
    let line = job_line(job);
    let (status, progress) = (status_chars(job.status), progress_label(job));
    let tail = job.src + " -> "@ + job.dst;
    let id = id_chars(job.id);
    assert(status.len() <= 9);
    aligned_texts_fill_their_column(status, 12);
    aligned_texts_fill_their_column(progress, 10);
    let (s, p) = (left_aligned(status, 12), left_aligned(progress, 10));
    let wide = p.len() as int;
    assert(line =~= id + " "@ + s + " "@ + p + " "@ + tail);
    let start = id + " "@ + status;
    assert forall|i: int| 0 <= i < start.len() implies line[i] == start[i] by {
        if i >= 37 {
            assert(line[i] == s[i - 37]);
            assert(s.take(status.len() as int)[i - 37] == s[i - 37]);
        }
    }
    assert(line.take(start.len() as int) =~= start);
    assert(line.skip(51 + wide - 1) =~= " "@ + tail);
    assert(line.subrange(50, 50 + progress.len() as int) =~= progress) by {
        assert forall|i: int| 0 <= i < progress.len() implies line[50 + i] == progress[i] by {
            assert(line[50 + i] == p[i]);
            assert(p.take(progress.len() as int)[i] == p[i]);
        }
    }
    assert forall|i: int| 37 + status.len() <= i < 50 implies #[trigger] line[i] == ' ' by {
        if i < 49 {
            assert(line[i] == s[i - 37]);
        }
    }
    assert forall|i: int| 50 + progress.len() <= i < 51 + wide implies #[trigger] line[i] == ' ' by {
        if i < 50 + wide {
            assert(line[i] == p[i - 50]);
        }
    }
}

/// The table has a head of two lines and then a line for each job, in order. Without a job
/// it says so.
pub proof fn tables_have_a_line_for_each_job(jobs: Seq<JobView>, i: int)
    ensures
        jobs.len() == 0 ==> table_of(jobs) == seq!["No jobs found."@],
        jobs.len() > 0 ==> {
            &&& table_of(jobs).len() == jobs.len() + 2
            &&& table_of(jobs)[0] == table_head()[0]
            &&& table_of(jobs)[1] == Seq::new(100, |k: int| '-')
            &&& 0 <= i < jobs.len() ==> table_of(jobs)[i + 2] == job_line(jobs[i])
        },
{
    assert(repeated('-', 100) =~= Seq::new(100, |k: int| '-'));
}

/// The names of the statuses.
pub proof fn names_of_statuses()
    ensures
        status_name(JobStatus::Queued) == "Queued"@,
        status_name(JobStatus::Waiting) == "Waiting"@,
        status_name(JobStatus::Running) == "Running"@,
        status_name(JobStatus::Completed) == "Completed"@,
        status_name(JobStatus::Retrying) == "Retrying"@,
        status_name(JobStatus::Failed) == "Failed"@,
        status_name(JobStatus::Cancelled) == "Cancelled"@,
{
}

/// What is shown of a job: its id, status, source, destination, attempts and bytes, then
/// what there is of size, speed, cost, error and times, and last when it was created.
pub proof fn statuses_show_all_there_is(job: JobView)
    ensures
        ({
            let lines = status_of(job);
            let one = |here: bool|
                if here {
                    1int
                } else {
                    0
                };
            &&& lines.len() == 7 + one(job.bytes_total is Some) + one(
                job.peak_throughput_mbps is Some,
            ) + one(job.bytes_transferred > 0) + one(job.error is Some) + one(
                job.started_at is Some,
            ) + one(job.completed_at is Some)
            &&& lines[0] == "ID:           "@ + id_chars(job.id)
            &&& lines[1] == "Status:       "@ + status_name(job.status)
            &&& lines[2] == "Source:       "@ + job.src
            &&& lines[3] == "Destination:  "@ + job.dst
            &&& lines[4] == "Attempt:      "@ + decimal(job.attempt as nat) + "/"@ + decimal(
                job.max_attempts as nat,
            )
            &&& lines[5] == "Transferred:  "@ + human(job.bytes_transferred)
            &&& lines.last() == "Created:      "@ + utc_text(
                job.created_at.secs,
                job.created_at.nanos,
            )
            &&& job.bytes_total matches Some(n) ==> lines[6] == "Total:        "@ + human(n)
            &&& job.peak_throughput_mbps matches Some(p) ==> lines[6 + one(
                job.bytes_total is Some,
            )] == "Peak speed:   "@ + p.fixed_text(1) + " MB/s"@
            &&& job.bytes_transferred > 0 ==> lines[6 + one(job.bytes_total is Some) + one(
                job.peak_throughput_mbps is Some,
            )] == egress_line(job)
            &&& job.completed_at matches Some(t) ==> lines[lines.len() - 2] == "Completed:    "@
                + utc_text(t.secs, t.nanos)
            &&& job.started_at matches Some(t) ==> lines[lines.len() - 2 - one(
                job.completed_at is Some,
            )] == "Started:      "@ + utc_text(t.secs, t.nanos)
            &&& job.error matches Some(e) ==> lines[lines.len() - 2 - one(
                job.completed_at is Some,
            ) - one(job.started_at is Some)] == "Error:        "@ + e
        }),
{
    let first = seq![
        "ID:           "@ + id_chars(job.id),
        "Status:       "@ + status_name(job.status),
        "Source:       "@ + job.src,
        "Destination:  "@ + job.dst,
        "Attempt:      "@ + decimal(job.attempt as nat) + "/"@ + decimal(job.max_attempts as nat),
        "Transferred:  "@ + human(job.bytes_transferred),
    ];
    let total = crate::cli::when(job.bytes_total, |n: u64| "Total:        "@ + human(n));
    let peak = crate::cli::when(
        job.peak_throughput_mbps,
        |d: Signed| "Peak speed:   "@ + d.fixed_text(1) + " MB/s"@,
    );
    let cost = if job.bytes_transferred > 0 {
        seq![egress_line(job)]
    } else {
        Seq::empty()
    };
    let error = crate::cli::when(job.error, |e: Seq<char>| "Error:        "@ + e);
    let started = crate::cli::when(
        job.started_at,
        |t: Timestamp| "Started:      "@ + utc_text(t.secs, t.nanos),
    );
    let completed = crate::cli::when(
        job.completed_at,
        |t: Timestamp| "Completed:    "@ + utc_text(t.secs, t.nanos),
    );
    let created = seq![
        "Created:      "@ + utc_text(job.created_at.secs, job.created_at.nanos),
    ];
    assert(status_of(job) == first + total + peak + cost + error + started + completed + created);
    lemma_parts_in_order(first, total, peak, cost, error, started, completed, created);
}

/// Parts of which those in the middle hold one line or none.
proof fn lemma_parts_in_order(
    a: Seq<Seq<char>>,
    b: Seq<Seq<char>>,
    c: Seq<Seq<char>>,
    d: Seq<Seq<char>>,
    e: Seq<Seq<char>>,
    f: Seq<Seq<char>>,
    g: Seq<Seq<char>>,
    h: Seq<Seq<char>>,
)
    requires
        a.len() == 6,
        b.len() <= 1 && c.len() <= 1 && d.len() <= 1,
        e.len() <= 1 && f.len() <= 1 && g.len() <= 1,
        h.len() == 1,
    ensures
        ({
            let all = a + b + c + d + e + f + g + h;
            let n = all.len() as int;
            &&& n == 7 + b.len() + c.len() + d.len() + e.len() + f.len() + g.len()
            &&& all[0] == a[0] && all[1] == a[1] && all[2] == a[2]
            &&& all[3] == a[3] && all[4] == a[4] && all[5] == a[5]
            &&& b.len() == 1 ==> all[6] == b[0]
            &&& c.len() == 1 ==> all[6int + b.len()] == c[0]
            &&& d.len() == 1 ==> all[6int + b.len() + c.len()] == d[0]
            &&& e.len() == 1 ==> all[n - 2 - g.len() - f.len()] == e[0]
            &&& f.len() == 1 ==> all[n - 2 - g.len()] == f[0]
            &&& g.len() == 1 ==> all[n - 2] == g[0]
            &&& all[n - 1] == h[0]
        }),
{
}

/// The cost of a job is that of its bytes out of its source, with the provider's name.
pub proof fn costs_are_shown_with_their_provider(job: JobView)
    ensures
        egress_line(job) == "Egress cost:  ~$"@ + gigabytes_of(job.bytes_transferred).spec_mul(
            rate_of(job.src),
        ).fixed_text(4) + " ("@ + provider_of(job.src) + ")"@,
        estimate_lines(job.src).len() == 5,
        estimate_lines(job.src)[1] == "  Source:  "@ + provider_of(job.src),
        estimate_lines(job.src)[2] == "  Rate:    $"@ + rate_of(job.src).fixed_text(4)
            + "/GB (approximate list price)"@,
{
}

/// A copy from the command line asks for one attempt of its transfer, and for nothing else.
pub proof fn copies_get_one_attempt(src: Seq<char>, dst: Seq<char>)
    ensures
        one_shot(src, dst).src == src,
        one_shot(src, dst).dst == dst,
        one_shot(src, dst).max_attempts == Some(1u32),
        one_shot(src, dst).priority is None,
        one_shot(src, dst).run_after is None,
        one_shot(src, dst).depends_on is None,
        one_shot(src, dst).callback_url is None,
        one_shot(src, dst).cron is None,
{
}

/// All characters are white space.
pub open spec fn all_white(text: Seq<char>) -> bool {
    forall|i: int| 0 <= i < text.len() ==> is_white(#[trigger] text[i])
}

/// Trimming takes white space off both ends, and nothing else.
pub proof fn trimming_takes_white_space(before: Seq<char>, text: Seq<char>, behind: Seq<char>)
    requires
        all_white(before),
        all_white(behind),
        text.len() == 0 || (!is_white(text[0]) && !is_white(text.last())),
    ensures
        trimmed(before + text + behind) == text,
    decreases behind.len(),
{
    let whole = before + text + behind;
    if behind.len() > 0 {
        assert(is_white(behind[behind.len() - 1]));
        assert(whole.last() == behind.last());
        let rest = behind.drop_last();
        assert forall|i: int| 0 <= i < rest.len() implies is_white(#[trigger] rest[i]) by {
            assert(rest[i] == behind[i]);
        }
        assert(whole.drop_last() =~= before + text + rest);
        trimming_takes_white_space(before, text, rest);
    } else if text.len() > 0 {
        assert(whole =~= before + text);
        assert(whole.last() == text.last());
        lemma_front(before, text);
    } else {
        assert(whole =~= before);
        lemma_white_goes(before);
        assert(trimmed(whole) =~= text);
    }
}

proof fn lemma_white_goes(text: Seq<char>)
    requires
        all_white(text),
    ensures
        trimmed(text).len() == 0,
    decreases text.len(),
{
    if text.len() > 0 {
        assert(is_white(text[text.len() - 1]));
        let rest = text.drop_last();
        assert forall|i: int| 0 <= i < rest.len() implies is_white(#[trigger] rest[i]) by {
            assert(rest[i] == text[i]);
        }
        lemma_white_goes(rest);
    }
}

proof fn lemma_front(before: Seq<char>, text: Seq<char>)
    requires
        all_white(before),
        text.len() > 0,
        !is_white(text[0]),
    ensures
        trimmed_front(before + text) == text,
    decreases before.len(),
{
    let whole = before + text;
    if before.len() > 0 {
        assert(is_white(before[0]));
        assert(whole[0] == before[0]);
        let rest = before.skip(1);
        assert forall|i: int| 0 <= i < rest.len() implies is_white(#[trigger] rest[i]) by {
            assert(rest[i] == before[i + 1]);
        }
        assert(whole.skip(1) =~= rest + text);
        lemma_front(rest, text);
    } else {
        assert(whole =~= text);
    }
}

/// White space is what Unicode calls so; in ASCII, the blank and the five controls from the
/// tab to the carriage return.
pub proof fn white_space(c: char)
    ensures
        (c as u32) < 0x80 ==> (is_white(c) <==> c == ' ' || 0x9 <= c as u32 <= 0xd),
        (c as u32) > 0x3000 ==> !is_white(c),
        c as u32 == 0xa0 || c as u32 == 0x3000 || c as u32 == 0x2028 ==> is_white(c),
{
}

/// Sizes are read one by one, in order, and what is no number is left out.
pub proof fn sizes_are_read_one_by_one(parts: Seq<Seq<char>>, part: Seq<char>)
    ensures
        numbers_in(Seq::empty()) == Seq::<u64>::empty(),
        number_in(trimmed(part), u64::MAX as nat) matches Some(n) ==> numbers_in(parts.push(part))
            == numbers_in(parts).push(n as u64),
        number_in(trimmed(part), u64::MAX as nat) is None ==> numbers_in(parts.push(part))
            == numbers_in(parts),
{
    assert(parts.push(part).drop_last() =~= parts);
}

/// The mean of one time is that time. From three on, the slowest does not count.
pub proof fn the_slowest_does_not_count(times: Seq<Double>, slow: Double, slower: Double)
    ensures
        mean(Seq::empty()) == zero(),
        times.len() == 1 ==> mean(times) == sum_of_times(times).spec_div(one()),
        times.len() == 2 ==> mean(times) == sum_of_times(times).spec_div(nearest(2, 1, 0)),
        times.len() >= 2 ==> mean(times.push(slow)) == mean(times.push(slower)),
        times.len() >= 2 ==> mean(times.push(slow)) == sum_of_times(times).spec_div(
            nearest(times.len(), 1, 0),
        ),
        sum_of_times(Seq::empty()) == zero(),
        sum_of_times(times.push(slow)) == sum_of_times(times).spec_add(slow),
{
    assert(times.push(slow).drop_last() =~= times);
    assert(times.push(slower).drop_last() =~= times);
}

/// The rate of `cp` for a size is that of its last run of that size.
pub proof fn the_last_run_of_cp_counts(
    results: Seq<BenchResultView>,
    r: BenchResultView,
    size_mb: u64,
)
    ensures
        cp_rate(Seq::empty(), size_mb) is None,
        r.tool == "cp"@ && r.size_mb == size_mb ==> cp_rate(results.push(r), size_mb) == Some(
            r.throughput_mbps,
        ),
        r.tool != "cp"@ || r.size_mb != size_mb ==> cp_rate(results.push(r), size_mb) == cp_rate(
            results,
            size_mb,
        ),
{
    assert(results.push(r).drop_last() =~= results);
}

/// Every tool but `cp` is compared with `cp` on the same size, where `cp` ran on it.
pub proof fn tools_are_compared_with_cp(
    first: Seq<BenchResultView>,
    r: BenchResultView,
    all: Seq<BenchResultView>,
)
    ensures
        speedups(Seq::empty(), all) == Seq::<Seq<char>>::empty(),
        r.tool == "cp"@ ==> speedups(first.push(r), all) == speedups(first, all),
        r.tool != "cp"@ ==> (cp_rate(all, r.size_mb) matches Some(cp) ==> speedups(first.push(r), all)
            == speedups(first, all).push(speedup_line(r, cp))),
        r.tool != "cp"@ && cp_rate(all, r.size_mb) is None ==> speedups(first.push(r), all)
            == speedups(first, all),
{
    assert(first.push(r).drop_last() =~= first);
}

/// The lines of a result start with its tool and hold its size, time and speed.
pub proof fn results_are_shown(r: BenchResultView, cp: Double)
    ensures
        spans(
            markdown_line(r),
            "| "@ + r.tool + " | "@ + decimal(r.size_mb as nat) + " MiB | "@
                + r.elapsed_secs.fixed_text(2) + "s | **"@,
            r.throughput_mbps.fixed_text(1) + " MB/s** |"@,
        ),
        spans(
            speedup_line(r, cp),
            "| "@ + r.tool + " | "@ + decimal(r.size_mb as nat) + " MiB | "@,
            r.throughput_mbps.spec_div(cp).fixed_text(2) + "x |"@,
        ),
        spans(table_line(r), r.tool, r.throughput_mbps.fixed_text(1) + " MB/s"@),
        r.tool.len() <= 12 && decimal(r.size_mb as nat).len() <= 10 && r.elapsed_secs.fixed_text(
            2,
        ).len() <= 12 && r.throughput_mbps.fixed_text(1).len() <= 13 ==> {
            let line = table_line(r);
            let size = decimal(r.size_mb as nat);
            let time = r.elapsed_secs.fixed_text(2);
            &&& line.subrange(23 - size.len(), 23) == size
            &&& line.subrange(36 - time.len(), 36) == time
        },
{
    let speed = r.throughput_mbps.fixed_text(1);
    let size = decimal(r.size_mb as nat);
    let time = r.elapsed_secs.fixed_text(2);
    let a = "| "@ + r.tool + " | "@ + size + " MiB | "@ + time + "s | **"@;
    assert(markdown_line(r) =~= a + (speed + " MB/s** |"@));
    assert(markdown_line(r).take(a.len() as int) =~= a);
    assert(markdown_line(r).skip(a.len() as int) =~= speed + " MB/s** |"@);
    let b = "| "@ + r.tool + " | "@ + size + " MiB | "@;
    let c = r.throughput_mbps.spec_div(cp).fixed_text(2) + "x |"@;
    assert(speedup_line(r, cp) =~= b + c);
    assert(speedup_line(r, cp).take(b.len() as int) =~= b);
    assert(speedup_line(r, cp).skip(b.len() as int) =~= c);
    reveal_strlit(" ");
    aligned_texts_fill_their_column(r.tool, 12);
    aligned_texts_fill_their_column(size, 10);
    aligned_texts_fill_their_column(time, 12);
    aligned_texts_fill_their_column(speed, 13);
    let tool = left_aligned(r.tool, 12);
    let size_column = crate::text::right_aligned(size, 10);
    let time_column = crate::text::right_aligned(time, 12);
    let speed_column = crate::text::right_aligned(speed, 13);
    let line = table_line(r);
    assert(line =~= tool + " "@ + size_column + " "@ + time_column + " "@ + speed_column
        + " MB/s"@);
    let n = r.tool.len() as int;
    assert(line.take(n) =~= r.tool) by {
        assert forall|i: int| 0 <= i < n implies line[i] == r.tool[i] by {
            assert(tool.take(n)[i] == tool[i]);
        }
    }
    let end = speed + " MB/s"@;
    let at = line.len() - end.len();
    let pad = speed_column.len() - speed.len();
    assert(line.skip(at) =~= end) by {
        assert forall|i: int| 0 <= i < speed.len() implies line[at + i] == speed[i] by {
            assert(line[at + i] == speed_column[pad + i]);
            assert(speed_column.skip(pad)[i] == speed_column[pad + i]);
        }
    }
    if n <= 12 && size.len() <= 10 && time.len() <= 12 && speed.len() <= 13 {
        assert(line.subrange(23 - size.len(), 23) =~= size) by {
            assert forall|i: int| 0 <= i < size.len() implies line[23 - size.len() + i]
                == size[i] by {
                assert(line[23 - size.len() + i] == size_column[10 - size.len() + i]);
                assert(size_column.skip(10 - size.len())[i] == size_column[10 - size.len() + i]);
            }
        }
        assert(line.subrange(36 - time.len(), 36) =~= time) by {
            assert forall|i: int| 0 <= i < time.len() implies line[36 - time.len() + i]
                == time[i] by {
                assert(line[36 - time.len() + i] == time_column[12 - time.len() + i]);
                assert(time_column.skip(12 - time.len())[i] == time_column[12 - time.len() + i]);
            }
        }
    }
}

/// The tables of results have their heads, and then a line for each result, in order.
pub proof fn results_stand_in_order(results: Seq<BenchResultView>, i: int)
    requires
        0 <= i < results.len(),
    ensures
        crate::bench::table_of(results).len() == results.len() + 4,
        crate::bench::table_of(results)[i + 4] == table_line(results[i]),
        markdown_of(results).len() == results.len() + 7 + speedups(results, results).len(),
        markdown_of(results)[i + 3] == markdown_line(results[i]),
        markdown_of(results).skip(results.len() as int + 7) == speedups(results, results),
{
    let n = results.len() as int;
    assert(markdown_of(results).skip(n + 7) =~= speedups(results, results));
}

/// A result is seen as it is.
pub proof fn results_are_seen(r: BenchResult)
    ensures
        r@.tool == r.tool@,
        r@.size_mb == r.size_mb,
        r@.elapsed_secs == r.elapsed_secs,
        r@.throughput_mbps == r.throughput_mbps,
{
}

/// In times that are in order, none is longer than one behind it.
pub proof fn times_in_order(times: Seq<Double>, i: int, j: int)
    requires
        ordered(times),
        0 <= i <= j < times.len(),
    ensures
        !times[j].below(times[i]),
        times.len() >= 3 ==> kept_times(times) == times.drop_last(),
        times.len() < 3 ==> kept_times(times) == times,
{
}

/// The sum of a transfer says how much was copied, in what time, how fast, and for how much.
pub proof fn sums_say_how_much(src: Seq<char>, bytes: u64, secs: u64, nanos: u32, mbps: Double)
    ensures
        ({
            let line = summary_line(src, bytes, secs, nanos, mbps);
            let usd = gigabytes_of(bytes).spec_mul(rate_of(src)).fixed_text(4);
            let start = "\nTransferred "@ + human(bytes) + " in "@ + seconds_of(
                secs,
                nanos,
            ).fixed_text(1) + "s  ("@ + mbps.fixed_text(1);
            spans(line, start, " MB/s)  ~$"@ + usd + " egress"@) && line.len() == start.len() + (
            " MB/s)  ~$"@ + usd + " egress"@).len()
        }),
{
    let usd = gigabytes_of(bytes).spec_mul(rate_of(src)).fixed_text(4);
    let start = "\nTransferred "@ + human(bytes) + " in "@ + seconds_of(secs, nanos).fixed_text(1)
        + "s  ("@ + mbps.fixed_text(1);
    let end = " MB/s)  ~$"@ + usd + " egress"@;
    let line = summary_line(src, bytes, secs, nanos, mbps);
    assert(line =~= start + end);
    assert(line.take(start.len() as int) =~= start);
    assert(line.skip(start.len() as int) =~= end);
}

/// A tool moves its size over its time, and in one second its size in MiB per second.
pub proof fn results_are_size_over_time(tool: Seq<char>, size_mb: u64, time: Double)
    requires
        size_mb > 0,
    ensures
        measured(tool, size_mb, time).tool == tool,
        measured(tool, size_mb, time).size_mb == size_mb,
        measured(tool, size_mb, time).elapsed_secs == time,
        measured(tool, size_mb, time).throughput_mbps == nearest(size_mb as nat, 1, 0).spec_div(
            time,
        ),
        measured(tool, size_mb, one()).throughput_mbps == nearest(size_mb as nat, 1, 0),
{
    vstd::arithmetic::power2::lemma2_to64();
    crate::double::lemma_magnitude(size_mb as nat, 1, 0, 64);
    crate::double::nearest_is_valid(size_mb as nat, 1, 0);
    one_changes_nothing(nearest(size_mb as nat, 1, 0));
}

} // verus!
