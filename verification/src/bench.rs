//! The benchmark: which sizes are run, how times are averaged, and what is printed.
use vstd::prelude::*;
use crate::double::{nearest, order_is_that_of_bits, zero, Double};
use crate::text::{
    align_left, align_right, chars_of, decimal, decimal_text, left_aligned, number_in,
    parse_number, pieces, repeat, repeated, right_aligned, same_text, split, texts_view, Separator,
};

verus! {

/// A character that counts as white space in Unicode.
pub open spec fn is_white(c: char) -> bool {
    let n = c as u32;
    ||| 0x9 <= n <= 0xd
    ||| n == 0x20
    ||| n == 0x85
    ||| n == 0xa0
    ||| n == 0x1680
    ||| 0x2000 <= n <= 0x200a
    ||| n == 0x2028
    ||| n == 0x2029
    ||| n == 0x202f
    ||| n == 0x205f
    ||| n == 0x3000
}

/// The text without white space at its start.
pub open spec fn trimmed_front(text: Seq<char>) -> Seq<char>
    decreases text.len(),
{
    if text.len() > 0 && is_white(text[0]) {
        trimmed_front(text.skip(1))
    } else {
        text
    }
}

/// The text without white space at its start and at its end.
pub open spec fn trimmed(text: Seq<char>) -> Seq<char>
    decreases text.len(),
{
    if text.len() > 0 && is_white(text.last()) {
        trimmed(text.drop_last())
    } else {
        trimmed_front(text)
    }
}

fn char_is_white(c: char) -> (yes: bool)
    ensures
        yes == is_white(c),
{
    let n: u32 = c as u32;
    (n >= 0x9 && n <= 0xd) || n == 0x20 || n == 0x85 || n == 0xa0 || n == 0x1680 || (n >= 0x2000
        && n <= 0x200a) || n == 0x2028 || n == 0x2029 || n == 0x202f || n == 0x205f || n == 0x3000
}

/// Takes white space off both ends.
pub fn trim<'a>(text: &'a str) -> (rest: &'a str)
    ensures
        rest@ == trimmed(text@),
{
    let chars = chars_of(text);
    let mut end: usize = chars.len();
    assert(text@.take(end as int) =~= text@);
    while end > 0 && char_is_white(chars[end - 1])
        invariant
            chars@ == text@,
            end <= chars.len(),
            trimmed(text@) == trimmed(text@.take(end as int)),
        decreases end,
    {
        assert(text@.take(end as int).drop_last() =~= text@.take(end - 1));
        assert(text@.take(end as int).last() == text@[end - 1]);
        end -= 1;
    }
    let ghost body = text@.take(end as int);
    assert(trimmed(body) == trimmed_front(body)) by {
        if end > 0 {
            assert(body.last() == text@[end - 1]);
        }
    }
    let mut start: usize = 0;
    assert(body.skip(0) =~= body);
    while start < end && char_is_white(chars[start])
        invariant
            chars@ == text@,
            start <= end <= chars.len(),
            body == text@.take(end as int),
            trimmed_front(body) == trimmed_front(body.skip(start as int)),
        decreases end - start,
    {
        assert(body.skip(start as int).skip(1) =~= body.skip(start + 1));
        assert(body.skip(start as int)[0] == text@[start as int]);
        start += 1;
    }
    let rest = text.substring_char(start, end);
    proof {
        assert(rest@ =~= body.skip(start as int));
        if start < end {
            assert(body.skip(start as int)[0] == text@[start as int]);
        }
    }
    rest
}

/// The numbers among texts; what is no number is left out.
pub open spec fn numbers_in(parts: Seq<Seq<char>>) -> Seq<u64>
    decreases parts.len(),
{
    if parts.len() == 0 {
        Seq::empty()
    } else {
        match number_in(trimmed(parts.last()), u64::MAX as nat) {
            Some(n) => numbers_in(parts.drop_last()).push(n as u64),
            None => numbers_in(parts.drop_last()),
        }
    }
}

/// Reads a list of sizes in MiB, with commas between.
pub fn parse_sizes(text: &str) -> (sizes: Vec<u64>)
    ensures
        sizes@ == numbers_in(pieces(text@, Separator::Comma)),
{
    let parts = split(text, Separator::Comma);
    let ghost all = texts_view(parts@);
    let mut sizes: Vec<u64> = Vec::new();
    let mut i: usize = 0;
    assert(all.take(0) =~= Seq::<Seq<char>>::empty());
    while i < parts.len()
        invariant
            i <= parts@.len() == all.len(),
            all == texts_view(parts@),
            sizes@ == numbers_in(all.take(i as int)),
        decreases parts.len() - i,
    {
        proof {
            assert(all.take(i + 1).drop_last() =~= all.take(i as int));
            assert(all.take(i + 1).last() == parts@[i as int]@);
        }
        if let Some(n) = parse_number(trim(parts[i].as_str()), u64::MAX) {
            sizes.push(n);
        }
        i += 1;
    }
    assert(all.take(i as int) =~= all);
    sizes
}

/// Bytes in a file of the given size in MiB, if they can be counted.
pub fn payload_bytes(size_mb: u64) -> (n: Option<u64>)
    ensures
        match n {
            Some(n) => n == size_mb * 1048576,
            None => size_mb * 1048576 > u64::MAX,
        },
{
    size_mb.checked_mul(1048576)
}

/// Name of the test file of the given size.
pub fn payload_name(size_mb: u64) -> (name: String)
    ensures
        name@ == "payload_"@ + decimal(size_mb as nat) + "mb.bin"@,
{
    let mut name = "payload_".to_owned();
    name.append(decimal_text(size_mb as u128).as_str());
    name.append("mb.bin");
    name
}

/// Whether a test file has to be written: not if one of that size is there.
pub fn needs_file(existing: Option<u64>, size: u64) -> (yes: bool)
    ensures
        yes == (existing != Some(size)),
{
    match existing {
        Some(n) => n != size,
        None => true,
    }
}

/// Bytes written at a time: 1 MiB.
pub const FILL_BYTES: usize = 1048576;

/// How many bytes to write next when `remaining` are left.
pub fn next_fill(remaining: usize) -> (n: usize)
    ensures
        n == (if remaining < FILL_BYTES {
            remaining
        } else {
            FILL_BYTES
        }),
        remaining > 0 ==> 0 < n <= remaining,
{
    if remaining < FILL_BYTES {
        remaining
    } else {
        FILL_BYTES
    }
}

/// Where a test file is uploaded to.
pub fn upload_url(bucket: &str, prefix: &str, file_name: &str) -> (url: String)
    ensures
        url@ == "s3://"@ + bucket@ + "/"@ + prefix@ + "/"@ + file_name@,
{
    let mut url = "s3://".to_owned();
    url.append(bucket);
    url.append("/");
    url.append(prefix);
    url.append("/");
    url.append(file_name);
    url
}

/// Times are in order, the shortest first.
pub open spec fn ordered(times: Seq<Double>) -> bool {
    forall|i: int, j: int|
        0 <= i <= j < times.len() ==> !(#[trigger] times[j]).below(#[trigger] times[i])
}

/// The times added up, the first first.
pub open spec fn sum_of_times(times: Seq<Double>) -> Double
    decreases times.len(),
{
    if times.len() == 0 {
        zero()
    } else {
        sum_of_times(times.drop_last()).spec_add(times.last())
    }
}

/// What is averaged of times in order: all, or from three on all but the slowest.
pub open spec fn kept_times(times: Seq<Double>) -> Seq<Double> {
    if times.len() >= 3 {
        times.drop_last()
    } else {
        times
    }
}

/// The mean of times in order, without the slowest of three or more.
pub open spec fn mean(times: Seq<Double>) -> Double {
    if times.len() == 0 {
        zero()
    } else {
        sum_of_times(kept_times(times)).spec_div(nearest(kept_times(times).len(), 1, 0))
    }
}

/// Every time is a number.
pub open spec fn all_numbers(times: Seq<Double>) -> bool {
    forall|i: int|
        0 <= i < times.len() ==> (#[trigger] times[i]).valid() && times[i] != Double::Nan
}

proof fn lemma_insert_in_order(times: Seq<Double>, at: int, t: Double)
    requires
        0 <= at <= times.len(),
        all_numbers(times),
        t.valid(),
        t != Double::Nan,
        ordered(times),
        at > 0 ==> !t.below(times[at - 1]),
        at < times.len() ==> t.below(times[at]),
    ensures
        ordered(times.insert(at, t)),
        all_numbers(times.insert(at, t)),
        times.insert(at, t).to_multiset() == times.to_multiset().insert(t),
{
    let more = times.insert(at, t);
    assert forall|i: int, j: int| 0 <= i <= j < more.len() implies !(#[trigger] more[j]).below(
        #[trigger] more[i],
    ) by {
        order_is_that_of_bits(more[j], more[i]);
        if i < at {
            assert(more[i] == times[i]);
            if j < at {
                assert(more[j] == times[j]);
            } else {
                assert(!times[at - 1].below(times[i]));
                order_is_that_of_bits(times[at - 1], times[i]);
                order_is_that_of_bits(t, times[at - 1]);
                if j > at {
                    assert(more[j] == times[j - 1]);
                    assert(!times[j - 1].below(times[i]));
                }
            }
        } else if j > at {
            assert(more[j] == times[j - 1]);
            if i > at {
                assert(more[i] == times[i - 1]);
                assert(!times[j - 1].below(times[i - 1]));
            } else {
                assert(!times[j - 1].below(times[at]));
                order_is_that_of_bits(times[j - 1], times[at]);
                order_is_that_of_bits(t, times[at]);
            }
        }
    }
    assert(more.remove(at) =~= times);
    assert(more[at] == t);
    more.to_multiset_ensures();
    assert(more.contains(t));
    assert(more.to_multiset() =~= more.remove(at).to_multiset().insert(t));
}

/// Puts times in order, the shortest first.
fn sorted(times: &Vec<Double>) -> (order: Vec<Double>)
    requires
        all_numbers(times@),
    ensures
        ordered(order@),
        all_numbers(order@),
        order@.to_multiset() == times@.to_multiset(),
        order@.len() == times@.len(),
{
    let mut order: Vec<Double> = Vec::new();
    let mut k: usize = 0;
    assert(times@.take(0) =~= Seq::<Double>::empty());
    assert(order@ =~= times@.take(0));
    while k < times.len()
        invariant
            k <= times@.len(),
            all_numbers(times@),
            ordered(order@),
            all_numbers(order@),
            order@.len() == k,
            order@.to_multiset() == times@.take(k as int).to_multiset(),
        decreases times.len() - k,
    {
        let t = times[k];
        let mut at: usize = order.len();
        while at > 0 && t.is_below(order[at - 1])
            invariant
                at <= order@.len(),
                t.valid(),
                all_numbers(order@),
                at < order@.len() ==> t.below(order@[at as int]),
            decreases at,
        {
            at -= 1;
        }
        proof {
            lemma_insert_in_order(order@, at as int, t);
            assert(times@.take(k as int).push(t) =~= times@.take(k + 1));
            times@.take(k as int).to_multiset_ensures();
        }
        order.insert(at, t);
        k += 1;
    }
    assert(times@.take(k as int) =~= times@);
    order
}

/// Averages times. From three on, the slowest is left out: it is the one in which
/// everything was still cold.
pub fn avg(times: &Vec<Double>) -> (r: Double)
    requires
        all_numbers(times@),
    ensures
        exists|order: Seq<Double>|
            {
                &&& #[trigger] ordered(order)
                &&& order.to_multiset() == times@.to_multiset()
                &&& r == mean(order)
            },
        r.valid(),
{
    let order = sorted(times);
    let total: usize = order.len();
    if total == 0 {
        assert(ordered(order@) && zero() == mean(order@));
        return Double::zero_value();
    }
    let count: usize = if total >= 3 {
        total - 1
    } else {
        total
    };
    let ghost kept = kept_times(order@);
    assert(kept =~= order@.take(count as int));
    let mut sum = Double::zero_value();
    let mut i: usize = 0;
    assert(kept.take(0) =~= Seq::<Double>::empty());
    while i < count
        invariant
            i <= count <= order@.len(),
            all_numbers(order@),
            kept == order@.take(count as int),
            sum == sum_of_times(kept.take(i as int)),
            sum.valid(),
        decreases count - i,
    {
        proof {
            assert(kept.take(i + 1).drop_last() =~= kept.take(i as int));
            assert(kept.take(i + 1).last() == order@[i as int]);
        }
        sum = sum.plus(order[i]);
        i += 1;
    }
    assert(kept.take(i as int) =~= kept);
    let r = sum.over(Double::from_u64(count as u64));
    assert(ordered(order@) && r == mean(order@));
    r
}

/// Times in order are determined by which times there are, and so is their mean.
pub proof fn mean_is_determined(a: Seq<Double>, b: Seq<Double>)
    requires
        all_numbers(a),
        all_numbers(b),
        ordered(a),
        ordered(b),
        a.to_multiset() == b.to_multiset(),
    ensures
        a == b,
        mean(a) == mean(b),
    decreases a.len(),
{
    a.to_multiset_ensures();
    b.to_multiset_ensures();
    assert(a.len() == b.len());
    if a.len() > 0 {
        let n = a.len() - 1;
        let x = a[n];
        let y = b[n];
        assert(a.contains(x) && a.to_multiset().count(x) > 0);
        assert(b.contains(y) && b.to_multiset().count(y) > 0);
        assert(b.to_multiset().count(x) > 0 && a.to_multiset().count(y) > 0);
        let i = choose|i: int| 0 <= i < b.len() && b[i] == x;
        let j = choose|j: int| 0 <= j < a.len() && a[j] == y;
        assert(!b[n].below(b[i]));
        assert(!a[n].below(a[j]));
        order_is_that_of_bits(x, y);
        order_is_that_of_bits(y, x);
        assert(x.bits() == y.bits());
        crate::double::bits_round_trip(x);
        crate::double::bits_round_trip(y);
        assert(a.remove(n) =~= a.drop_last());
        assert(b.remove(n) =~= b.drop_last());
        mean_is_determined(a.drop_last(), b.drop_last());
        assert(a =~= a.drop_last().push(x));
        assert(b =~= b.drop_last().push(y));
    }
}

/// What one tool did on files of one size.
#[derive(Debug)]
pub struct BenchResult {
    pub tool: String,
    pub size_mb: u64,
    pub elapsed_secs: Double,
    pub throughput_mbps: Double,
}

/// What a `BenchResult` is, with its tool as a character sequence.
pub struct BenchResultView {
    pub tool: Seq<char>,
    pub size_mb: u64,
    pub elapsed_secs: Double,
    pub throughput_mbps: Double,
}

impl View for BenchResult {
    type V = BenchResultView;

    open spec fn view(&self) -> BenchResultView {
        BenchResultView {
            tool: self.tool@,
            size_mb: self.size_mb,
            elapsed_secs: self.elapsed_secs,
            throughput_mbps: self.throughput_mbps,
        }
    }
}

impl BenchResultView {
    /// The time and the throughput are doubles.
    pub open spec fn valid(self) -> bool {
        self.elapsed_secs.valid() && self.throughput_mbps.valid()
    }
}

pub open spec fn result_views(results: Seq<BenchResult>) -> Seq<BenchResultView> {
    results.map_values(|r: BenchResult| r@)
}

pub open spec fn all_valid(results: Seq<BenchResultView>) -> bool {
    forall|i: int| 0 <= i < results.len() ==> (#[trigger] results[i]).valid()
}

/// The result of a tool that took the given time on average.
pub open spec fn measured(tool: Seq<char>, size_mb: u64, elapsed_secs: Double) -> BenchResultView {
    BenchResultView {
        tool,
        size_mb,
        elapsed_secs,
        throughput_mbps: nearest(size_mb as nat, 1, 0).spec_div(elapsed_secs),
    }
}

/// The result of a tool that took the given time on average.
pub fn bench_result(tool: &str, size_mb: u64, elapsed_secs: Double) -> (r: BenchResult)
    requires
        elapsed_secs.valid(),
    ensures
        r@ == measured(tool@, size_mb, elapsed_secs),
        r@.valid(),
{
    BenchResult {
        tool: tool.to_owned(),
        size_mb,
        elapsed_secs,
        throughput_mbps: Double::from_u64(size_mb).over(elapsed_secs),
    }
}

/// The line that a run prints, behind the tool's label.
pub fn run_line(label: &str, r: &BenchResult) -> (line: String)
    requires
        r@.valid(),
    ensures
        line@ == label@ + decimal(r.size_mb as nat) + " MiB in "@ + r.elapsed_secs.fixed_text(2)
            + "s  ("@ + r.throughput_mbps.fixed_text(1) + " MB/s)"@,
{
    let mut line = label.to_owned();
    line.append(decimal_text(r.size_mb as u128).as_str());
    line.append(" MiB in ");
    line.append(r.elapsed_secs.fixed(2).as_str());
    line.append("s  (");
    line.append(r.throughput_mbps.fixed(1).as_str());
    line.append(" MB/s)");
    line
}

/// What to do about `aws s3 cp`.
#[derive(Clone, Copy, PartialEq, Eq, Structural, Debug)]
pub enum AwsStep {
    /// It was not asked for.
    Skip,
    /// It needs a bucket.
    NeedsBucket,
    /// It is not installed.
    NotFound,
    Run,
}

/// Decides what to do about `aws s3 cp`.
pub fn aws_step(wanted: bool, has_bucket: bool, installed: bool) -> (step: AwsStep)
    ensures
        step == (if !wanted {
            AwsStep::Skip
        } else if !has_bucket {
            AwsStep::NeedsBucket
        } else if !installed {
            AwsStep::NotFound
        } else {
            AwsStep::Run
        }),
{
    if !wanted {
        AwsStep::Skip
    } else if !has_bucket {
        AwsStep::NeedsBucket
    } else if !installed {
        AwsStep::NotFound
    } else {
        AwsStep::Run
    }
}

/// A result's line in the table.
pub open spec fn table_line(r: BenchResultView) -> Seq<char> {
    left_aligned(r.tool, 12) + " "@ + right_aligned(decimal(r.size_mb as nat), 10) + " "@
        + right_aligned(r.elapsed_secs.fixed_text(2), 12) + " "@ + right_aligned(
        r.throughput_mbps.fixed_text(1),
        13,
    ) + " MB/s"@
}

/// The head of the table.
pub open spec fn table_top() -> Seq<Seq<char>> {
    seq![
        "Results"@,
        "-------"@,
        left_aligned("Tool"@, 12) + " "@ + right_aligned("Size (MiB)"@, 10) + " "@ + right_aligned(
            "Time (s)"@,
            12,
        ) + " "@ + right_aligned("Throughput"@, 14),
        repeated('-', 52),
    ]
}

/// The results as a table.
pub open spec fn table_of(results: Seq<BenchResultView>) -> Seq<Seq<char>> {
    table_top() + results.map_values(|r: BenchResultView| table_line(r))
}

fn table_line_text(r: &BenchResult) -> (line: String)
    requires
        r@.valid(),
    ensures
        line@ == table_line(r@),
{
    let mut line = align_left(r.tool.as_str(), 12);
    line.append(" ");
    line.append(align_right(decimal_text(r.size_mb as u128).as_str(), 10).as_str());
    line.append(" ");
    line.append(align_right(r.elapsed_secs.fixed(2).as_str(), 12).as_str());
    line.append(" ");
    line.append(align_right(r.throughput_mbps.fixed(1).as_str(), 13).as_str());
    line.append(" MB/s");
    line
}

/// Adds a line.
fn add_line(lines: &mut Vec<String>, line: String)
    ensures
        texts_view(final(lines)@) == texts_view(old(lines)@).push(line@),
{
    let ghost before = lines@;
    let ghost text = line@;
    lines.push(line);
    assert(texts_view(lines@) =~= texts_view(before).push(text));
}

/// The lines of the results as a table.
pub fn print_table(results: &Vec<BenchResult>) -> (lines: Vec<String>)
    requires
        all_valid(result_views(results@)),
    ensures
        texts_view(lines@) == table_of(result_views(results@)),
{
    let mut head = align_left("Tool", 12);
    head.append(" ");
    head.append(align_right("Size (MiB)", 10).as_str());
    head.append(" ");
    head.append(align_right("Time (s)", 12).as_str());
    head.append(" ");
    head.append(align_right("Throughput", 14).as_str());
    proof {
        reveal_strlit("-");
    }
    let mut lines: Vec<String> = Vec::new();
    lines.push("Results".to_owned());
    lines.push("-------".to_owned());
    lines.push(head);
    lines.push(repeat("-", 52));
    let ghost views = result_views(results@);
    let ghost wanted = views.map_values(|r: BenchResultView| table_line(r));
    let mut i: usize = 0;
    assert(texts_view(lines@) =~= table_top() + wanted.take(0));
    while i < results.len()
        invariant
            i <= results@.len() == wanted.len(),
            views == result_views(results@),
            all_valid(views),
            wanted == views.map_values(|r: BenchResultView| table_line(r)),
            texts_view(lines@) == table_top() + wanted.take(i as int),
        decreases results.len() - i,
    {
        assert(views[i as int] == results@[i as int]@);
        add_line(&mut lines, table_line_text(&results[i]));
        proof {
            assert(wanted.take(i + 1) =~= wanted.take(i as int).push(wanted[i as int]));
            assert(texts_view(lines@) =~= table_top() + wanted.take(i + 1));
        }
        i += 1;
    }
    assert(wanted.take(i as int) =~= wanted);
    lines
}

/// A result's line in the Markdown table.
pub open spec fn markdown_line(r: BenchResultView) -> Seq<char> {
    "| "@ + r.tool + " | "@ + decimal(r.size_mb as nat) + " MiB | "@ + r.elapsed_secs.fixed_text(2)
        + "s | **"@ + r.throughput_mbps.fixed_text(1) + " MB/s** |"@
}

/// The throughput of plain `cp` on files of a size: that of its last run.
pub open spec fn cp_rate(results: Seq<BenchResultView>, size_mb: u64) -> Option<Double>
    decreases results.len(),
{
    if results.len() == 0 {
        None
    } else if results.last().tool == "cp"@ && results.last().size_mb == size_mb {
        Some(results.last().throughput_mbps)
    } else {
        cp_rate(results.drop_last(), size_mb)
    }
}

/// The line that compares a result with plain `cp`.
pub open spec fn speedup_line(r: BenchResultView, cp: Double) -> Seq<char> {
    "| "@ + r.tool + " | "@ + decimal(r.size_mb as nat) + " MiB | "@ + r.throughput_mbps.spec_div(
        cp,
    ).fixed_text(2) + "x |"@
}

/// The lines that compare the first results with plain `cp`, where there is a result of
/// `cp` among all results to compare with.
pub open spec fn speedups(first: Seq<BenchResultView>, all: Seq<BenchResultView>) -> Seq<Seq<char>>
    decreases first.len(),
{
    if first.len() == 0 {
        Seq::empty()
    } else {
        let before = speedups(first.drop_last(), all);
        let r = first.last();
        if r.tool == "cp"@ {
            before
        } else {
            match cp_rate(all, r.size_mb) {
                Some(cp) => before.push(speedup_line(r, cp)),
                None => before,
            }
        }
    }
}

/// The head of the Markdown tables.
pub open spec fn markdown_top() -> Seq<Seq<char>> {
    seq![
        "## Slate Benchmark Results\n"@,
        "| Tool | Size | Time | Throughput |"@,
        "|------|------|------|------------|"@,
    ]
}

/// What stands between the two Markdown tables.
pub open spec fn markdown_middle() -> Seq<Seq<char>> {
    seq![
        ""@,
        "### Speedup vs `cp`\n"@,
        "| Tool | Size | Speedup |"@,
        "|------|------|---------|"@,
    ]
}

/// The results in Markdown.
pub open spec fn markdown_of(results: Seq<BenchResultView>) -> Seq<Seq<char>> {
    markdown_top() + results.map_values(|r: BenchResultView| markdown_line(r)) + markdown_middle()
        + speedups(results, results)
}

fn markdown_line_text(r: &BenchResult) -> (line: String)
    requires
        r@.valid(),
    ensures
        line@ == markdown_line(r@),
{
    let mut line = "| ".to_owned();
    line.append(r.tool.as_str());
    line.append(" | ");
    line.append(decimal_text(r.size_mb as u128).as_str());
    line.append(" MiB | ");
    line.append(r.elapsed_secs.fixed(2).as_str());
    line.append("s | **");
    line.append(r.throughput_mbps.fixed(1).as_str());
    line.append(" MB/s** |");
    line
}

fn speedup_line_text(r: &BenchResult, cp: Double) -> (line: String)
    requires
        r@.valid(),
        cp.valid(),
    ensures
        line@ == speedup_line(r@, cp),
{
    let mut line = "| ".to_owned();
    line.append(r.tool.as_str());
    line.append(" | ");
    line.append(decimal_text(r.size_mb as u128).as_str());
    line.append(" MiB | ");
    line.append(r.throughput_mbps.over(cp).fixed(2).as_str());
    line.append("x |");
    line
}

/// Looks up the throughput of plain `cp` on files of a size.
pub fn cp_throughput(results: &Vec<BenchResult>, size_mb: u64) -> (rate: Option<Double>)
    requires
        all_valid(result_views(results@)),
    ensures
        rate == cp_rate(result_views(results@), size_mb),
        rate matches Some(d) ==> d.valid(),
{
    let ghost views = result_views(results@);
    let mut i: usize = results.len();
    assert(views.take(i as int) =~= views);
    while i > 0
        invariant
            i <= results@.len() == views.len(),
            views == result_views(results@),
            all_valid(views),
            cp_rate(views, size_mb) == cp_rate(views.take(i as int), size_mb),
        decreases i,
    {
        i -= 1;
        let r = &results[i];
        proof {
            assert(views[i as int] == r@);
            assert(views.take(i + 1).last() == r@);
            assert(views.take(i + 1).drop_last() =~= views.take(i as int));
        }
        if r.size_mb == size_mb && same_text(r.tool.as_str(), "cp") {
            return Some(r.throughput_mbps);
        }
    }
    None
}

/// The lines of the results in Markdown.
pub fn print_markdown(results: &Vec<BenchResult>) -> (lines: Vec<String>)
    requires
        all_valid(result_views(results@)),
    ensures
        texts_view(lines@) == markdown_of(result_views(results@)),
{
    let ghost views = result_views(results@);
    let ghost rows = views.map_values(|r: BenchResultView| markdown_line(r));
    let mut lines: Vec<String> = Vec::new();
    lines.push("## Slate Benchmark Results\n".to_owned());
    lines.push("| Tool | Size | Time | Throughput |".to_owned());
    lines.push("|------|------|------|------------|".to_owned());
    let mut i: usize = 0;
    assert(texts_view(lines@) =~= markdown_top() + rows.take(0));
    while i < results.len()
        invariant
            i <= results@.len() == rows.len(),
            views == result_views(results@),
            all_valid(views),
            rows == views.map_values(|r: BenchResultView| markdown_line(r)),
            texts_view(lines@) == markdown_top() + rows.take(i as int),
        decreases results.len() - i,
    {
        assert(views[i as int] == results@[i as int]@);
        add_line(&mut lines, markdown_line_text(&results[i]));
        proof {
            assert(rows.take(i + 1) =~= rows.take(i as int).push(rows[i as int]));
            assert(texts_view(lines@) =~= markdown_top() + rows.take(i + 1));
        }
        i += 1;
    }
    assert(rows.take(i as int) =~= rows);
    let ghost above = texts_view(lines@);
    lines.push("".to_owned());
    lines.push("### Speedup vs `cp`\n".to_owned());
    lines.push("| Tool | Size | Speedup |".to_owned());
    lines.push("|------|------|---------|".to_owned());
    let ghost head = above + markdown_middle();
    assert(texts_view(lines@) =~= head);
    let mut j: usize = 0;
    assert(views.take(0) =~= Seq::<BenchResultView>::empty());
    assert(texts_view(lines@) =~= head + speedups(views.take(0), views));
    while j < results.len()
        invariant
            j <= results@.len() == views.len(),
            views == result_views(results@),
            all_valid(views),
            texts_view(lines@) == head + speedups(views.take(j as int), views),
        decreases results.len() - j,
    {
        let r = &results[j];
        let ghost so_far = speedups(views.take(j as int), views);
        proof {
            assert(views[j as int] == r@);
            assert(views.take(j + 1).drop_last() =~= views.take(j as int));
            assert(views.take(j + 1).last() == r@);
        }
        if !same_text(r.tool.as_str(), "cp") {
            if let Some(cp) = cp_throughput(results, r.size_mb) {
                add_line(&mut lines, speedup_line_text(r, cp));
                assert(texts_view(lines@) =~= head + so_far.push(speedup_line(r@, cp)));
            }
        }
        j += 1;
    }
    assert(views.take(j as int) =~= views);
    lines
}

} // verus!
