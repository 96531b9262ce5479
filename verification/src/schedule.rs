//! Cron expressions: when a schedule runs next.
use vstd::prelude::*;
use crate::text::{
    digit_char, digit_text, number_in, parse_number, pieces, split, texts_view, words,
    words_of, Separator,
};
use crate::time::{Timestamp, MAX_SECS};

verus! {

/// The first second of the year 2101, after the last year of any schedule.
pub const SCHEDULE_END_SECS: i64 = 4133980800;

/// The first instant after the given one that a cron expression of six or seven fields
/// names, as the crate `cron` finds it, or the text of its error.
pub uninterp spec fn cron_upcoming(expr: Seq<char>, secs: i64, nanos: u32) -> Result<
    Option<(i64, u32)>,
    Seq<char>,
>;

/// What a search for the next run found, with an error's text as a character sequence.
pub open spec fn found_view(found: Result<Option<Timestamp>, String>) -> Result<
    Option<Timestamp>,
    Seq<char>,
> {
    match found {
        Ok(t) => Ok(t),
        Err(e) => Err(e@),
    }
}

/// What the crate `cron` finds for an expression.
pub open spec fn upcoming_of(expr: Seq<char>, after: Timestamp) -> Result<
    Option<Timestamp>,
    Seq<char>,
> {
    match cron_upcoming(expr, after.secs, after.nanos) {
        Ok(Some((secs, nanos))) => Ok(Some(Timestamp { secs, nanos })),
        Ok(None) => Ok(None),
        Err(e) => Err(e),
    }
}

/// A run of a schedule: later than `after`, on a full second, in the years that
/// schedules cover.
pub open spec fn is_run_after(t: Timestamp, after: Timestamp) -> bool {
    &&& t.secs > after.secs
    &&& t.nanos == 0
    &&& 0 <= t.secs < SCHEDULE_END_SECS
}

/// Parses an expression with `cron::Schedule::from_str` and takes the first item of
/// `cron::Schedule::after`. What comes back is what `cron_upcoming` names. A run that
/// is found is later than `after`, on a full second, in the years 1970 to 2100. The
/// search starts one second on, and panics where the calendar ends before that.
#[verifier::external_body]
fn upcoming(expr: &str, after: Timestamp) -> (found: Result<Option<Timestamp>, String>)
    requires
        after.valid(),
        after.secs < MAX_SECS,
    ensures
        match found {
            Ok(Some(t)) => cron_upcoming(expr@, after.secs, after.nanos) == Ok::<
                Option<(i64, u32)>,
                Seq<char>,
            >(Some((t.secs, t.nanos))),
            Ok(None) => cron_upcoming(expr@, after.secs, after.nanos) == Ok::<
                Option<(i64, u32)>,
                Seq<char>,
            >(None),
            Err(e) => cron_upcoming(expr@, after.secs, after.nanos) == Err::<
                Option<(i64, u32)>,
                Seq<char>,
            >(e@),
        },
        found matches Ok(Some(t)) ==> is_run_after(t, after),
{
    let start = chrono::DateTime::from_timestamp(after.secs, after.nanos).unwrap();
    let schedule: cron::Schedule = expr.parse().map_err(|e: cron::error::Error| e.to_string())?;
    let next = schedule.after(&start).next();
    Ok(next.map(|t| Timestamp { secs: t.timestamp(), nanos: t.timestamp_subsec_nanos() }))
}

/// The day of the week that one digit names, Sunday being both 0 and 7.
pub open spec fn day_in(text: Seq<char>) -> Option<int> {
    if text.len() == 1 && '0' <= text[0] <= '7' {
        Some(text[0] as int - '0' as int)
    } else {
        None
    }
}

/// The step of a range of days.
pub open spec fn step_in(text: Seq<char>) -> Option<nat> {
    if text.len() > 0 && text[0] == '+' {
        None
    } else {
        match number_in(text, u32::MAX as nat) {
            Some(n) => if n > 0 {
                Some(n)
            } else {
                None
            },
            None => None,
        }
    }
}

/// The days `from`, `from + step` and so on up to `to`, each counted from 1 for Sunday,
/// with commas between.
pub open spec fn day_list(from: int, to: int, step: nat) -> Seq<char>
    decreases to - from,
{
    let day = seq![digit_char(from % 7 + 1)];
    if step > 0 && from + step <= to {
        day + ","@ + day_list(from + step, to, step)
    } else {
        day
    }
}

/// The last day that a single day with a step runs to.
pub open spec fn last_day(from: int) -> int {
    if from == 7 {
        7
    } else {
        6
    }
}

/// One item of the field for the day of the week, its days counted from 1 for Sunday.
/// What is not made of numbers of days stays as it is.
pub open spec fn day_item(item: Seq<char>) -> Seq<char> {
    let halves = pieces(item, Separator::Slash);
    let ends = pieces(halves[0], Separator::Dash);
    let step = if halves.len() == 1 {
        Some(1nat)
    } else if halves.len() == 2 {
        step_in(halves[1])
    } else {
        None
    };
    match (day_in(ends[0]), step) {
        (Some(from), Some(step)) => if ends.len() == 1 {
            if halves.len() == 1 {
                day_list(from, from, step)
            } else {
                day_list(from, last_day(from), step)
            }
        } else if ends.len() == 2 {
            match day_in(ends[1]) {
                Some(to) => if from <= to {
                    day_list(from, to, step)
                } else {
                    item
                },
                None => item,
            }
        } else {
            item
        },
        _ => item,
    }
}

/// The items with commas between, each rewritten by `day_item`.
pub open spec fn day_items(items: Seq<Seq<char>>) -> Seq<char>
    decreases items.len(),
{
    if items.len() == 0 {
        Seq::empty()
    } else if items.len() == 1 {
        day_item(items[0])
    } else {
        day_items(items.drop_last()) + ","@ + day_item(items.last())
    }
}

/// The field for the day of the week, its days counted from 1 for Sunday.
pub open spec fn day_field(field: Seq<char>) -> Seq<char> {
    day_items(pieces(field, Separator::Comma))
}

/// The field names some days and not all.
pub open spec fn restricted(field: Seq<char>) -> bool {
    field.len() > 0 && field[0] != '*' && field[0] != '?'
}

/// The six-field expression for five fields, at second zero.
pub open spec fn six_fields(
    minute: Seq<char>,
    hour: Seq<char>,
    day: Seq<char>,
    month: Seq<char>,
    weekday: Seq<char>,
) -> Seq<char> {
    "0 "@ + minute + " "@ + hour + " "@ + day + " "@ + month + " "@ + weekday
}

/// The earlier of two runs.
pub open spec fn earlier(
    a: Result<Option<Timestamp>, Seq<char>>,
    b: Result<Option<Timestamp>, Seq<char>>,
) -> Result<Option<Timestamp>, Seq<char>> {
    match (a, b) {
        (Err(e), _) => Err(e),
        (_, Err(e)) => Err(e),
        (Ok(None), Ok(t)) => Ok(t),
        (Ok(t), Ok(None)) => Ok(t),
        (Ok(Some(s)), Ok(Some(t))) => if s.at_or_before(t) {
            Ok(Some(s))
        } else {
            Ok(Some(t))
        },
    }
}

/// The next run of a standard five-field expression. Where both the day of the month
/// and the day of the week are restricted, a day that fits either is a day to run.
pub open spec fn standard_upcoming(fields: Seq<Seq<char>>, after: Timestamp) -> Result<
    Option<Timestamp>,
    Seq<char>,
> {
    let weekday = day_field(fields[4]);
    if restricted(fields[2]) && restricted(fields[4]) {
        earlier(
            upcoming_of(six_fields(fields[0], fields[1], fields[2], fields[3], "*"@), after),
            upcoming_of(six_fields(fields[0], fields[1], "*"@, fields[3], weekday), after),
        )
    } else {
        upcoming_of(six_fields(fields[0], fields[1], fields[2], fields[3], weekday), after)
    }
}

/// The next run of an expression: as it stands, or else as a standard five-field one.
pub open spec fn next_found(expr: Seq<char>, after: Timestamp) -> Result<
    Option<Timestamp>,
    Seq<char>,
> {
    match upcoming_of(expr, after) {
        Ok(t) => Ok(t),
        Err(e) => if words_of(expr).len() == 5 {
            standard_upcoming(words_of(expr), after)
        } else {
            Err(e)
        },
    }
}

/// What a search for the next run means to the one who asked.
pub open spec fn answer(
    expr: Seq<char>,
    found: Result<Option<Timestamp>, Seq<char>>,
) -> Result<Timestamp, Seq<char>> {
    match found {
        Ok(Some(t)) => Ok(t),
        Ok(None) => Err("cron '"@ + expr + "' has no future occurrences"@),
        Err(e) => Err("invalid cron expression '"@ + expr + "': "@ + e),
    }
}

pub open spec fn answer_view(r: Result<Timestamp, String>) -> Result<Timestamp, Seq<char>> {
    match r {
        Ok(t) => Ok(t),
        Err(e) => Err(e@),
    }
}

/// Tells what a search for the next run means to the one who asked.
pub fn answer_for(expr: &str, found: Result<Option<Timestamp>, String>) -> (r: Result<
    Timestamp,
    String,
>)
    ensures
        answer_view(r) == answer(expr@, found_view(found)),
{
    match found {
        Ok(Some(t)) => Ok(t),
        Ok(None) => {
            let mut text = "cron '".to_owned();
            text.append(expr);
            text.append("' has no future occurrences");
            Err(text)
        },
        Err(e) => {
            let mut text = "invalid cron expression '".to_owned();
            text.append(expr);
            text.append("': ");
            text.append(e.as_str());
            Err(text)
        },
    }
}

/// Picks the earlier of two runs.
pub fn earlier_of(
    a: Result<Option<Timestamp>, String>,
    b: Result<Option<Timestamp>, String>,
) -> (r: Result<Option<Timestamp>, String>)
    ensures
        found_view(r) == earlier(found_view(a), found_view(b)),
{
    match (a, b) {
        (Err(e), _) => Err(e),
        (Ok(_), Err(e)) => Err(e),
        (Ok(None), Ok(t)) => Ok(t),
        (Ok(Some(s)), Ok(None)) => Ok(Some(s)),
        (Ok(Some(s)), Ok(Some(t))) => if s.is_at_or_before(&t) {
            Ok(Some(s))
        } else {
            Ok(Some(t))
        },
    }
}

/// Writes the days `from`, `from + step` and so on up to `to`.
fn day_list_text(from: u64, to: u64, step: u64) -> (text: String)
    requires
        from <= to <= 7,
        0 < step <= u32::MAX,
    ensures
        text@ == day_list(from as int, to as int, step as nat),
    decreases to - from,
{
    let mut text = digit_text((from % 7 + 1) as u128).to_owned();
    if from + step <= to {
        text.append(",");
        let rest = day_list_text(from + step, to, step);
        text.append(rest.as_str());
    }
    text
}

/// Reads the day of the week that one digit names.
fn parse_day(text: &str) -> (day: Option<u64>)
    ensures
        match day {
            Some(d) => day_in(text@) == Some(d as int) && d <= 7,
            None => day_in(text@) is None,
        },
{
    if text.unicode_len() != 1 {
        return None;
    }
    let c = text.get_char(0);
    if c >= '0' && c <= '7' {
        Some(c as u64 - 48)
    } else {
        None
    }
}

/// Reads the step of a range of days.
fn parse_step(text: &str) -> (step: Option<u64>)
    ensures
        match step {
            Some(n) => step_in(text@) == Some(n as nat) && 0 < n <= u32::MAX,
            None => step_in(text@) is None,
        },
{
    if text.unicode_len() > 0 && text.get_char(0) == '+' {
        return None;
    }
    match parse_number(text, u32::MAX as u64) {
        Some(n) => if n > 0 {
            Some(n)
        } else {
            None
        },
        None => None,
    }
}

proof fn lemma_some_piece(text: Seq<char>, sep: Separator)
    ensures
        pieces(text, sep).len() >= 1,
    decreases text.len(),
{
    if text.len() > 0 {
        lemma_some_piece(text.drop_last(), sep);
    }
}

/// Rewrites one item of the field for the day of the week.
fn day_item_text(item: &str) -> (text: String)
    ensures
        text@ == day_item(item@),
{
    let halves = split(item, Separator::Slash);
    proof {
        lemma_some_piece(item@, Separator::Slash);
        assert(texts_view(halves@).len() == halves@.len());
        assert(texts_view(halves@)[0] == halves@[0]@);
    }
    let ends = split(halves[0].as_str(), Separator::Dash);
    proof {
        lemma_some_piece(halves@[0]@, Separator::Dash);
        assert(texts_view(ends@).len() == ends@.len());
        assert(texts_view(ends@)[0] == ends@[0]@);
    }
    let step: Option<u64> = if halves.len() == 1 {
        Some(1)
    } else if halves.len() == 2 {
        assert(texts_view(halves@)[1] == halves@[1]@);
        parse_step(halves[1].as_str())
    } else {
        None
    };
    if let (Some(from), Some(step)) = (parse_day(ends[0].as_str()), step) {
        if ends.len() == 1 {
            if halves.len() == 1 {
                return day_list_text(from, from, step);
            }
            return day_list_text(
                from,
                if from == 7 {
                    7
                } else {
                    6
                },
                step,
            );
        }
        if ends.len() == 2 {
            assert(texts_view(ends@)[1] == ends@[1]@);
            if let Some(to) = parse_day(ends[1].as_str()) {
                if from <= to {
                    return day_list_text(from, to, step);
                }
            }
        }
    }
    item.to_owned()
}

/// Rewrites the field for the day of the week.
pub fn day_field_text(field: &str) -> (text: String)
    ensures
        text@ == day_field(field@),
{
    let items = split(field, Separator::Comma);
    let ghost all = texts_view(items@);
    proof {
        lemma_some_piece(field@, Separator::Comma);
        assert(all.len() == items@.len());
        assert(all[0] == items@[0]@);
        assert(all.take(1)[0] == all[0]);
    }
    let mut text = day_item_text(items[0].as_str());
    let mut i: usize = 1;
    while i < items.len()
        invariant
            1 <= i <= items@.len() == all.len(),
            all == texts_view(items@),
            text@ == day_items(all.take(i as int)),
        decreases items.len() - i,
    {
        let item = day_item_text(items[i].as_str());
        text.append(",");
        text.append(item.as_str());
        proof {
            assert(all.take(i + 1).drop_last() =~= all.take(i as int));
            assert(all.take(i + 1).last() == items@[i as int]@);
        }
        i += 1;
    }
    assert(all.take(i as int) =~= all);
    text
}

/// Whether a field names some days and not all.
fn is_restricted(field: &str) -> (yes: bool)
    ensures
        yes == restricted(field@),
{
    if field.unicode_len() == 0 {
        return false;
    }
    let c = field.get_char(0);
    c != '*' && c != '?'
}

/// Writes the six-field expression for five fields.
fn six_fields_text(minute: &str, hour: &str, day: &str, month: &str, weekday: &str) -> (text:
    String)
    ensures
        text@ == six_fields(minute@, hour@, day@, month@, weekday@),
{
    let mut text = "0 ".to_owned();
    text.append(minute);
    text.append(" ");
    text.append(hour);
    text.append(" ");
    text.append(day);
    text.append(" ");
    text.append(month);
    text.append(" ");
    text.append(weekday);
    text
}

/// What was found is later than `after`, if anything was found.
pub open spec fn found_is_later(
    found: Result<Option<Timestamp>, String>,
    after: Timestamp,
) -> bool {
    found matches Ok(Some(t)) ==> is_run_after(t, after)
}

/// Finds the next run of a standard five-field expression.
fn standard_next(fields: &Vec<String>, after: Timestamp) -> (found: Result<
    Option<Timestamp>,
    String,
>)
    requires
        fields@.len() == 5,
        after.valid(),
        after.secs < MAX_SECS,
    ensures
        found_view(found) == standard_upcoming(texts_view(fields@), after),
        found_is_later(found, after),
{
    let minute = fields[0].as_str();
    let hour = fields[1].as_str();
    let day = fields[2].as_str();
    let month = fields[3].as_str();
    let weekday = day_field_text(fields[4].as_str());
    proof {
        let v = texts_view(fields@);
        assert(v[0] == minute@ && v[1] == hour@ && v[2] == day@ && v[3] == month@ && v[4]
            == fields@[4]@);
    }
    if is_restricted(day) && is_restricted(fields[4].as_str()) {
        let by_day = six_fields_text(minute, hour, day, month, "*");
        let by_weekday = six_fields_text(minute, hour, "*", month, weekday.as_str());
        let a = upcoming(by_day.as_str(), after);
        let b = upcoming(by_weekday.as_str(), after);
        earlier_of(a, b)
    } else {
        let expr = six_fields_text(minute, hour, day, month, weekday.as_str());
        upcoming(expr.as_str(), after)
    }
}

/// Computes the next instant after `after` at which a cron expression runs.
pub fn next_cron_run(expr: &str, after: Timestamp) -> (r: Result<Timestamp, String>)
    requires
        after.valid(),
        after.secs < MAX_SECS,
    ensures
        answer_view(r) == answer(expr@, next_found(expr@, after)),
        r matches Ok(t) ==> t.valid() && t.after(after) && is_run_after(t, after),
{
    let found = match upcoming(expr, after) {
        Ok(t) => Ok(t),
        Err(e) => {
            let fields = words(expr);
            assert(texts_view(fields@).len() == fields@.len());
            if fields.len() == 5 {
                standard_next(&fields, after)
            } else {
                Err(e)
            }
        },
    };
    answer_for(expr, found)
}

} // verus!
