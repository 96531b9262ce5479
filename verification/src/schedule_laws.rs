//! What holds of cron expressions: which fields the search sees, which days a field
//! names, and what is answered.
use vstd::prelude::*;
use crate::schedule::{
    answer, answer_view, cron_upcoming, day_field, day_in, day_item, day_items, day_list,
    earlier, found_view, is_run_after, last_day, next_found, restricted, six_fields,
    standard_upcoming, step_in, upcoming_of,
};
use crate::text::{all_digits, digit_char, digits_value, is_digit, pieces, words_of, Separator};
use crate::text_laws::{
    blanks_part_words, digits_are_read, is_word, only_digits_are_read, separator_parts_pieces,
    unbroken, unbroken_text_is_one_piece,
};
use crate::time::Timestamp;

verus! {

/// What the crate `cron` finds for an expression is handed on as it is.
pub proof fn searches_are_handed_on(expr: Seq<char>, after: Timestamp)
    ensures
        cron_upcoming(expr, after.secs, after.nanos) matches Ok(Some(t)) ==> upcoming_of(expr, after)
            == Ok::<Option<Timestamp>, Seq<char>>(Some(Timestamp { secs: t.0, nanos: t.1 })),
        cron_upcoming(expr, after.secs, after.nanos) matches Ok(None) ==> upcoming_of(expr, after)
            == Ok::<Option<Timestamp>, Seq<char>>(None),
        cron_upcoming(expr, after.secs, after.nanos) matches Err(e) ==> upcoming_of(expr, after)
            == Err::<Option<Timestamp>, Seq<char>>(e),
{
}

/// Words with blanks between are these words.
pub proof fn six_words(
    a: Seq<char>,
    b: Seq<char>,
    c: Seq<char>,
    d: Seq<char>,
    e: Seq<char>,
    f: Seq<char>,
)
    requires
        is_word(a) && is_word(b) && is_word(c) && is_word(d) && is_word(e) && is_word(f),
    ensures
        words_of(a + " "@ + b + " "@ + c + " "@ + d + " "@ + e + " "@ + f) == seq![
            a,
            b,
            c,
            d,
            e,
            f,
        ],
{
    reveal_strlit(" ");
    assert(" "@ =~= seq![' ']);
    let two = a + " "@ + b;
    let three = two + " "@ + c;
    let four = three + " "@ + d;
    let five = four + " "@ + e;
    blanks_part_words(b, a, ' ', b);
    blanks_part_words(a, a, ' ', b);
    blanks_part_words(c, two, ' ', c);
    blanks_part_words(d, three, ' ', d);
    blanks_part_words(e, four, ' ', e);
    blanks_part_words(f, five, ' ', f);
    assert(words_of(five + " "@ + f) =~= seq![a, b, c, d, e, f]);
}

/// The expression for five fields has second zero, and then minute, hour, day of the month,
/// month and day of the week, in this order.
pub proof fn fields_stand_in_order(
    minute: Seq<char>,
    hour: Seq<char>,
    day: Seq<char>,
    month: Seq<char>,
    weekday: Seq<char>,
)
    requires
        is_word(minute) && is_word(hour) && is_word(day) && is_word(month) && is_word(weekday),
    ensures
        words_of(six_fields(minute, hour, day, month, weekday)) == seq![
            seq!['0'],
            minute,
            hour,
            day,
            month,
            weekday,
        ],
{
    reveal_strlit("0 ");
    reveal_strlit(" ");
    let zero = seq!['0'];
    assert("0 "@ =~= zero + " "@);
    assert forall|i: int| 0 <= i < zero.len() implies !Separator::Blank.is(#[trigger] zero[i]) by {}
    six_words(zero, minute, hour, day, month, weekday);
    assert(six_fields(minute, hour, day, month, weekday) =~= zero + " "@ + minute + " "@ + hour
        + " "@ + day + " "@ + month + " "@ + weekday);
}

/// Rewriting the days of the week leaves a word a word.
proof fn lemma_day_field_is_word(field: Seq<char>)
    requires
        is_word(field),
    ensures
        is_word(day_field(field)),
{
    let items = pieces(field, Separator::Comma);
    lemma_pieces_unbroken(field, Separator::Comma);
    lemma_day_items_unbroken(items);
    if items.len() == 1 {
        lemma_pieces_lengths(field, Separator::Comma);
        lemma_day_item_length(items[0]);
    } else {
        reveal_strlit(",");
        assert(day_items(items).len() > 0);
    }
}

/// The pieces of a text without blanks have none, and there is at least one.
proof fn lemma_pieces_unbroken(text: Seq<char>, sep: Separator)
    requires
        unbroken(text, Separator::Blank),
    ensures
        pieces(text, sep).len() >= 1,
        forall|k: int|
            0 <= k < pieces(text, sep).len() ==> unbroken(
                #[trigger] pieces(text, sep)[k],
                Separator::Blank,
            ),
    decreases text.len(),
{
    if text.len() > 0 {
        let rest = text.drop_last();
        assert forall|i: int| 0 <= i < rest.len() implies !Separator::Blank.is(
            #[trigger] rest[i],
        ) by {
            assert(rest[i] == text[i]);
        }
        lemma_pieces_unbroken(rest, sep);
        let (before, parts) = (pieces(rest, sep), pieces(text, sep));
        assert(!Separator::Blank.is(text[text.len() - 1]));
        assert forall|k: int| 0 <= k < parts.len() implies unbroken(
            #[trigger] parts[k],
            Separator::Blank,
        ) by {
            if k < before.len() {
                assert(unbroken(before[k], Separator::Blank));
            }
        }
    }
}

/// A text of one piece is that piece.
proof fn lemma_pieces_lengths(text: Seq<char>, sep: Separator)
    ensures
        pieces(text, sep).len() >= 1,
        pieces(text, sep).len() == 1 ==> pieces(text, sep)[0] == text,
    decreases text.len(),
{
    if text.len() > 0 {
        lemma_pieces_lengths(text.drop_last(), sep);
        if !sep.is(text.last()) && pieces(text, sep).len() == 1 {
            assert(pieces(text.drop_last(), sep)[0] == text.drop_last());
            assert(text.drop_last().push(text.last()) =~= text);
        }
    } else {
        assert(pieces(text, sep)[0] =~= text);
    }
}

proof fn lemma_day_list_unbroken(from: int, to: int, step: nat)
    requires
        0 <= from,
    ensures
        unbroken(day_list(from, to, step), Separator::Blank),
        day_list(from, to, step).len() > 0,
    decreases to - from,
{
    reveal_strlit(",");
    let day = seq![digit_char(from % 7 + 1)];
    let list = day_list(from, to, step);
    assert('1' <= digit_char(from % 7 + 1) <= '7');
    if step > 0 && from + step <= to {
        lemma_day_list_unbroken(from + step, to, step);
        let rest = day_list(from + step, to, step);
        assert(list =~= day + ","@ + rest);
        assert forall|i: int| 0 <= i < list.len() implies !Separator::Blank.is(
            #[trigger] list[i],
        ) by {
            if i >= 2 {
                assert(list[i] == rest[i - 2]);
            }
        }
    }
}

proof fn lemma_day_item_unbroken(item: Seq<char>)
    requires
        unbroken(item, Separator::Blank),
    ensures
        unbroken(day_item(item), Separator::Blank),
{
    let halves = pieces(item, Separator::Slash);
    let ends = pieces(halves[0], Separator::Dash);
    let step = if halves.len() == 1 {
        Some(1nat)
    } else if halves.len() == 2 {
        step_in(halves[1])
    } else {
        None
    };
    if let (Some(from), Some(step)) = (day_in(ends[0]), step) {
        lemma_day_list_unbroken(from, from, step);
        lemma_day_list_unbroken(from, last_day(from), step);
        if let Some(to) = day_in(ends[1]) {
            lemma_day_list_unbroken(from, to, step);
        }
    }
}

proof fn lemma_day_item_length(item: Seq<char>)
    requires
        item.len() > 0,
    ensures
        day_item(item).len() > 0,
{
    let halves = pieces(item, Separator::Slash);
    let ends = pieces(halves[0], Separator::Dash);
    let step = if halves.len() == 1 {
        Some(1nat)
    } else if halves.len() == 2 {
        step_in(halves[1])
    } else {
        None
    };
    if let (Some(from), Some(step)) = (day_in(ends[0]), step) {
        lemma_day_list_unbroken(from, from, step);
        lemma_day_list_unbroken(from, last_day(from), step);
        if let Some(to) = day_in(ends[1]) {
            lemma_day_list_unbroken(from, to, step);
        }
    }
}

proof fn lemma_day_items_unbroken(items: Seq<Seq<char>>)
    requires
        forall|k: int| 0 <= k < items.len() ==> unbroken(#[trigger] items[k], Separator::Blank),
    ensures
        unbroken(day_items(items), Separator::Blank),
    decreases items.len(),
{
    reveal_strlit(",");
    if items.len() == 1 {
        lemma_day_item_unbroken(items[0]);
    } else if items.len() > 1 {
        let rest = items.drop_last();
        assert forall|k: int| 0 <= k < rest.len() implies unbroken(
            #[trigger] rest[k],
            Separator::Blank,
        ) by {
            assert(rest[k] == items[k]);
        }
        lemma_day_items_unbroken(rest);
        assert(unbroken(items[items.len() - 1], Separator::Blank));
        lemma_day_item_unbroken(items.last());
        let (a, b) = (day_items(rest), day_item(items.last()));
        let whole = day_items(items);
        assert forall|i: int| 0 <= i < whole.len() implies !Separator::Blank.is(
            #[trigger] whole[i],
        ) by {
            if i < a.len() {
                assert(whole[i] == a[i]);
            } else if i > a.len() {
                assert(whole[i] == b[i - a.len() - 1]);
            }
        }
    }
}

/// The search for a five-field expression looks for second zero, and for minute, hour and
/// month as the expression has them, whatever the days. Where only one field for the days
/// names some, both are looked for together; where both do, a run is the earlier of what is
/// found by the one and by the other.
pub proof fn five_fields_are_searched(fields: Seq<Seq<char>>, after: Timestamp) -> (texts: (
    Seq<char>,
    Seq<char>,
))
    requires
        fields.len() == 5,
        forall|i: int| 0 <= i < 5 ==> is_word(#[trigger] fields[i]),
    ensures
        ({
            let every = seq!['*'];
            let days = fields[2][0] != '*' && fields[2][0] != '?';
            let weekdays = fields[4][0] != '*' && fields[4][0] != '?';
            let (one, other) = texts;
            &&& !(days && weekdays) ==> {
                &&& standard_upcoming(fields, after) == upcoming_of(one, after)
                &&& words_of(one) == seq![
                    seq!['0'],
                    fields[0],
                    fields[1],
                    fields[2],
                    fields[3],
                    day_field(fields[4]),
                ]
            }
            &&& days && weekdays ==> {
                &&& standard_upcoming(fields, after) == earlier(
                    upcoming_of(one, after),
                    upcoming_of(other, after),
                )
                &&& words_of(one) == seq![
                    seq!['0'],
                    fields[0],
                    fields[1],
                    fields[2],
                    fields[3],
                    every,
                ]
                &&& words_of(other) == seq![
                    seq!['0'],
                    fields[0],
                    fields[1],
                    every,
                    fields[3],
                    day_field(fields[4]),
                ]
            }
        }),
{
    reveal_strlit("*");
    let every = seq!['*'];
    assert("*"@ =~= every);
    assert forall|i: int| 0 <= i < every.len() implies !Separator::Blank.is(#[trigger] every[i]) by {}
    assert(is_word(fields[0]) && is_word(fields[1]) && is_word(fields[2]) && is_word(fields[3])
        && is_word(fields[4]));
    lemma_day_field_is_word(fields[4]);
    let weekday = day_field(fields[4]);
    fields_stand_in_order(fields[0], fields[1], fields[2], fields[3], weekday);
    fields_stand_in_order(fields[0], fields[1], fields[2], fields[3], every);
    fields_stand_in_order(fields[0], fields[1], every, fields[3], weekday);
    if restricted(fields[2]) && restricted(fields[4]) {
        (
            six_fields(fields[0], fields[1], fields[2], fields[3], every),
            six_fields(fields[0], fields[1], every, fields[3], weekday),
        )
    } else {
        (six_fields(fields[0], fields[1], fields[2], fields[3], weekday), every)
    }
}

/// The earlier of two runs is one of them, and the other does not come before it. One run
/// alone is the earlier. An error of either is an error.
pub proof fn the_earlier_run_comes_first(
    a: Result<Option<Timestamp>, Seq<char>>,
    b: Result<Option<Timestamp>, Seq<char>>,
)
    ensures
        earlier(a, b) == a || earlier(a, b) == b,
        earlier(a, b) is Err <==> a is Err || b is Err,
        a matches Ok(Some(s)) ==> (b is Ok ==> (earlier(a, b) matches Ok(Some(t)) && (t.secs < s.secs
            || (t.secs == s.secs && t.nanos <= s.nanos)))),
        b matches Ok(Some(s)) ==> (a is Ok ==> (earlier(a, b) matches Ok(Some(t)) && (t.secs < s.secs
            || (t.secs == s.secs && t.nanos <= s.nanos)))),
{
}

/// An expression that `cron` takes as it stands is searched for as it stands. One of five
/// words that it does not take is searched for as a standard one. Any other is an error.
pub proof fn expressions_are_taken_as_they_stand(expr: Seq<char>, after: Timestamp)
    ensures
        upcoming_of(expr, after) is Ok ==> next_found(expr, after) == upcoming_of(expr, after),
        upcoming_of(expr, after) is Err && words_of(expr).len() == 5 ==> next_found(expr, after)
            == standard_upcoming(words_of(expr), after),
        upcoming_of(expr, after) is Err && words_of(expr).len() != 5 ==> next_found(expr, after)
            == upcoming_of(expr, after),
{
}

/// A run that is found is the answer, and there is no other. An error names the expression.
pub proof fn runs_are_answers(expr: Seq<char>, found: Result<Option<Timestamp>, Seq<char>>)
    ensures
        found matches Ok(Some(t)) ==> answer(expr, found) == Ok::<Timestamp, Seq<char>>(t),
        answer(expr, found) matches Ok(t) ==> found == Ok::<Option<Timestamp>, Seq<char>>(Some(t)),
        found matches Ok(None) ==> (answer(expr, found) matches Err(text) && text == "cron '"@
            + expr + "' has no future occurrences"@),
        found matches Err(e) ==> (answer(expr, found) matches Err(text) && text
            == "invalid cron expression '"@ + expr + "': "@ + e),
{
}

/// A run comes after the instant that was asked for, on a full second.
pub proof fn runs_come_later(t: Timestamp, after: Timestamp)
    requires
        is_run_after(t, after),
    ensures
        t.secs > after.secs,
        t.nanos == 0,
        !t.at_or_before(after),
{
}

/// A list of days holds the first day, and each that is a step behind one in it, up to
/// the last; each is counted from 1 for Sunday.
pub proof fn day_lists_hold_each_step(from: int, to: int, step: nat, k: nat)
    requires
        0 <= from <= to <= 7,
        step > 0,
        from + k * step <= to,
    ensures
        ({
            let days = pieces(day_list(from, to, step), Separator::Comma);
            &&& days.len() == (to - from) / step as int + 1
            &&& days[k as int] == seq![digit_char((from + k * step) % 7 + 1)]
        }),
    decreases to - from,
{
    reveal_strlit(",");
    assert(","@ =~= seq![',']);
    let day = seq![digit_char(from % 7 + 1)];
    let s = step as int;
    assert forall|i: int| 0 <= i < day.len() implies !Separator::Comma.is(#[trigger] day[i]) by {
        assert('1' <= digit_char(from % 7 + 1) <= '7');
    }
    unbroken_text_is_one_piece(day, Separator::Comma);
    if from + step <= to {
        let rest = day_list(from + step, to, step);
        separator_parts_pieces(day, ',', rest, Separator::Comma);
        assert(day_list(from, to, step) =~= day + seq![','] + rest);
        assert((to - from) / s == (to - (from + s)) / s + 1) by (nonlinear_arith)
            requires
                s > 0,
        ;
        let behind = pieces(rest, Separator::Comma);
        let days = pieces(day_list(from, to, step), Separator::Comma);
        assert(days == seq![day] + behind);
        if k > 0 {
            assert((from + step) + (k - 1) * step == from + k * step) by (nonlinear_arith);
            day_lists_hold_each_step(from + step, to, step, (k - 1) as nat);
            assert(k <= (to - from) / s) by (nonlinear_arith)
                requires
                    k * s <= to - from,
                    s > 0,
            ;
            assert(days[k as int] == behind[k - 1]);
        } else {
            assert((from + step) + 0 * step == from + step);
            day_lists_hold_each_step(from + step, to, step, 0);
            assert(k * step == 0);
            assert(days[0] == day);
        }
    } else {
        assert(k == 0) by (nonlinear_arith)
            requires
                from + k * step <= to < from + step,
                step > 0,
        ;
        assert(k * step == 0);
        assert((to - from) / s == 0) by (nonlinear_arith)
            requires
                0 <= to - from < s,
        ;
    }
}

/// The text of one digit.
spec fn one(d: char) -> Seq<char> {
    seq![d]
}

proof fn lemma_digit_is_whole(d: char)
    requires
        '0' <= d <= '9',
    ensures
        pieces(one(d), Separator::Slash) == seq![one(d)],
        pieces(one(d), Separator::Dash) == seq![one(d)],
{
    let text = one(d);
    assert forall|i: int| 0 <= i < text.len() implies !Separator::Slash.is(#[trigger] text[i])
        && !Separator::Dash.is(text[i]) by {}
    unbroken_text_is_one_piece(text, Separator::Slash);
    unbroken_text_is_one_piece(text, Separator::Dash);
}

/// One day, from 0 to 7, is that day counted from 1 for Sunday, and Sunday is both 0 and 7.
pub proof fn single_days(d: char)
    requires
        '0' <= d <= '7',
    ensures
        d != '7' ==> day_item(seq![d]) == seq![(d as int + 1) as char],
        d == '7' ==> day_item(seq![d]) == seq!['1'],
{
    lemma_digit_is_whole(d);
    assert(one(d) == seq![d]);
    let from = d as int - '0' as int;
    assert(day_in(seq![d]) == Some(from));
    assert(day_item(seq![d]) =~= day_list(from, from, 1));
    assert(day_list(from, from, 1) =~= seq![digit_char(from % 7 + 1)]);
}

/// A range of days names each of them, one with a step each that the step reaches, and a
/// day with a step each that the step reaches up to Saturday.
pub proof fn ranges_of_days(a: char, b: char, step: Seq<char>)
    requires
        '0' <= a <= b <= '7',
        step.len() > 0,
        all_digits(step),
        0 < digits_value(step) <= u32::MAX,
    ensures
        ({
            let (from, to) = (a as int - '0' as int, b as int - '0' as int);
            let range = seq![a] + seq!['-'] + seq![b];
            &&& day_item(range) == day_list(from, to, 1)
            &&& day_item(range + seq!['/'] + step) == day_list(from, to, digits_value(step))
            &&& day_item(seq![a] + seq!['/'] + step) == day_list(
                from,
                if a == '7' {
                    7
                } else {
                    6
                },
                digits_value(step),
            )
        }),
{
    let (from, to) = (a as int - '0' as int, b as int - '0' as int);
    let range = seq![a] + seq!['-'] + seq![b];
    lemma_digit_is_whole(a);
    lemma_digit_is_whole(b);
    separator_parts_pieces(seq![a], '-', seq![b], Separator::Dash);
    assert(pieces(range, Separator::Dash) =~= seq![seq![a], seq![b]]);
    assert forall|i: int| 0 <= i < range.len() implies !Separator::Slash.is(#[trigger] range[i]) by {}
    unbroken_text_is_one_piece(range, Separator::Slash);
    assert forall|i: int| 0 <= i < step.len() implies !Separator::Slash.is(#[trigger] step[i]) by {
        assert(is_digit(step[i]));
    }
    unbroken_text_is_one_piece(step, Separator::Slash);
    separator_parts_pieces(range, '/', step, Separator::Slash);
    separator_parts_pieces(seq![a], '/', step, Separator::Slash);
    assert(pieces(range + seq!['/'] + step, Separator::Slash) =~= seq![range, step]);
    assert(pieces(seq![a] + seq!['/'] + step, Separator::Slash) =~= seq![seq![a], step]);
    assert(is_digit(step[0]));
    digits_are_read(step, u32::MAX as nat);
    assert(step_in(step) == Some(digits_value(step)));
    assert(day_in(seq![a]) == Some(from) && day_in(seq![b]) == Some(to));
    assert(pieces(range, Separator::Slash)[0] == range);
}

/// An item that does not start with a day stays as it is, and so do a step of zero and one
/// that is no number.
pub proof fn other_items_stay(item: Seq<char>, day: char, step: Seq<char>, i: int)
    requires
        item.len() > 0,
        !('0' <= item[0] <= '7'),
        '0' <= day <= '7',
        unbroken(step, Separator::Slash),
        0 <= i < step.len(),
        !('0' <= step[i] <= '9'),
    ensures
        day_item(item) == item,
        day_item(seq![day] + seq!['/'] + step) == seq![day] + seq!['/'] + step,
        day_item(seq![day] + seq!['/'] + seq!['0']) == seq![day] + seq!['/'] + seq!['0'],
{
    lemma_first_piece(item, Separator::Slash);
    let half = pieces(item, Separator::Slash)[0];
    lemma_first_piece(half, Separator::Dash);
    assert(day_in(pieces(half, Separator::Dash)[0]) is None);
    lemma_digit_is_whole(day);
    lemma_digit_is_whole('0');
    unbroken_text_is_one_piece(step, Separator::Slash);
    separator_parts_pieces(seq![day], '/', step, Separator::Slash);
    separator_parts_pieces(seq![day], '/', seq!['0'], Separator::Slash);
    assert(pieces(seq![day] + seq!['/'] + step, Separator::Slash) =~= seq![seq![day], step]);
    assert(pieces(seq![day] + seq!['/'] + seq!['0'], Separator::Slash) =~= seq![
        seq![day],
        seq!['0'],
    ]);
    if step[0] != '+' {
        only_digits_are_read(step, i, u32::MAX as nat);
    }
    let zero = seq!['0'];
    assert forall|k: int| 0 <= k < zero.len() implies is_digit(#[trigger] zero[k]) by {}
    assert(zero.drop_last() =~= Seq::<char>::empty());
    assert(digits_value(zero) == 0) by {
        reveal_with_fuel(digits_value, 2);
    }
    digits_are_read(zero, u32::MAX as nat);
}

/// The first piece starts as the text does, or is empty.
proof fn lemma_first_piece(text: Seq<char>, sep: Separator)
    ensures
        pieces(text, sep).len() >= 1,
        pieces(text, sep)[0].len() > 0 ==> text.len() > 0 && pieces(text, sep)[0][0] == text[0],
    decreases text.len(),
{
    if text.len() > 0 {
        lemma_first_piece(text.drop_last(), sep);
        let before = pieces(text.drop_last(), sep);
        if !sep.is(text.last()) && before.len() == 1 {
            if before[0].len() == 0 && text.len() > 1 {
                lemma_pieces_lengths(text.drop_last(), sep);
            }
        }
    }
}

/// The items of a field are rewritten one by one.
pub proof fn fields_go_item_by_item(a: Seq<char>, item: Seq<char>)
    requires
        unbroken(item, Separator::Comma),
    ensures
        day_field(item) == day_item(item),
        day_field(a + seq![','] + item) == day_field(a) + seq![','] + day_item(item),
{
    reveal_strlit(",");
    assert(","@ =~= seq![',']);
    unbroken_text_is_one_piece(item, Separator::Comma);
    separator_parts_pieces(a, ',', item, Separator::Comma);
    let before = pieces(a, Separator::Comma);
    let all = pieces(a + seq![','] + item, Separator::Comma);
    lemma_pieces_lengths(a, Separator::Comma);
    assert(all =~= before.push(item));
    assert(all.drop_last() =~= before);
}

/// A field names some days unless it is a star or a question mark, alone or with more.
pub proof fn stars_name_all_days(field: Seq<char>)
    requires
        field.len() > 0,
    ensures
        restricted(field) <==> field[0] != '*' && field[0] != '?',
{
}

/// A range that ends before it starts, or that ends in no day, stays as it is.
pub proof fn bad_ranges_stay(a: char, end: Seq<char>)
    requires
        '0' <= a <= '7',
        unbroken(end, Separator::Slash),
        unbroken(end, Separator::Dash),
        end.len() != 1 || !(a <= end[0] <= '7'),
    ensures
        day_item(seq![a] + seq!['-'] + end) == seq![a] + seq!['-'] + end,
{
    let range = seq![a] + seq!['-'] + end;
    lemma_digit_is_whole(a);
    unbroken_text_is_one_piece(end, Separator::Dash);
    separator_parts_pieces(seq![a], '-', end, Separator::Dash);
    assert(pieces(range, Separator::Dash) =~= seq![seq![a], end]);
    assert forall|i: int| 0 <= i < range.len() implies !Separator::Slash.is(#[trigger] range[i]) by {
        if i >= 2 {
            assert(range[i] == end[i - 2]);
        }
    }
    unbroken_text_is_one_piece(range, Separator::Slash);
    assert(pieces(range, Separator::Slash)[0] == range);
}

/// What was found or answered is seen as it is.
pub proof fn answers_are_seen(
    found: Result<Option<Timestamp>, String>,
    r: Result<Timestamp, String>,
)
    ensures
        found matches Ok(t) ==> found_view(found) == Ok::<Option<Timestamp>, Seq<char>>(t),
        found matches Err(e) ==> found_view(found) == Err::<Option<Timestamp>, Seq<char>>(e@),
        r matches Ok(t) ==> answer_view(r) == Ok::<Timestamp, Seq<char>>(t),
        r matches Err(e) ==> answer_view(r) == Err::<Timestamp, Seq<char>>(e@),
{
}

} // verus!
