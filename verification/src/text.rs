//! Characters of a string: prefixes, leading slashes, pieces between separators, and
//! decimal numbers read from and written to text.
use vstd::prelude::*;

verus! {

/// What is left of `text` once the run of `c` at its start is gone.
pub open spec fn without_leading(text: Seq<char>, c: char) -> Seq<char>
    decreases text.len(),
{
    if text.len() > 0 && text[0] == c {
        without_leading(text.skip(1), c)
    } else {
        text
    }
}

/// What is left of `text` once `prefix` is gone from its start, or `text` itself
/// where it does not start with `prefix`.
pub open spec fn without_prefix(text: Seq<char>, prefix: Seq<char>) -> Seq<char> {
    if prefix.is_prefix_of(text) {
        text.skip(prefix.len() as int)
    } else {
        text
    }
}

pub open spec fn is_digit(c: char) -> bool {
    '0' <= c <= '9'
}

pub open spec fn all_digits(text: Seq<char>) -> bool {
    forall|i: int| 0 <= i < text.len() ==> is_digit(#[trigger] text[i])
}

/// The number that decimal digits denote, most significant first.
pub open spec fn digits_value(text: Seq<char>) -> nat
    decreases text.len(),
{
    if text.len() == 0 {
        0
    } else {
        (digits_value(text.drop_last()) * 10 + (text.last() as int - '0' as int)) as nat
    }
}

/// The text behind an optional plus sign.
pub open spec fn unsigned_part(text: Seq<char>) -> Seq<char> {
    if text.len() > 0 && text[0] == '+' {
        text.skip(1)
    } else {
        text
    }
}

/// The unsigned number that `text` spells: an optional plus sign, then digits and
/// nothing else, no larger than `max`.
pub open spec fn number_in(text: Seq<char>, max: nat) -> Option<nat> {
    let digits = unsigned_part(text);
    if digits.len() > 0 && all_digits(digits) && digits_value(digits) <= max {
        Some(digits_value(digits))
    } else {
        None
    }
}

pub open spec fn digit_char(d: int) -> char {
    ('0' as int + d) as char
}

/// The decimal digits of `n`, without leading zeros.
pub open spec fn decimal(n: nat) -> Seq<char>
    decreases n,
{
    if n < 10 {
        seq![digit_char(n as int)]
    } else {
        decimal(n / 10).push(digit_char((n % 10) as int))
    }
}

/// `count` copies of `c`.
pub open spec fn repeated(c: char, count: nat) -> Seq<char> {
    Seq::new(count, |i: int| c)
}

/// The characters of `text`.
pub fn chars_of(text: &str) -> (chars: Vec<char>)
    ensures
        chars@ == text@,
{
    let mut chars: Vec<char> = Vec::new();
    for c in it: text.chars()
        invariant
            it.seq() == text@,
            chars@ == text@.take(it.index() as int),
    {
        proof {
            assert(text@.take(it.index() as int).push(text@[it.index() as int]) =~= text@.take(
                it.index() as int + 1,
            ));
        }
        chars.push(c);
    }
    assert(text@.take(text@.len() as int) =~= text@);
    chars
}

/// Whether two texts hold the same characters.
pub fn same_text(a: &str, b: &str) -> (same: bool)
    ensures
        same == (a@ == b@),
{
    a.to_owned() == b.to_owned()
}

/// Whether `text` starts with `prefix`.
pub fn starts_with(text: &str, prefix: &str) -> (yes: bool)
    ensures
        yes == prefix@.is_prefix_of(text@),
{
    let whole = chars_of(text);
    let start = chars_of(prefix);
    if start.len() > whole.len() {
        return false;
    }
    let mut i: usize = 0;
    while i < start.len()
        invariant
            start@ == prefix@,
            whole@ == text@,
            i <= start.len() <= whole.len(),
            forall|j: int| 0 <= j < i ==> prefix@[j] == text@[j],
        decreases start.len() - i,
    {
        if start[i] != whole[i] {
            assert(prefix@[i as int] != text@.subrange(0, prefix@.len() as int)[i as int]);
            return false;
        }
        i += 1;
    }
    assert(prefix@ =~= text@.subrange(0, prefix@.len() as int));
    true
}

/// `text` without `prefix` at its start, or `text` itself.
pub fn strip_prefix<'a>(text: &'a str, prefix: &str) -> (rest: &'a str)
    ensures
        rest@ == without_prefix(text@, prefix@),
{
    if starts_with(text, prefix) {
        let total = text.unicode_len();
        let cut = prefix.unicode_len();
        let rest = text.substring_char(cut, total);
        assert(rest@ =~= text@.skip(cut as int));
        rest
    } else {
        text
    }
}

proof fn lemma_without_leading_skips(text: Seq<char>, c: char, n: nat)
    requires
        n <= text.len(),
        forall|j: int| 0 <= j < n ==> text[j] == c,
    ensures
        without_leading(text, c) == without_leading(text.skip(n as int), c),
    decreases n,
{
    if n == 0 {
        assert(text.skip(0) =~= text);
    } else {
        let rest = text.skip(1);
        assert forall|j: int| 0 <= j < n - 1 implies rest[j] == c by {
            assert(rest[j] == text[j + 1]);
        }
        lemma_without_leading_skips(rest, c, (n - 1) as nat);
        assert(rest.skip(n - 1) =~= text.skip(n as int));
        assert(text[0] == c);
    }
}

/// `text` without the slashes at its start.
pub fn trim_leading_slashes<'a>(text: &'a str) -> (rest: &'a str)
    ensures
        rest@ == without_leading(text@, '/'),
{
    let chars = chars_of(text);
    let mut i: usize = 0;
    while i < chars.len() && chars[i] == '/'
        invariant
            chars@ == text@,
            i <= chars.len(),
            forall|j: int| 0 <= j < i ==> text@[j] == '/',
        decreases chars.len() - i,
    {
        i += 1;
    }
    let rest = text.substring_char(i, chars.len());
    proof {
        assert(rest@ =~= text@.skip(i as int));
        lemma_without_leading_skips(text@, '/', i as nat);
    }
    rest
}

proof fn lemma_digits_value_grows(text: Seq<char>, n: int)
    requires
        0 <= n <= text.len(),
        all_digits(text),
    ensures
        digits_value(text.take(n)) <= digits_value(text),
    decreases text.len() - n,
{
    if n == text.len() {
        assert(text.take(n) =~= text);
    } else {
        lemma_digits_value_grows(text, n + 1);
        assert(text.take(n + 1).drop_last() =~= text.take(n));
        assert(text.take(n + 1).last() == text[n]);
        assert(is_digit(text[n]));
    }
}

/// Reads an unsigned decimal number no larger than `max`.
pub fn parse_number(text: &str, max: u64) -> (value: Option<u64>)
    ensures
        match value {
            Some(v) => number_in(text@, max as nat) == Some(v as nat),
            None => number_in(text@, max as nat) is None,
        },
{
    let chars = chars_of(text);
    let start: usize = if chars.len() > 0 && chars[0] == '+' {
        1
    } else {
        0
    };
    let ghost digits = unsigned_part(text@);
    assert(digits =~= text@.skip(start as int));
    if start == chars.len() {
        return None;
    }
    let mut value: u64 = 0;
    let mut i: usize = start;
    while i < chars.len()
        invariant
            chars@ == text@,
            start <= i <= chars.len(),
            start < chars.len(),
            digits == unsigned_part(text@),
            digits == text@.skip(start as int),
            forall|j: int| 0 <= j < i - start ==> is_digit(#[trigger] digits[j]),
            value == digits_value(digits.take(i - start)),
            value <= max,
        decreases chars.len() - i,
    {
        let c = chars[i];
        assert(digits[i - start] == c);
        if c < '0' || c > '9' {
            return None;
        }
        let digit: u64 = c as u64 - 48;
        let next: u128 = value as u128 * 10 + digit as u128;
        proof {
            assert(digits.take(i - start + 1).drop_last() =~= digits.take(i - start));
            assert(next == digits_value(digits.take(i - start + 1)));
        }
        if next > max as u128 {
            proof {
                if all_digits(digits) {
                    lemma_digits_value_grows(digits, i - start + 1);
                }
            }
            return None;
        }
        value = next as u64;
        i += 1;
    }
    assert(digits.take(i - start) =~= digits);
    Some(value)
}

/// The text of one decimal digit.
pub fn digit_text(d: u128) -> (text: &'static str)
    requires
        d < 10,
    ensures
        text@ == seq![digit_char(d as int)],
{
    proof {
        reveal_strlit("0");
        reveal_strlit("1");
        reveal_strlit("2");
        reveal_strlit("3");
        reveal_strlit("4");
        reveal_strlit("5");
        reveal_strlit("6");
        reveal_strlit("7");
        reveal_strlit("8");
        reveal_strlit("9");
    }
    let text = match d {
        0 => "0",
        1 => "1",
        2 => "2",
        3 => "3",
        4 => "4",
        5 => "5",
        6 => "6",
        7 => "7",
        8 => "8",
        _ => "9",
    };
    assert(text@ =~= seq![digit_char(d as int)]);
    text
}

/// Writes `n` in decimal.
pub fn decimal_text(n: u128) -> (text: String)
    ensures
        text@ == decimal(n as nat),
    decreases n,
{
    if n < 10 {
        digit_text(n).to_owned()
    } else {
        let mut text = decimal_text(n / 10);
        text.append(digit_text(n % 10));
        assert(text@ =~= decimal((n / 10) as nat).push(digit_char((n % 10) as int)));
        text
    }
}

/// `count` copies of a text of one character.
pub fn repeat(one: &str, count: usize) -> (text: String)
    requires
        one@.len() == 1,
    ensures
        text@ == repeated(one@[0], count as nat),
{
    let mut text = String::new();
    let mut i: usize = 0;
    assert(text@ =~= repeated(one@[0], 0));
    while i < count
        invariant
            one@.len() == 1,
            i <= count,
            text@ == repeated(one@[0], i as nat),
        decreases count - i,
    {
        text.append(one);
        i += 1;
        assert(text@ =~= repeated(one@[0], i as nat));
    }
    text
}

/// The spaces that a text lacks to the given width.
pub open spec fn blanks_for(text: Seq<char>, width: nat) -> Seq<char> {
    repeated(
        ' ',
        if text.len() < width {
            (width - text.len()) as nat
        } else {
            0
        },
    )
}

/// The text, filled up with spaces behind it to the given width.
pub open spec fn left_aligned(text: Seq<char>, width: nat) -> Seq<char> {
    text + blanks_for(text, width)
}

/// The text, filled up with spaces before it to the given width.
pub open spec fn right_aligned(text: Seq<char>, width: nat) -> Seq<char> {
    blanks_for(text, width) + text
}

fn blanks(text: &str, width: usize) -> (fill: String)
    ensures
        fill@ == blanks_for(text@, width as nat),
{
    let length: usize = text.unicode_len();
    proof {
        reveal_strlit(" ");
    }
    if length < width {
        repeat(" ", width - length)
    } else {
        repeat(" ", 0)
    }
}

/// Fills a text up with spaces behind it.
pub fn align_left(text: &str, width: usize) -> (line: String)
    ensures
        line@ == left_aligned(text@, width as nat),
{
    let mut line = text.to_owned();
    let fill = blanks(text, width);
    line.append(fill.as_str());
    line
}

/// Fills a text up with spaces before it.
pub fn align_right(text: &str, width: usize) -> (line: String)
    ensures
        line@ == right_aligned(text@, width as nat),
{
    let mut line = blanks(text, width);
    line.append(text);
    line
}

/// What separates the pieces of a text.
#[derive(Clone, Copy, PartialEq, Eq, Structural, Debug)]
pub enum Separator {
    Comma,
    Dash,
    Slash,
    /// A space, a tab or a line break.
    Blank,
}

impl Separator {
    pub open spec fn is(self, c: char) -> bool {
        match self {
            Separator::Comma => c == ',',
            Separator::Dash => c == '-',
            Separator::Slash => c == '/',
            Separator::Blank => c == ' ' || c == '\t' || c == '\n' || c == '\r',
        }
    }

    fn matches_char(self, c: char) -> (yes: bool)
        ensures
            yes == self.is(c),
    {
        match self {
            Separator::Comma => c == ',',
            Separator::Dash => c == '-',
            Separator::Slash => c == '/',
            Separator::Blank => c == ' ' || c == '\t' || c == '\n' || c == '\r',
        }
    }
}

/// The pieces between separators, the empty ones included.
pub open spec fn pieces(text: Seq<char>, sep: Separator) -> Seq<Seq<char>>
    decreases text.len(),
{
    if text.len() == 0 {
        seq![Seq::empty()]
    } else {
        let before = pieces(text.drop_last(), sep);
        if sep.is(text.last()) {
            before.push(Seq::empty())
        } else {
            before.drop_last().push(before.last().push(text.last()))
        }
    }
}

/// Texts as character sequences.
pub open spec fn texts_view(texts: Seq<String>) -> Seq<Seq<char>> {
    texts.map_values(|text: String| text@)
}

/// Splits a text at every separator.
pub fn split(text: &str, sep: Separator) -> (parts: Vec<String>)
    ensures
        texts_view(parts@) == pieces(text@, sep),
{
    let chars = chars_of(text);
    let mut parts: Vec<String> = Vec::new();
    let mut start: usize = 0;
    let mut i: usize = 0;
    proof {
        assert(text@.take(0) =~= Seq::<char>::empty());
        assert(text@.subrange(0, 0) =~= Seq::<char>::empty());
        assert(texts_view(parts@).push(text@.subrange(0, 0)) =~= pieces(text@.take(0), sep));
    }
    while i < chars.len()
        invariant
            chars@ == text@,
            start <= i <= chars.len(),
            texts_view(parts@).push(text@.subrange(start as int, i as int)) == pieces(
                text@.take(i as int),
                sep,
            ),
        decreases chars.len() - i,
    {
        let ghost done = texts_view(parts@);
        let ghost current = text@.subrange(start as int, i as int);
        proof {
            assert(text@.take(i + 1).drop_last() =~= text@.take(i as int));
            assert(done.push(current).drop_last() =~= done);
        }
        if sep.matches_char(chars[i]) {
            parts.push(text.substring_char(start, i).to_owned());
            start = i + 1;
            proof {
                assert(texts_view(parts@) =~= done.push(current));
                assert(text@.subrange(i + 1, i + 1) =~= Seq::<char>::empty());
            }
        } else {
            assert(text@.subrange(start as int, i + 1) =~= current.push(text@[i as int]));
        }
        i += 1;
    }
    let ghost done = texts_view(parts@);
    parts.push(text.substring_char(start, chars.len()).to_owned());
    proof {
        assert(text@.take(i as int) =~= text@);
        assert(texts_view(parts@) =~= done.push(text@.subrange(start as int, i as int)));
    }
    parts
}

/// The texts that are not empty.
pub open spec fn filled(parts: Seq<Seq<char>>) -> Seq<Seq<char>>
    decreases parts.len(),
{
    if parts.len() == 0 {
        Seq::empty()
    } else if parts.last().len() > 0 {
        filled(parts.drop_last()).push(parts.last())
    } else {
        filled(parts.drop_last())
    }
}

/// The words of a text: its pieces between blanks, without the empty ones.
pub open spec fn words_of(text: Seq<char>) -> Seq<Seq<char>> {
    filled(pieces(text, Separator::Blank))
}

/// Splits a text into its words.
pub fn words(text: &str) -> (list: Vec<String>)
    ensures
        texts_view(list@) == words_of(text@),
{
    let parts = split(text, Separator::Blank);
    let ghost all = texts_view(parts@);
    let mut list: Vec<String> = Vec::new();
    let mut i: usize = 0;
    assert(all.take(0) =~= Seq::<Seq<char>>::empty());
    assert(texts_view(list@) =~= filled(all.take(0)));
    while i < parts.len()
        invariant
            i <= parts@.len() == all.len(),
            all == texts_view(parts@),
            texts_view(list@) == filled(all.take(i as int)),
        decreases parts.len() - i,
    {
        let ghost so_far = texts_view(list@);
        proof {
            assert(all.take(i + 1).drop_last() =~= all.take(i as int));
            assert(all.take(i + 1).last() == parts@[i as int]@);
        }
        if parts[i].as_str().unicode_len() > 0 {
            list.push(parts[i].clone());
            assert(texts_view(list@) =~= so_far.push(parts@[i as int]@));
        }
        i += 1;
    }
    assert(all.take(i as int) =~= all);
    list
}

/// `a` stands before `b` in the order of texts, character by character.
pub open spec fn sorts_before(a: Seq<char>, b: Seq<char>) -> bool
    decreases a.len(),
{
    if b.len() == 0 {
        false
    } else if a.len() == 0 {
        true
    } else if a[0] != b[0] {
        a[0] < b[0]
    } else {
        sorts_before(a.skip(1), b.skip(1))
    }
}

/// Of two texts that differ, one stands before the other, and not both; a text does not
/// stand before itself.
pub proof fn texts_are_ordered(a: Seq<char>, b: Seq<char>)
    ensures
        a == b ==> !sorts_before(a, b),
        a != b ==> sorts_before(a, b) != sorts_before(b, a),
    decreases a.len(),
{
    if a.len() > 0 && b.len() > 0 {
        texts_are_ordered(a.skip(1), b.skip(1));
        if a[0] == b[0] && a.skip(1) == b.skip(1) {
            assert(a =~= seq![a[0]] + a.skip(1));
            assert(b =~= seq![b[0]] + b.skip(1));
        }
    } else if a.len() == b.len() {
        assert(a =~= b);
    }
}

/// What stands before a text stands before all that the text stands before.
pub proof fn order_of_texts_chains(a: Seq<char>, b: Seq<char>, c: Seq<char>)
    requires
        sorts_before(a, b),
        sorts_before(b, c),
    ensures
        sorts_before(a, c),
    decreases a.len(),
{
    if a.len() > 0 && a[0] == b[0] && b[0] == c[0] {
        order_of_texts_chains(a.skip(1), b.skip(1), c.skip(1));
    }
}

proof fn lemma_same_start(a: Seq<char>, b: Seq<char>, n: nat)
    requires
        n <= a.len(),
        n <= b.len(),
        forall|i: int| 0 <= i < n ==> a[i] == b[i],
    ensures
        sorts_before(a, b) == sorts_before(a.skip(n as int), b.skip(n as int)),
    decreases n,
{
    if n == 0 {
        assert(a.skip(0) =~= a && b.skip(0) =~= b);
    } else {
        assert forall|i: int| 0 <= i < n - 1 implies a.skip(1)[i] == b.skip(1)[i] by {
            assert(a[i + 1] == b[i + 1]);
        }
        lemma_same_start(a.skip(1), b.skip(1), (n - 1) as nat);
        assert(a.skip(1).skip(n - 1) =~= a.skip(n as int));
        assert(b.skip(1).skip(n - 1) =~= b.skip(n as int));
        assert(a[0] == b[0]);
    }
}

/// Whether `a` stands before `b` in the order of texts.
pub fn text_sorts_before(a: &str, b: &str) -> (yes: bool)
    ensures
        yes == sorts_before(a@, b@),
{
    let left = chars_of(a);
    let right = chars_of(b);
    let mut i: usize = 0;
    while i < left.len() && i < right.len() && left[i] == right[i]
        invariant
            left@ == a@,
            right@ == b@,
            i <= left.len(),
            i <= right.len(),
            forall|j: int| 0 <= j < i ==> a@[j] == b@[j],
        decreases left.len() - i,
    {
        i += 1;
    }
    proof {
        lemma_same_start(a@, b@, i as nat);
    }
    if i == right.len() {
        false
    } else if i == left.len() {
        true
    } else {
        proof {
            assert(a@.skip(i as int)[0] == left@[i as int]);
            assert(b@.skip(i as int)[0] == right@[i as int]);
        }
        left[i] < right[i]
    }
}

} // verus!
