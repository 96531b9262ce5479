//! What holds of texts: pieces, words, order, alignment and decimal numbers.
use vstd::prelude::*;
use vstd::arithmetic::power::{lemma_pow0, lemma_pow1, lemma_pow_adds, pow};
use crate::text::{
    all_digits, decimal, digits_value, filled, is_digit, left_aligned, number_in, pieces,
    repeated, right_aligned, sorts_before, texts_view, without_leading, without_prefix,
    words_of, Separator,
};

verus! {

/// Taking a leading character off leaves a text that does not start with it, and takes
/// off nothing else.
pub proof fn leading_run_goes(n: nat, rest: Seq<char>, c: char)
    requires
        rest.len() == 0 || rest[0] != c,
    ensures
        without_leading(Seq::new(n, |i: int| c) + rest, c) == rest,
    decreases n,
{
    let text = Seq::new(n, |i: int| c) + rest;
    if n == 0 {
        assert(text =~= rest);
    } else {
        assert(text[0] == c);
        assert(text.skip(1) =~= Seq::new((n - 1) as nat, |i: int| c) + rest);
        leading_run_goes((n - 1) as nat, rest, c);
    }
}

/// What stands behind a prefix is what is left without it, and a text that does not start
/// with the prefix stays.
pub proof fn prefix_goes(prefix: Seq<char>, rest: Seq<char>, other: Seq<char>)
    ensures
        without_prefix(prefix + rest, prefix) == rest,
        other.len() < prefix.len() || other.take(prefix.len() as int) != prefix
            ==> without_prefix(other, prefix) == other,
{
    let text = prefix + rest;
    assert(text.subrange(0, prefix.len() as int) =~= prefix);
    assert(text.skip(prefix.len() as int) =~= rest);
    if prefix.is_prefix_of(other) {
        assert(other.take(prefix.len() as int) =~= prefix);
    }
}

/// Which characters separate.
pub proof fn separators(c: char)
    ensures
        Separator::Comma.is(c) <==> c == ',',
        Separator::Dash.is(c) <==> c == '-',
        Separator::Slash.is(c) <==> c == '/',
        Separator::Blank.is(c) <==> c == ' ' || c == '\t' || c == '\n' || c == '\r',
{
}

/// No character of the text separates.
pub open spec fn unbroken(text: Seq<char>, sep: Separator) -> bool {
    forall|i: int| 0 <= i < text.len() ==> !sep.is(#[trigger] text[i])
}

/// A text without a separator is its only piece.
pub proof fn unbroken_text_is_one_piece(text: Seq<char>, sep: Separator)
    requires
        unbroken(text, sep),
    ensures
        pieces(text, sep) == seq![text],
    decreases text.len(),
{
    if text.len() > 0 {
        let rest = text.drop_last();
        assert forall|i: int| 0 <= i < rest.len() implies !sep.is(#[trigger] rest[i]) by {
            assert(rest[i] == text[i]);
        }
        unbroken_text_is_one_piece(rest, sep);
        assert(!sep.is(text[text.len() - 1]));
        assert(rest.push(text.last()) =~= text);
        assert(pieces(text, sep) =~= seq![text]);
    } else {
        assert(text =~= Seq::empty());
    }
}

/// A separator parts the pieces before it from those behind it.
pub proof fn separator_parts_pieces(a: Seq<char>, c: char, b: Seq<char>, sep: Separator)
    requires
        sep.is(c),
    ensures
        pieces(a + seq![c] + b, sep) == pieces(a, sep) + pieces(b, sep),
        pieces(b, sep).len() > 0,
    decreases b.len(),
{
    let whole = a + seq![c] + b;
    if b.len() == 0 {
        assert(whole.drop_last() =~= a);
        assert(whole.last() == c);
        assert(pieces(b, sep) =~= seq![Seq::<char>::empty()]);
        assert(pieces(whole, sep) =~= pieces(a, sep) + pieces(b, sep));
    } else {
        let rest = b.drop_last();
        separator_parts_pieces(a, c, rest, sep);
        assert(whole.drop_last() =~= a + seq![c] + rest);
        assert(whole.last() == b.last());
        let (p, q) = (pieces(a, sep), pieces(rest, sep));
        if sep.is(b.last()) {
            assert((p + q).push(Seq::empty()) =~= p + q.push(Seq::empty()));
        } else {
            assert((p + q).last() == q.last());
            assert((p + q).drop_last() =~= p + q.drop_last());
            let longer = q.last().push(b.last());
            assert((p + q).drop_last().push(longer) =~= p + q.drop_last().push(longer));
        }
    }
}

/// Leaving out the empty texts goes text by text, and leaves out no other.
pub proof fn only_empty_texts_go(a: Seq<Seq<char>>, b: Seq<Seq<char>>, one: Seq<char>)
    ensures
        filled(a + b) == filled(a) + filled(b),
        filled(seq![one]) == (if one.len() == 0 {
            Seq::<Seq<char>>::empty()
        } else {
            seq![one]
        }),
        filled(Seq::empty()) == Seq::<Seq<char>>::empty(),
    decreases b.len(),
{
    let single = seq![one];
    assert(single.drop_last() =~= Seq::<Seq<char>>::empty());
    assert(single.last() == one);
    assert(filled(Seq::<Seq<char>>::empty()) =~= Seq::<Seq<char>>::empty());
    assert(filled(single) =~= (if one.len() == 0 {
        Seq::<Seq<char>>::empty()
    } else {
        seq![one]
    }));
    if b.len() == 0 {
        assert(a + b =~= a);
        assert(filled(a) + filled(b) =~= filled(a));
    } else {
        assert((a + b).drop_last() =~= a + b.drop_last());
        assert((a + b).last() == b.last());
        only_empty_texts_go(a, b.drop_last(), one);
        if b.last().len() > 0 {
            assert((filled(a) + filled(b.drop_last())).push(b.last()) =~= filled(a) + filled(
                b.drop_last(),
            ).push(b.last()));
        }
    }
}

/// A text of one word: not empty, and without a blank.
pub open spec fn is_word(text: Seq<char>) -> bool {
    text.len() > 0 && unbroken(text, Separator::Blank)
}

/// A word is its only word, and a blank parts the words before it from those behind it.
pub proof fn blanks_part_words(word: Seq<char>, a: Seq<char>, blank: char, b: Seq<char>)
    requires
        is_word(word),
        blank == ' ' || blank == '\t' || blank == '\n' || blank == '\r',
    ensures
        words_of(word) == seq![word],
        words_of(Seq::empty()) == Seq::<Seq<char>>::empty(),
        words_of(a + seq![blank] + b) == words_of(a) + words_of(b),
{
    let none = Seq::<char>::empty();
    unbroken_text_is_one_piece(word, Separator::Blank);
    unbroken_text_is_one_piece(none, Separator::Blank);
    only_empty_texts_go(seq![], seq![], word);
    only_empty_texts_go(seq![], seq![], none);
    separator_parts_pieces(a, blank, b, Separator::Blank);
    only_empty_texts_go(pieces(a, Separator::Blank), pieces(b, Separator::Blank), none);
}

/// Texts go by the first character in which they differ, and a text goes before every
/// longer one that starts with it.
pub proof fn first_difference_decides(
    start: Seq<char>,
    x: char,
    y: char,
    a: Seq<char>,
    b: Seq<char>,
)
    ensures
        x != y ==> sorts_before(start + seq![x] + a, start + seq![y] + b) == (x < y),
        sorts_before(start, start + seq![x] + a),
        !sorts_before(start + seq![x] + a, start),
        !sorts_before(start, start),
    decreases start.len(),
{
    let (s, t) = (start + seq![x] + a, start + seq![y] + b);
    if start.len() > 0 {
        let rest = start.skip(1);
        first_difference_decides(rest, x, y, a, b);
        assert(s.skip(1) =~= rest + seq![x] + a);
        assert(t.skip(1) =~= rest + seq![y] + b);
        assert(s[0] == start[0] && t[0] == start[0]);
    } else {
        assert(s[0] == x && t[0] == y);
    }
}

/// An aligned text is as long as its column, or as itself where it is longer, and holds
/// the text and blanks only.
pub proof fn aligned_texts_fill_their_column(text: Seq<char>, width: nat)
    ensures
        ({
            let (l, r) = (left_aligned(text, width), right_aligned(text, width));
            let long = if text.len() < width {
                width
            } else {
                text.len()
            };
            &&& l.len() == long && r.len() == long
            &&& l.take(text.len() as int) == text
            &&& r.skip(long - text.len()) == text
            &&& forall|i: int| text.len() <= i < long ==> #[trigger] l[i] == ' '
            &&& forall|i: int| 0 <= i < long - text.len() ==> #[trigger] r[i] == ' '
        }),
{
    let (l, r) = (left_aligned(text, width), right_aligned(text, width));
    assert(l.take(text.len() as int) =~= text);
    assert(r.skip(r.len() - text.len()) =~= text);
}

/// Copies of a character are that many, and nothing else.
pub proof fn copies_are_alike(c: char, count: nat, i: int)
    ensures
        repeated(c, count).len() == count,
        0 <= i < count ==> repeated(c, count)[i] == c,
{
}

/// Each place counts ten times the one behind it.
pub proof fn places_count_tenfold(a: Seq<char>, b: Seq<char>, c: char)
    requires
        all_digits(b),
        is_digit(c),
    ensures
        digits_value(Seq::empty()) == 0,
        digits_value(seq![c]) == c as int - '0' as int,
        digits_value(a + b) == digits_value(a) * pow(10, b.len()) + digits_value(b),
    decreases b.len(),
{
    assert(seq![c].drop_last() =~= Seq::<char>::empty());
    assert(digits_value(Seq::<char>::empty()) == 0);
    assert(digits_value(seq![c]) == c as int - '0' as int);
    if b.len() == 0 {
        assert(a + b =~= a);
        lemma_pow0(10);
    } else {
        let rest = b.drop_last();
        assert forall|i: int| 0 <= i < rest.len() implies is_digit(#[trigger] rest[i]) by {
            assert(rest[i] == b[i]);
        }
        places_count_tenfold(a, rest, c);
        assert((a + b).drop_last() =~= a + rest);
        assert((a + b).last() == b.last());
        assert(is_digit(b[b.len() - 1]));
        lemma_pow_adds(10, rest.len(), 1);
        lemma_pow1(10);
        let p = pow(10, rest.len());
        let v = digits_value(a) as int;
        assert((v * p + digits_value(rest)) * 10 == v * (p * 10) + digits_value(rest) * 10)
            by (nonlinear_arith);
    }
}

/// The digits of a number denote it, start with no needless zero, and are digits only.
pub proof fn decimal_digits_denote(n: nat)
    ensures
        digits_value(decimal(n)) == n,
        all_digits(decimal(n)),
        decimal(n).len() > 0,
        n > 0 ==> decimal(n)[0] != '0',
        n == 0 ==> decimal(n) == seq!['0'],
    decreases n,
{
    let text = decimal(n);
    if n < 10 {
        assert(text.drop_last() =~= Seq::<char>::empty());
        assert(digits_value(text.drop_last()) == 0);
    } else {
        let high = decimal(n / 10);
        decimal_digits_denote(n / 10);
        assert(text.drop_last() =~= high);
        assert(text[0] == high[0]);
        assert forall|i: int| 0 <= i < text.len() implies is_digit(#[trigger] text[i]) by {
            if i < high.len() {
                assert(text[i] == high[i]);
            }
        }
    }
}

/// Digits are read as the number that they denote, with or without a plus sign, unless it
/// is larger than allowed. Nothing else is a number.
pub proof fn digits_are_read(digits: Seq<char>, max: nat)
    requires
        digits.len() > 0,
        all_digits(digits),
    ensures
        number_in(digits, max) == (if digits_value(digits) <= max {
            Some(digits_value(digits))
        } else {
            None
        }),
        number_in(seq!['+'] + digits, max) == number_in(digits, max),
{
    assert(is_digit(digits[0]));
    assert((seq!['+'] + digits).skip(1) =~= digits);
}

/// What holds anything but digits behind an optional plus sign is no number, and neither
/// is nothing.
pub proof fn only_digits_are_read(text: Seq<char>, i: int, max: nat)
    requires
        0 <= i < text.len(),
        i > 0 || text[0] != '+',
        !('0' <= text[i] <= '9'),
    ensures
        number_in(text, max) is None,
        number_in(Seq::empty(), max) is None,
        number_in(seq!['+'], max) is None,
{
    assert(seq!['+'].skip(1) =~= Seq::<char>::empty());
    if text[0] == '+' {
        assert(text.skip(1)[i - 1] == text[i]);
    }
}

/// A number that is written out is read as it is.
pub proof fn written_numbers_are_read(n: nat, max: nat)
    ensures
        number_in(decimal(n), max) == (if n <= max {
            Some(n)
        } else {
            None
        }),
{
    decimal_digits_denote(n);
    digits_are_read(decimal(n), max);
}

/// The words of a text are words.
pub proof fn words_are_words(text: Seq<char>, k: int)
    requires
        0 <= k < words_of(text).len(),
    ensures
        is_word(words_of(text)[k]),
{
    lemma_filled(pieces(text, Separator::Blank), k);
    lemma_pieces_are_unbroken(text, Separator::Blank);
}

proof fn lemma_filled(parts: Seq<Seq<char>>, k: int)
    requires
        0 <= k < filled(parts).len(),
    ensures
        filled(parts)[k].len() > 0,
        parts.contains(filled(parts)[k]),
    decreases parts.len(),
{
    if parts.len() > 0 {
        let rest = parts.drop_last();
        if k < filled(rest).len() {
            lemma_filled(rest, k);
            let i = choose|i: int| 0 <= i < rest.len() && rest[i] == filled(rest)[k];
            assert(parts[i] == filled(parts)[k]);
        } else {
            assert(parts[parts.len() - 1] == filled(parts)[k]);
        }
    }
}

proof fn lemma_pieces_are_unbroken(text: Seq<char>, sep: Separator)
    ensures
        pieces(text, sep).len() > 0,
        forall|k: int|
            0 <= k < pieces(text, sep).len() ==> unbroken(#[trigger] pieces(text, sep)[k], sep),
    decreases text.len(),
{
    if text.len() > 0 {
        lemma_pieces_are_unbroken(text.drop_last(), sep);
        let (before, parts) = (pieces(text.drop_last(), sep), pieces(text, sep));
        assert forall|k: int| 0 <= k < parts.len() implies unbroken(#[trigger] parts[k], sep) by {
            if k < before.len() {
                assert(unbroken(before[k], sep));
            }
        }
    }
}

/// Texts are seen one by one.
pub proof fn texts_are_seen(texts: Seq<String>, i: int)
    ensures
        texts_view(texts).len() == texts.len(),
        0 <= i < texts.len() ==> texts_view(texts)[i] == texts[i]@,
{
}

} // verus!
