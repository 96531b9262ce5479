//! Decimal digits of numbers too large for a machine integer.
use vstd::prelude::*;
use vstd::arithmetic::power2::{lemma_pow2_unfold, pow2};
use crate::text::{decimal, digit_char, digit_text};

verus! {

/// The number that digits denote, the least significant first.
spec fn low_first(digits: Seq<u8>) -> nat
    decreases digits.len(),
{
    if digits.len() == 0 {
        0
    } else {
        digits[0] as nat + 10 * low_first(digits.skip(1))
    }
}

/// Ten to the power `k`.
spec fn ten_to(k: nat) -> nat
    decreases k,
{
    if k == 0 {
        1
    } else {
        10 * ten_to((k - 1) as nat)
    }
}

/// Digits of a number above zero, without zeros at the most significant end.
spec fn proper(digits: Seq<u8>) -> bool {
    &&& digits.len() > 0
    &&& digits.last() != 0
    &&& forall|i: int| 0 <= i < digits.len() ==> #[trigger] digits[i] < 10
}

/// The characters of the digits, the most significant first.
spec fn high_first_chars(digits: Seq<u8>) -> Seq<char>
    decreases digits.len(),
{
    if digits.len() == 0 {
        seq![]
    } else {
        high_first_chars(digits.skip(1)).push(digit_char(digits[0] as int))
    }
}

proof fn lemma_push(digits: Seq<u8>, d: u8)
    ensures
        low_first(digits.push(d)) == low_first(digits) + ten_to(digits.len()) * d,
    decreases digits.len(),
{
    let more = digits.push(d);
    if digits.len() == 0 {
        assert(more.skip(1) =~= Seq::<u8>::empty());
        assert(low_first(more.skip(1)) == 0);
        assert(ten_to(0) == 1);
    } else {
        assert(more.skip(1) =~= digits.skip(1).push(d));
        lemma_push(digits.skip(1), d);
        let t = ten_to((digits.len() - 1) as nat);
        assert(ten_to(digits.len()) == 10 * t);
        assert(10 * (t * d) == (10 * t) * d) by (nonlinear_arith);
        assert(digits.skip(1).len() == digits.len() - 1);
    }
}

proof fn lemma_decimal(digits: Seq<u8>)
    requires
        proper(digits),
    ensures
        low_first(digits) > 0,
        decimal(low_first(digits)) == high_first_chars(digits),
    decreases digits.len(),
{
    let rest = digits.skip(1);
    if digits.len() == 1 {
        assert(rest =~= Seq::<u8>::empty());
        assert(low_first(rest) == 0);
        assert(high_first_chars(rest) =~= Seq::<char>::empty());
        assert(high_first_chars(digits) =~= seq![digit_char(digits[0] as int)]);
    } else {
        assert(rest.last() == digits.last());
        assert forall|i: int| 0 <= i < rest.len() implies #[trigger] rest[i] < 10 by {
            assert(rest[i] == digits[i + 1]);
        }
        lemma_decimal(rest);
        let n = low_first(digits);
        assert(n / 10 == low_first(rest));
        assert(n % 10 == digits[0]);
    }
}

/// Twice the number.
fn doubled(digits: &Vec<u8>) -> (twice: Vec<u8>)
    requires
        proper(digits@),
    ensures
        proper(twice@),
        low_first(twice@) == 2 * low_first(digits@),
{
    let mut twice: Vec<u8> = Vec::new();
    let mut carry: u8 = 0;
    let mut i: usize = 0;
    assert(digits@.take(0) =~= Seq::<u8>::empty());
    while i < digits.len()
        invariant
            proper(digits@),
            i <= digits.len(),
            carry <= 1,
            twice@.len() == i,
            forall|j: int| 0 <= j < i ==> #[trigger] twice@[j] < 10,
            low_first(twice@) + ten_to(i as nat) * carry == 2 * low_first(digits@.take(i as int)),
            i > 0 ==> twice@[i - 1] + 10 * carry >= 2 * digits@[i - 1],
            i == 0 ==> carry == 0,
        decreases digits.len() - i,
    {
        let d: u8 = digits[i];
        let sum: u8 = 2 * d + carry;
        let digit: u8 = sum % 10;
        let next: u8 = sum / 10;
        proof {
            let before = twice@;
            lemma_push(before, digit);
            lemma_push(digits@.take(i as int), d);
            assert(digits@.take(i as int).push(d) =~= digits@.take(i + 1));
            let t = ten_to(i as nat);
            assert(ten_to((i + 1) as nat) == 10 * t);
            assert(t * digit + (10 * t) * next == t * carry + 2 * (t * d)) by (nonlinear_arith)
                requires
                    digit + 10 * next == 2 * d + carry,
            ;
        }
        twice.push(digit);
        carry = next;
        i += 1;
    }
    assert(digits@.take(i as int) =~= digits@);
    if carry > 0 {
        proof {
            lemma_push(twice@, 1);
        }
        twice.push(1);
    } else {
        assert(digits@.last() != 0);
    }
    twice
}

/// The decimal text of `n` times two to the power `exp`.
pub fn scaled_text(n: u64, exp: u32) -> (text: String)
    requires
        n > 0,
    ensures
        text@ == decimal(n as nat * pow2(exp as nat)),
{
    let mut digits: Vec<u8> = Vec::new();
    let mut left: u64 = n;
    assert(ten_to(0) * n == n) by (nonlinear_arith)
        requires
            ten_to(0) == 1,
    ;
    while left > 0
        invariant
            n > 0,
            n == low_first(digits@) + ten_to(digits@.len()) * left,
            forall|j: int| 0 <= j < digits@.len() ==> #[trigger] digits@[j] < 10,
            left == 0 ==> proper(digits@),
        decreases left,
    {
        let d: u8 = (left % 10) as u8;
        proof {
            lemma_push(digits@, d);
            let t = ten_to(digits@.len());
            assert(ten_to(digits@.len() + 1) == 10 * t);
            assert(t * left == t * d + (10 * t) * (left / 10)) by (nonlinear_arith)
                requires
                    left == d + 10 * (left / 10),
            ;
        }
        digits.push(d);
        left = left / 10;
    }
    assert(ten_to(digits@.len()) * 0 == 0);
    let mut k: u32 = 0;
    assert(pow2(0) == 1) by {
        vstd::arithmetic::power2::lemma2_to64();
    }
    assert(n as nat * pow2(0) == n) by (nonlinear_arith)
        requires
            pow2(0) == 1,
    ;
    while k < exp
        invariant
            k <= exp,
            proper(digits@),
            low_first(digits@) == n as nat * pow2(k as nat),
        decreases exp - k,
    {
        digits = doubled(&digits);
        proof {
            lemma_pow2_unfold((k + 1) as nat);
            let p = pow2(k as nat);
            assert(2 * (n as nat * p) == n as nat * (2 * p)) by (nonlinear_arith);
        }
        k += 1;
    }
    let mut text = String::new();
    let mut at: usize = digits.len();
    assert(digits@.skip(at as int) =~= Seq::<u8>::empty());
    assert(text@ =~= high_first_chars(digits@.skip(at as int)));
    while at > 0
        invariant
            at <= digits.len(),
            proper(digits@),
            text@ == high_first_chars(digits@.skip(at as int)),
        decreases at,
    {
        at -= 1;
        text.append(digit_text(digits[at] as u128));
        proof {
            let tail = digits@.skip(at as int);
            assert(tail.skip(1) =~= digits@.skip(at + 1));
            assert(text@ =~= high_first_chars(tail));
        }
    }
    proof {
        assert(digits@.skip(0) =~= digits@);
        lemma_decimal(digits@);
    }
    text
}

} // verus!
