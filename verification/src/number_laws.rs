//! What holds of doubles: each result is the double nearest to the exact one, and the text
//! of a number says what the number is.
use vstd::prelude::*;
use vstd::arithmetic::power::{lemma_pow0, lemma_pow1, lemma_pow_adds, pow};
use vstd::arithmetic::power2::{lemma2_to64, lemma_pow2_pos, lemma_pow2_unfold, pow2};
use crate::double::{
    half_even, half_up, lemma_lowered, lemma_nearest_step, nearest, padded, point_text,
    scale_down, scale_up, tens, too_large, too_small, two52, two53, zero, Double, Signed,
    MAX_EXP, MIN_EXP,
};
use crate::text::{all_digits, decimal, digits_value, is_digit};
use crate::text_laws::{decimal_digits_denote, places_count_tenfold};

verus! {

/// Two to the power `e`, or one where `e` is not above zero.
pub open spec fn two_to(e: int) -> nat {
    if e > 0 {
        pow2(e as nat)
    } else {
        1
    }
}

/// `mant` times two to the power `e` differs from `num / den` times two to the power `exp`
/// by no more than half of two to the power `e`, and by just that only if `mant` is even.
pub open spec fn within_half(num: nat, den: nat, exp: int, mant: nat, e: int) -> bool {
    let a = mant * (den * two_to(e - exp));
    let b = num * two_to(exp - e);
    let last = den * two_to(e - exp);
    &&& 2 * (a - b) <= last && 2 * (b - a) <= last
    &&& 2 * (a - b) == last || 2 * (b - a) == last ==> mant % 2 == 0
}

proof fn lemma_half_even(n: nat, d: nat)
    requires
        d > 0,
    ensures
        2 * (half_even(n, d) * d - n) <= d,
        2 * (n - half_even(n, d) * d) <= d,
        2 * (half_even(n, d) * d - n) == d ==> half_even(n, d) % 2 == 0,
        2 * (n - half_even(n, d) * d) == d ==> half_even(n, d) % 2 == 0,
{
    let (q, r) = (n / d, n % d);
    assert(n == q * d + r && r < d) by (nonlinear_arith)
        requires
            d > 0,
            q == n / d,
            r == n % d,
    ;
    assert((q + 1) * d == q * d + d) by (nonlinear_arith);
}

/// Rounding goes to the nearest integer; of two that are equally near, to the even one, or
/// away from zero.
pub proof fn rounding_goes_to_the_nearest(n: nat, d: nat)
    requires
        d > 0,
    ensures
        2 * (half_even(n, d) * d - n) <= d,
        2 * (n - half_even(n, d) * d) <= d,
        2 * (half_even(n, d) * d - n) == d ==> half_even(n, d) % 2 == 0,
        2 * (n - half_even(n, d) * d) == d ==> half_even(n, d) % 2 == 0,
        2 * (half_up(n, d) * d - n) <= d,
        2 * (n - half_up(n, d) * d) < d,
{
    lemma_half_even(n, d);
    let q = half_up(n, d);
    let (m, t) = (2 * n + d, 2 * d);
    assert(q * t <= m < q * t + t) by (nonlinear_arith)
        requires
            t > 0,
            q == m / t,
    ;
    assert(q * t == 2 * (q * d)) by (nonlinear_arith)
        requires
            t == 2 * d,
    ;
}

/// The double nearest to a number is no further from it than half of the last place of its
/// significand.
pub proof fn the_nearest_double_is_near(num: nat, den: nat, exp: int)
    requires
        den > 0,
    ensures
        nearest(num, den, exp) != Double::Nan,
        nearest(num, den, exp) matches Double::Finite { mant, exp: e } ==> within_half(
            num,
            den,
            exp,
            mant as nat,
            e as int,
        ),
    decreases
            (if exp < MIN_EXP {
                MIN_EXP - exp
            } else {
                0
            }),
            (if num >= two53() * den {
                num - two52() * den
            } else if num < two52() * den {
                exp - MIN_EXP
            } else {
                0
            }),
{
    lemma_nearest_step(num, den, exp);
    if too_large(num, den, exp) {
        the_nearest_double_is_near(num, 2 * den, exp + 1);
        if let Double::Finite { mant, exp: e } = nearest(num, den, exp) {
            lemma_halved(num, den, exp, mant as nat, e as int);
        }
    } else if too_small(num, den, exp) {
        the_nearest_double_is_near(2 * num, den, exp - 1);
        if let Double::Finite { mant, exp: e } = nearest(num, den, exp) {
            lemma_doubled(num, den, exp, mant as nat, e as int);
        }
    } else {
        lemma_half_even(num, den);
        let q = half_even(num, den);
        assert(q <= two53()) by (nonlinear_arith)
            requires
                2 * (q * den - num) <= den,
                num < two53() * den,
                den > 0,
                two53() == 0x20_0000_0000_0000,
        ;
        if let Double::Finite { mant, exp: e } = nearest(num, den, exp) {
            if q == two53() {
                lemma2_to64();
                lemma_pow2_unfold(1);
                assert(two_to(1) == 2);
                assert(e == exp + 1 && mant == two52());
                assert(mant * (den * 2) == q * den) by (nonlinear_arith)
                    requires
                        2 * mant == q,
                ;
                assert(num * 1 == num && den * 2 >= den);
            } else {
                assert(mant == q && e == exp);
                assert(mant * (den * 1) == q * den && num * 1 == num);
            }
        }
    }
}

proof fn lemma_two_to(e: int)
    ensures
        e >= 0 ==> two_to(e + 1) == 2 * two_to(e),
        two_to(e) >= 1,
{
    lemma2_to64();
    if e >= 0 {
        lemma_pow2_unfold((e + 1) as nat);
        if e == 0 {
            assert(pow2(1) == 2);
        }
    }
    if e > 0 {
        lemma_pow2_pos(e as nat);
    }
}

proof fn lemma_halved(num: nat, den: nat, exp: int, mant: nat, e: int)
    requires
        within_half(num, 2 * den, exp + 1, mant, e),
    ensures
        within_half(num, den, exp, mant, e),
{
    let s = e - exp;
    if s >= 1 {
        lemma_two_to(s - 1);
        let t = two_to(s - 1);
        assert((2 * den) * t == den * (2 * t)) by (nonlinear_arith);
    } else {
        lemma_two_to(-s);
        let t = two_to(-s);
        assert(mant * ((2 * den) * 1) == 2 * (mant * (den * 1))) by (nonlinear_arith);
        assert(num * (2 * t) == 2 * (num * t)) by (nonlinear_arith);
    }
}

proof fn lemma_doubled(num: nat, den: nat, exp: int, mant: nat, e: int)
    requires
        within_half(2 * num, den, exp - 1, mant, e),
    ensures
        within_half(num, den, exp, mant, e),
{
    let s = e - exp;
    if s >= 0 {
        lemma_two_to(s);
        let t = two_to(s);
        assert(mant * (den * (2 * t)) == 2 * (mant * (den * t))) by (nonlinear_arith);
        assert(den * (2 * t) == 2 * (den * t)) by (nonlinear_arith);
        assert((2 * num) * 1 == 2 * (num * 1));
    } else {
        lemma_two_to(-s - 1);
        let t = two_to(-s - 1);
        assert((2 * num) * t == num * (2 * t)) by (nonlinear_arith);
    }
}

/// Products, quotients and sums of numbers are the doubles nearest to the exact ones.
pub proof fn results_are_near(a: Double, b: Double)
    requires
        a is Finite,
        b is Finite,
    ensures
        a.spec_mul(b) matches Double::Finite { mant, exp } ==> within_half(
            (a->mant * b->mant) as nat,
            1,
            a->exp + b->exp,
            mant as nat,
            exp as int,
        ),
        b->mant > 0 ==> (a.spec_div(b) matches Double::Finite { mant, exp } ==> within_half(
            a->mant as nat,
            b->mant as nat,
            a->exp - b->exp,
            mant as nat,
            exp as int,
        )),
        a->exp <= b->exp ==> (a.spec_add(b) matches Double::Finite { mant, exp } ==> within_half(
            (a->mant + b->mant * two_to(b->exp - a->exp)) as nat,
            1,
            a->exp as int,
            mant as nat,
            exp as int,
        )),
        a->exp >= b->exp ==> (a.spec_add(b) matches Double::Finite { mant, exp } ==> within_half(
            (a->mant * two_to(a->exp - b->exp) + b->mant) as nat,
            1,
            b->exp as int,
            mant as nat,
            exp as int,
        )),
        a.spec_mul(b) != Double::Nan,
        a.spec_add(b) != Double::Nan,
        b->mant > 0 ==> a.spec_div(b) != Double::Nan,
{
    let (m1, m2) = (a->mant as nat, b->mant as nat);
    assert(m1 * m2 >= 0) by (nonlinear_arith);
    the_nearest_double_is_near((a->mant * b->mant) as nat, 1, a->exp + b->exp);
    if b->mant > 0 {
        the_nearest_double_is_near(m1, m2, a->exp - b->exp);
    }
    let sum = (a->mant * scale_up(a->exp - b->exp) + b->mant * scale_up(b->exp - a->exp)) as nat;
    assert(m1 * 1 == m1 && m2 * 1 == m2);
    lemma_two_to(a->exp - b->exp);
    lemma_two_to(b->exp - a->exp);
    let (up, down) = (two_to(a->exp - b->exp), two_to(b->exp - a->exp));
    assert(m1 * up >= 0 && m2 * down >= 0) by (nonlinear_arith);
    the_nearest_double_is_near(sum, 1, a->exp as int);
    the_nearest_double_is_near(sum, 1, b->exp as int);
}

/// What has no number for a result: zero over zero, infinity over infinity, zero times
/// infinity, and whatever not-a-number goes into.
pub proof fn special_results(a: Double)
    ensures
        a.spec_mul(Double::Nan) == Double::Nan && Double::Nan.spec_mul(a) == Double::Nan,
        a.spec_div(Double::Nan) == Double::Nan && Double::Nan.spec_div(a) == Double::Nan,
        a.spec_add(Double::Nan) == Double::Nan && Double::Nan.spec_add(a) == Double::Nan,
        zero().spec_div(zero()) == Double::Nan,
        Double::Infinite.spec_div(Double::Infinite) == Double::Nan,
        Double::Infinite.spec_mul(zero()) == Double::Nan,
        zero().spec_mul(Double::Infinite) == Double::Nan,
        a matches Double::Finite { mant, .. } ==> {
            &&& mant > 0 ==> a.spec_div(zero()) == Double::Infinite
            &&& mant > 0 ==> a.spec_mul(Double::Infinite) == Double::Infinite
            &&& a.spec_div(Double::Infinite) == zero()
            &&& a.spec_add(Double::Infinite) == Double::Infinite
            &&& Double::Infinite.spec_add(a) == Double::Infinite
            &&& Double::Infinite.spec_div(a) == Double::Infinite
        },
        a.larger(Double::Nan) == a || a == Double::Nan,
        Double::Nan.larger(a) == a,
{
}

/// A double is the one nearest to itself.
proof fn lemma_own_nearest(d: Double)
    requires
        d is Finite,
        d.valid(),
    ensures
        nearest(d->mant as nat, 1, d->exp as int) == d,
{
    let m = d->mant as nat;
    lemma_nearest_step(m, 1, d->exp as int);
    assert(m / 1 == m && m % 1 == 0) by (nonlinear_arith);
}

/// Integers below two to the 53rd power are doubles, and are kept exactly.
pub proof fn small_integers_are_exact(n: nat)
    requires
        n < two53(),
    ensures
        nearest(n, 1, 0) matches Double::Finite { mant, exp } && exp <= 0 && mant == n * two_to(
            -exp,
        ),
{
    lemma_exponent_stays(n, 0);
    the_nearest_double_is_near(n, 1, 0);
    if let Double::Finite { mant, exp } = nearest(n, 1, 0) {
        let m = mant as nat;
        assert(two_to(exp as int) == 1);
        assert(m * (1nat * 1nat) == m) by (nonlinear_arith);
    }
}

proof fn lemma_exponent_stays(num: nat, exp: int)
    requires
        num < two53(),
        MIN_EXP <= exp <= 0,
    ensures
        nearest(num, 1, exp) matches Double::Finite { exp: e, .. } && e <= exp,
    decreases exp - MIN_EXP,
{
    lemma_nearest_step(num, 1, exp);
    if too_small(num, 1, exp) {
        lemma_exponent_stays(2 * num, exp - 1);
    } else {
        assert(num / 1 == num && num % 1 == 0) by (nonlinear_arith);
    }
}

/// Twice a number has the significand of the number and the next exponent, as long as both
/// are doubles with a full significand.
pub proof fn doubling_moves_the_exponent(num: nat, den: nat, exp: int)
    requires
        den > 0,
        exp >= MIN_EXP,
        nearest(num, den, exp) matches Double::Finite { exp: e, .. } && MIN_EXP < e < MAX_EXP,
    ensures
        nearest(num, den, exp + 1) == (Double::Finite {
            mant: nearest(num, den, exp)->mant,
            exp: (nearest(num, den, exp)->exp + 1) as i32,
        }),
    decreases
            (if exp < MIN_EXP {
                MIN_EXP - exp
            } else {
                0
            }),
            (if num >= two53() * den {
                num - two52() * den
            } else if num < two52() * den {
                exp - MIN_EXP
            } else {
                0
            }),
{
    lemma_nearest_step(num, den, exp);
    lemma_nearest_step(num, den, exp + 1);
    if too_large(num, den, exp) {
        doubling_moves_the_exponent(num, 2 * den, exp + 1);
    } else if too_small(num, den, exp) {
        doubling_moves_the_exponent(2 * num, den, exp - 1);
    } else {
        if num < two52() * den {
            lemma_half_even(num, den);
            let q = half_even(num, den);
            assert(q <= two52()) by (nonlinear_arith)
                requires
                    2 * (q * den - num) <= den,
                    num < two52() * den,
                    den > 0,
                    two52() == 0x10_0000_0000_0000,
            ;
        }
    }
}

/// Factors that are common to a number and what it is divided by do not matter.
pub proof fn common_factors_cancel(num: nat, den: nat, exp: int, k: nat)
    requires
        den > 0,
        k > 0,
    ensures
        nearest(k * num, k * den, exp) == nearest(num, den, exp),
    decreases
            (if exp < MIN_EXP {
                MIN_EXP - exp
            } else {
                0
            }),
            (if num >= two53() * den {
                num - two52() * den
            } else if num < two52() * den {
                exp - MIN_EXP
            } else {
                0
            }),
{
    let (n, d) = (k * num, k * den);
    assert(d > 0) by (nonlinear_arith)
        requires
            d == k * den,
            k > 0,
            den > 0,
    ;
    lemma_nearest_step(num, den, exp);
    lemma_nearest_step(n, d, exp);
    lemma_factor_order(num, den, k, two53());
    lemma_factor_order(num, den, k, two52());
    if too_large(num, den, exp) {
        common_factors_cancel(num, 2 * den, exp + 1, k);
        assert(k * (2 * den) == 2 * d) by (nonlinear_arith)
            requires
                d == k * den,
        ;
    } else if too_small(num, den, exp) {
        common_factors_cancel(2 * num, den, exp - 1, k);
        assert(k * (2 * num) == 2 * n) by (nonlinear_arith)
            requires
                n == k * num,
        ;
    } else {
        let (q, r) = (num / den, num % den);
        assert(num == q * den + r && r < den) by (nonlinear_arith)
            requires
                den > 0,
                q == num / den,
                r == num % den,
        ;
        assert(n == q * d + k * r && k * r < d) by (nonlinear_arith)
            requires
                n == k * num,
                d == k * den,
                num == q * den + r,
                r < den,
                k > 0,
        ;
        assert(n / d == q && n % d == k * r) by (nonlinear_arith)
            requires
                n == q * d + k * r,
                k * r < d,
        ;
        assert((2 * (k * r) > d) == (2 * r > den) && (2 * (k * r) == d) == (2 * r == den))
            by (nonlinear_arith)
            requires
                d == k * den,
                k > 0,
        ;
    }
}

proof fn lemma_factor_order(num: nat, den: nat, k: nat, bound: nat)
    requires
        k > 0,
    ensures
        k * num >= bound * (k * den) <==> num >= bound * den,
{
    assert(bound * (k * den) == k * (bound * den)) by (nonlinear_arith);
    let b = bound * den;
    assert(k * num >= k * b <==> num >= b) by (nonlinear_arith)
        requires
            k > 0,
    ;
}

/// One, as a double.
pub open spec fn one() -> Double {
    nearest(1, 1, 0)
}

proof fn lemma_one()
    ensures
        one() == (Double::Finite { mant: 0x10_0000_0000_0000u64, exp: -52i32 }),
{
    reveal_with_fuel(nearest, 54);
}

/// A number times one is the number, a number over itself is one, and a number over one is
/// the number.
pub proof fn one_changes_nothing(d: Double)
    requires
        d is Finite,
        d.valid(),
    ensures
        one().spec_mul(d) == d,
        d.spec_mul(one()) == d,
        d.spec_div(one()) == d,
        d->mant > 0 ==> d.spec_div(d) == one(),
        d.spec_add(zero()) == d,
        zero().spec_add(d) == d,
{
    let (m, e) = (d->mant as nat, d->exp as int);
    let hidden = 0x10_0000_0000_0000nat;
    lemma_one();
    lemma_own_nearest(d);
    lemma2_to64();
    vstd::arithmetic::power2::lemma2_to64_rest();
    assert(pow2(52) == hidden);
    lemma_lowered(m, 1, e, e - 52);
    assert(m * pow2(52) == hidden * m) by (nonlinear_arith)
        requires
            pow2(52) == hidden,
    ;
    lemma_lowered(m, hidden, e + 52, e);
    common_factors_cancel(m, 1, e, hidden);
    assert(m * pow2(52) == m * hidden) by (nonlinear_arith)
        requires
            pow2(52) == hidden,
    ;
    assert(hidden * m == m * hidden) by (nonlinear_arith);
    if m > 0 {
        common_factors_cancel(1, 1, 0, m);
        assert(m * 1 == m);
    }
    lemma_lowered(m, 1, e, MIN_EXP as int);
    let up = scale_up(e - MIN_EXP);
    let down = scale_up(MIN_EXP - e);
    assert(0 * down == 0 && 0 * up == 0);
    assert(m * 1 == m);
}

/// The digits of a number in a fixed number of places denote its last places.
pub proof fn padded_digits_denote(n: nat, width: nat)
    ensures
        padded(n, width).len() == width,
        all_digits(padded(n, width)),
        tens(width) == pow(10, width),
        digits_value(padded(n, width)) == n % tens(width),
    decreases width,
{
    lemma_pow0(10);
    lemma_pow1(10);
    if width > 0 {
        let w = (width - 1) as nat;
        padded_digits_denote(n / 10, w);
        lemma_pow_adds(10, 1, w);
        let text = padded(n, width);
        let high = padded(n / 10, w);
        assert(text.drop_last() =~= high);
        assert forall|i: int| 0 <= i < text.len() implies is_digit(#[trigger] text[i]) by {
            if i < high.len() {
                assert(text[i] == high[i]);
            }
        }
        let t = tens(w);
        assert(t > 0) by {
            vstd::arithmetic::power::lemma_pow_positive(10, w);
        }
        let q = n / 10;
        assert((q % t) * 10 + n % 10 == n % (10 * t)) by {
            lemma_last_places(n, t);
        }
    }
}

proof fn lemma_last_places(n: nat, t: nat)
    requires
        t > 0,
    ensures
        ((n / 10) % t) * 10 + n % 10 == n % (10 * t),
{
    let (q, r) = (n / 10, n % 10);
    let (a, b) = (q / t, q % t);
    assert(q == a * t + b && b < t) by (nonlinear_arith)
        requires
            t > 0,
            a == q / t,
            b == q % t,
    ;
    let rest = b * 10 + r;
    assert(n == a * (10 * t) + rest) by (nonlinear_arith)
        requires
            n == q * 10 + r,
            q == a * t + b,
            rest == b * 10 + r,
    ;
    assert(n % (10 * t) == rest) by (nonlinear_arith)
        requires
            n == a * (10 * t) + rest,
            rest < 10 * t,
    ;
}

/// The text of a number of hundredths, or of other places, has that many digits behind its
/// point, and its digits denote the number.
pub proof fn points_stand_before_the_places(units: nat, places: nat)
    ensures
        places == 0 ==> point_text(units, places) == decimal(units),
        places > 0 ==> {
            let text = point_text(units, places);
            let at = text.len() - places - 1;
            &&& at > 0
            &&& text[at] == '.'
            &&& digits_value(text.take(at) + text.skip(at + 1)) == units
            &&& all_digits(text.take(at)) && all_digits(text.skip(at + 1))
            &&& at > 1 ==> text[0] != '0'
        },
{
    if places > 0 {
        let t = tens(places);
        padded_digits_denote(units % t, places);
        vstd::arithmetic::power::lemma_pow_positive(10, places);
        decimal_digits_denote(units / t);
        let (high, low) = (decimal(units / t), padded(units % t, places));
        let text = point_text(units, places);
        let at = text.len() - places - 1;
        assert(text.take(at) =~= high);
        assert(text.skip(at + 1) =~= low);
        places_count_tenfold(high, low, '0');
        assert(units % t % t == units % t) by (nonlinear_arith)
            requires
                t > 0,
        ;
        assert((units / t) * t + units % t == units) by (nonlinear_arith)
            requires
                t > 0,
        ;
        assert(text[0] == high[0]);
        if units / t == 0 {
            assert(high.len() == 1);
        }
    }
}

/// A number is shown by the nearest number that its places can show; what is no number
/// is shown as such.
pub proof fn shown_numbers_are_near(d: Double, places: nat)
    ensures
        d matches Double::Finite { mant, exp } ==> {
            let exact = mant as nat * pow(10, places) * two_to(exp as int);
            let shown = d.units(places) * two_to(-exp);
            &&& d.fixed_text(places) == point_text(d.units(places), places)
            &&& 2 * (shown - exact) <= two_to(-exp)
            &&& 2 * (exact - shown) <= two_to(-exp)
        },
        d == Double::Infinite ==> d.fixed_text(places) == "inf"@,
        d == Double::Nan ==> d.fixed_text(places) == "NaN"@,
{
    if let Double::Finite { mant, exp } = d {
        padded_digits_denote(0, places);
        lemma_two_to(-exp);
        vstd::arithmetic::power::lemma_pow_positive(10, places);
        let n = mant as nat * tens(places) * scale_up(exp as int);
        lemma_half_even(n, scale_down(exp as int));
    }
}

/// A number with a sign shows the sign, and not-a-number shows none.
pub proof fn signs_are_shown(s: Signed, places: nat)
    ensures
        s.size == Double::Nan ==> s.fixed_text(places) == "NaN"@,
        s.size != Double::Nan && s.negative ==> s.fixed_text(places) == "-"@ + s.size.fixed_text(
            places,
        ),
        !s.negative ==> s.fixed_text(places) == s.size.fixed_text(places),
{
}

/// Rounding a number to an integer keeps one that has no fraction, and else gives the
/// nearest integer.
pub proof fn rounded_numbers_are_near(d: Double)
    ensures
        d matches Double::Finite { mant, exp } ==> {
            &&& exp >= 0 ==> d.rounded_off() == d
            &&& exp < 0 ==> {
                let whole = d.whole();
                &&& d.rounded_off() == nearest(whole, 1, 0)
                &&& 2 * (whole * two_to(-exp) - mant) <= two_to(-exp)
                &&& 2 * (mant - whole * two_to(-exp)) < two_to(-exp)
            }
        },
        !(d is Finite) ==> d.rounded_off() == d,
{
    if let Double::Finite { mant, exp } = d {
        lemma_two_to(-exp);
        assert(mant as nat * 1 == mant);
        rounding_goes_to_the_nearest(mant as nat * scale_up(exp as int), scale_down(exp as int));
    }
}

/// The bits of a number hold its exponent and its significand, and those of a number with a
/// sign the sign on top.
pub proof fn bits_hold_exponent_and_significand(d: Double, s: Signed)
    requires
        d.valid(),
        s.valid(),
    ensures
        d matches Double::Finite { mant, exp } ==> d.bits() == (exp + 1074) * 0x10_0000_0000_0000
            + mant,
        d == Double::Infinite ==> d.bits() == 0x7ff0_0000_0000_0000,
        d == Double::Nan ==> d.bits() == 0x7ff8_0000_0000_0000,
        s.negative ==> s.bits() == s.size.bits() + 0x8000_0000_0000_0000,
        !s.negative ==> s.bits() == s.size.bits(),
        Signed::of_bits(s.bits()) == s,
        Double::of_bits(d.bits()) == Some(d),
{
    crate::double::bits_round_trip(d);
    crate::double::bits_round_trip(s.size);
    lemma_bits_range(d);
    lemma_bits_range(s.size);
}

proof fn lemma_bits_range(d: Double)
    requires
        d.valid(),
    ensures
        d.bits() < 0x8000_0000_0000_0000,
        d matches Double::Finite { mant, exp } ==> d.bits() == (exp + 1074) * 0x10_0000_0000_0000
            + mant,
{
    if let Double::Finite { mant, exp } = d {
        assert(0 <= (exp + 1074) * 0x10_0000_0000_0000 + mant < 0x7ff0_0000_0000_0000)
            by (nonlinear_arith)
            requires
                mant < 0x20_0000_0000_0000,
                -1074 <= exp <= 971,
        ;
    }
}

} // verus!
