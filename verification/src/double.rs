//! Non-negative IEEE 754 binary64 numbers over integers.
//!
//! Costs, rates and percentages are shown as doubles. Here a double is the integer
//! pair it is made of, and every operation is the exact result rounded to the
//! nearest double, ties to even.
use vstd::prelude::*;
use vstd::arithmetic::power2::{
    lemma2_to64, lemma2_to64_rest, lemma_pow2_adds, lemma_pow2_pos, lemma_pow2_strictly_increases,
    lemma_pow2_unfold, pow2,
};
use crate::digits::scaled_text;
use crate::text::{decimal, decimal_text, digit_char, digit_text};

verus! {

/// The smallest significand of a normal double: two to the 52nd power.
pub const HIDDEN: u64 = 0x10_0000_0000_0000;

/// The exponent of the smallest doubles.
pub const MIN_EXP: i32 = -1074;

/// The exponent of the largest doubles.
pub const MAX_EXP: i32 = 971;

/// A double without a sign: `mant` times two to the power `exp`, infinity, or not
/// a number.
#[derive(Clone, Copy, PartialEq, Eq, Structural, Debug)]
pub enum Double {
    Finite { mant: u64, exp: i32 },
    Infinite,
    Nan,
}

/// Two to the 52nd power.
#[verifier::inline]
pub open spec fn two52() -> nat {
    0x10_0000_0000_0000
}

/// Two to the 53rd power.
#[verifier::inline]
pub open spec fn two53() -> nat {
    0x20_0000_0000_0000
}

pub open spec fn zero() -> Double {
    Double::Finite { mant: 0, exp: MIN_EXP }
}

/// `n / d` rounded to an integer, ties to even.
pub open spec fn half_even(n: nat, d: nat) -> nat {
    let q = n / d;
    let r = n % d;
    if 2 * r > d || (2 * r == d && q % 2 == 1) {
        q + 1
    } else {
        q
    }
}

/// `n / d` rounded to an integer, ties away from zero.
pub open spec fn half_up(n: nat, d: nat) -> nat {
    (2 * n + d) / (2 * d)
}

/// The double made of a significand that rounding may have carried to two to the
/// 53rd power.
pub open spec fn carried(mant: nat, exp: int) -> Double {
    let (m, e) = if mant == two53() {
        (two52(), exp + 1)
    } else {
        (mant, exp)
    };
    if e > MAX_EXP {
        Double::Infinite
    } else {
        Double::Finite { mant: m as u64, exp: e as i32 }
    }
}

pub open spec fn too_large(num: nat, den: nat, exp: int) -> bool {
    num >= two53() * den || exp < MIN_EXP
}

pub open spec fn too_small(num: nat, den: nat, exp: int) -> bool {
    num < two52() * den && exp > MIN_EXP
}

/// The double nearest to `num / den * 2^exp`, ties to even: the exponent is moved
/// until the significand has 53 bits (or the exponent is the smallest there is),
/// then the significand is rounded once.
pub open spec fn nearest(num: nat, den: nat, exp: int) -> Double
    decreases
            (if exp < MIN_EXP {
                MIN_EXP - exp
            } else {
                0
            }),
            (if num >= two53() * den {
                num - two52() * den
            } else if num < two52() * den {
                exp - MIN_EXP
            } else {
                0
            }),
{
    if den == 0 {
        Double::Nan
    } else if too_large(num, den, exp) {
        nearest(num, 2 * den, exp + 1)
    } else if too_small(num, den, exp) {
        nearest(2 * num, den, exp - 1)
    } else {
        carried(half_even(num, den), exp)
    }
}

impl Double {
    /// The significand and exponent are those of a double, in their one normal form.
    pub open spec fn valid(self) -> bool {
        match self {
            Double::Finite { mant, exp } => {
                &&& mant < two53()
                &&& MIN_EXP <= exp <= MAX_EXP
                &&& mant >= two52() || exp == MIN_EXP
            },
            _ => true,
        }
    }

    pub open spec fn is_zero(self) -> bool {
        self == zero()
    }

    /// The product as IEEE 754 has it.
    pub open spec fn spec_mul(self, other: Double) -> Double {
        match (self, other) {
            (Double::Nan, _) => Double::Nan,
            (_, Double::Nan) => Double::Nan,
            (Double::Infinite, _) => if other.is_zero() {
                Double::Nan
            } else {
                Double::Infinite
            },
            (_, Double::Infinite) => if self.is_zero() {
                Double::Nan
            } else {
                Double::Infinite
            },
            (Double::Finite { mant: m1, exp: e1 }, Double::Finite { mant: m2, exp: e2 }) => nearest(
                (m1 * m2) as nat,
                1,
                e1 + e2,
            ),
        }
    }

    /// The quotient as IEEE 754 has it.
    pub open spec fn spec_div(self, other: Double) -> Double {
        match (self, other) {
            (Double::Nan, _) => Double::Nan,
            (_, Double::Nan) => Double::Nan,
            (Double::Infinite, Double::Infinite) => Double::Nan,
            (Double::Infinite, _) => Double::Infinite,
            (_, Double::Infinite) => zero(),
            (Double::Finite { mant: m1, exp: e1 }, Double::Finite { mant: m2, exp: e2 }) => if m2
                == 0 {
                if m1 == 0 {
                    Double::Nan
                } else {
                    Double::Infinite
                }
            } else {
                nearest(m1 as nat, m2 as nat, e1 - e2)
            },
        }
    }
}

/// Two to the power of the part of `exp` above zero.
pub open spec fn scale_up(exp: int) -> nat {
    if exp > 0 {
        pow2(exp as nat)
    } else {
        1
    }
}

/// Two to the power of the part of `exp` below zero.
pub open spec fn scale_down(exp: int) -> nat {
    if exp < 0 {
        pow2((-exp) as nat)
    } else {
        1
    }
}

/// The decimal digits of `n` in `width` places, with leading zeros.
pub open spec fn padded(n: nat, width: nat) -> Seq<char>
    decreases width,
{
    if width == 0 {
        seq![]
    } else {
        padded(n / 10, (width - 1) as nat).push(digit_char((n % 10) as int))
    }
}

/// Ten to the power `places`.
pub open spec fn tens(places: nat) -> nat
    decreases places,
{
    if places == 0 {
        1
    } else {
        10 * tens((places - 1) as nat)
    }
}

/// A number of units of `10^-places`, written with a decimal point.
pub open spec fn point_text(units: nat, places: nat) -> Seq<char> {
    if places == 0 {
        decimal(units)
    } else {
        decimal(units / tens(places)) + seq!['.'] + padded(units % tens(places), places)
    }
}

impl Double {
    /// The sum as IEEE 754 has it.
    pub open spec fn spec_add(self, other: Double) -> Double {
        match (self, other) {
            (Double::Nan, _) => Double::Nan,
            (_, Double::Nan) => Double::Nan,
            (Double::Infinite, _) => Double::Infinite,
            (_, Double::Infinite) => Double::Infinite,
            (Double::Finite { mant: m1, exp: e1 }, Double::Finite { mant: m2, exp: e2 }) => nearest(
                (m1 * scale_up(e1 - e2) + m2 * scale_up(e2 - e1)) as nat,
                1,
                if e1 < e2 {
                    e1 as int
                } else {
                    e2 as int
                },
            ),
        }
    }

    /// Whether `self` is a smaller number than `other`.
    pub open spec fn below(self, other: Double) -> bool {
        match (self, other) {
            (Double::Finite { mant: m1, exp: e1 }, Double::Finite { mant: m2, exp: e2 }) => m1
                * scale_up(e1 - e2) < m2 * scale_up(e2 - e1),
            (Double::Finite { .. }, Double::Infinite) => true,
            _ => false,
        }
    }

    /// The larger of two numbers; not-a-number gives way to the other.
    pub open spec fn larger(self, other: Double) -> Double {
        if self == Double::Nan || self.below(other) {
            other
        } else {
            self
        }
    }

    /// The number in units of `10^-places`, rounded half to even.
    pub open spec fn units(self, places: nat) -> nat {
        match self {
            Double::Finite { mant, exp } => half_even(
                mant as nat * tens(places) * scale_up(exp as int),
                scale_down(exp as int),
            ),
            _ => 0,
        }
    }

    /// The number with `places` digits behind the decimal point.
    pub open spec fn fixed_text(self, places: nat) -> Seq<char> {
        match self {
            Double::Finite { .. } => point_text(self.units(places), places),
            Double::Infinite => "inf"@,
            Double::Nan => "NaN"@,
        }
    }

    /// The nearest integer, ties away from zero.
    pub open spec fn whole(self) -> nat {
        match self {
            Double::Finite { mant, exp } => half_up(
                mant as nat * scale_up(exp as int),
                scale_down(exp as int),
            ),
            _ => 0,
        }
    }

    /// The number rounded to an integer, ties away from zero; where there is no
    /// fraction, the number itself.
    pub open spec fn rounded_off(self) -> Double {
        match self {
            Double::Finite { mant, exp } => if exp < 0 {
                nearest(self.whole(), 1, 0)
            } else {
                self
            },
            _ => self,
        }
    }

    /// The bits of the binary64 encoding, sign bit clear.
    pub open spec fn bits(self) -> u64 {
        match self {
            Double::Finite { mant, exp } => ((exp - MIN_EXP) * two52() + mant) as u64,
            Double::Infinite => 0x7ff0_0000_0000_0000,
            Double::Nan => 0x7ff8_0000_0000_0000,
        }
    }

    /// The number that binary64 bits encode, where the sign bit is clear.
    pub open spec fn of_bits(bits: u64) -> Option<Double> {
        if bits >= 0x8000_0000_0000_0000 {
            None
        } else if bits > 0x7ff0_0000_0000_0000 {
            Some(Double::Nan)
        } else if bits == 0x7ff0_0000_0000_0000 {
            Some(Double::Infinite)
        } else if bits < two53() {
            Some(Double::Finite { mant: bits, exp: MIN_EXP })
        } else {
            Some(
                Double::Finite {
                    mant: (bits as nat % two52() + two52()) as u64,
                    exp: (MIN_EXP + bits as nat / two52() - 1) as i32,
                },
            )
        }
    }
}

pub proof fn lemma_nearest_step(num: nat, den: nat, exp: int)
    requires
        den > 0,
    ensures
        too_large(num, den, exp) ==> nearest(num, den, exp) == nearest(num, 2 * den, exp + 1),
        !too_large(num, den, exp) && too_small(num, den, exp) ==> nearest(num, den, exp) == nearest(
            2 * num,
            den,
            exp - 1,
        ),
        !too_large(num, den, exp) && !too_small(num, den, exp) ==> nearest(num, den, exp)
            == carried(half_even(num, den), exp),
{
}

/// What is below half of the smallest double vanishes.
proof fn lemma_vanishes(num: nat, den: nat, exp: int)
    requires
        2 * num < den,
        exp <= MIN_EXP,
    ensures
        nearest(num, den, exp) == zero(),
    decreases MIN_EXP - exp,
{
    lemma_nearest_step(num, den, exp);
    if exp < MIN_EXP {
        lemma_vanishes(num, 2 * den, exp + 1);
    } else {
        assert(num < two53() * den) by (nonlinear_arith)
            requires
                2 * num < den,
                two52() >= 1,
        ;
        assert(num / den == 0 && num % den == num) by (nonlinear_arith)
            requires
                num < den,
        ;
    }
}

/// Nothing, in whatever scale, is zero.
pub proof fn zero_from_nothing(den: nat, exp: int)
    requires
        den > 0,
    ensures
        nearest(0, den, exp) == zero(),
    decreases
            (if exp < MIN_EXP {
                MIN_EXP - exp
            } else {
                exp - MIN_EXP
            }),
{
    lemma_nearest_step(0, den, exp);
    assert(0 < two52() * den && 0 < two53() * den) by (nonlinear_arith)
        requires
            den > 0,
    ;
    if exp < MIN_EXP {
        zero_from_nothing(2 * den, exp + 1);
    } else if exp > MIN_EXP {
        zero_from_nothing(den, exp - 1);
    } else {
        assert(0nat / den == 0 && 0nat % den == 0) by (nonlinear_arith)
            requires
                den > 0,
        ;
    }
}

proof fn lemma_whole(num: nat, den: nat)
    requires
        den > 0,
    ensures
        num / den >= two53() <==> num >= two53() * den,
        num / den >= two52() <==> num >= two52() * den,
        num % den < den,
{
    lemma_quotient_at_least(num, den, two53());
    lemma_quotient_at_least(num, den, two52());
}

proof fn lemma_quotient_at_least(num: nat, den: nat, bound: nat)
    by (nonlinear_arith)
    requires
        den > 0,
    ensures
        num / den >= bound <==> num >= bound * den,
        num % den < den,
{
}

/// A power of two below two to the 126th has an exponent below 127.
proof fn lemma_few_doublings(ups: nat)
    requires
        pow2(ups) <= 0x4000_0000_0000_0000_0000_0000_0000_0000,
    ensures
        ups <= 126,
{
    if ups > 126 {
        lemma2_to64();
        lemma_pow2_adds(64, 62);
        lemma_pow2_adds(31, 31);
        if ups > 127 {
            lemma_pow2_strictly_increases(127, ups);
        }
        lemma_pow2_strictly_increases(126, 127);
        assert(pow2(62) == 0x4000_0000_0000_0000) by (nonlinear_arith)
            requires
                pow2(31) == 0x8000_0000,
                pow2(31) * pow2(31) == pow2(62),
        ;
        assert(pow2(126) == 0x4000_0000_0000_0000_0000_0000_0000_0000) by (nonlinear_arith)
            requires
                pow2(62) == 0x4000_0000_0000_0000,
                pow2(64) == 0x1_0000_0000_0000_0000,
                pow2(64) * pow2(62) == pow2(126),
        ;
    }
}

/// Rounds `num / den * 2^exp` to the nearest double.
fn round(num: u128, den: u128, exp: i32) -> (r: Double)
    requires
        num < 0x100_0000_0000_0000_0000_0000_0000_0000,
        0 < den < 0x1_0000_0000_0000_0000,
        -100000 <= exp <= 100000,
    ensures
        r == nearest(num as nat, den as nat, exp as int),
        r.valid(),
{
    let mut n: u128 = num;
    let mut d: u128 = den;
    let mut e: i32 = exp;
    let hidden: u128 = HIDDEN as u128;
    let ghost mut ups: nat = 0;
    proof {
        lemma2_to64();
    }
    loop
        invariant
            hidden == two52(),
            n < 0x100_0000_0000_0000_0000_0000_0000_0000,
            0 < d <= 0x4000_0000_0000_0000_0000_0000_0000_0000,
            -100000 <= exp <= 100000,
            MIN_EXP <= e || e >= exp,
            e <= exp + ups,
            pow2(ups) <= d,
            0 < den < 0x1_0000_0000_0000_0000,
            d == den || n >= two52() * d || e <= MIN_EXP,
            nearest(n as nat, d as nat, e as int) == nearest(num as nat, den as nat, exp as int),
        decreases
                (if e < MIN_EXP {
                    MIN_EXP - e
                } else {
                    0
                }),
                (if n >= two53() * d {
                    n - two52() * d
                } else if n < two52() * d {
                    e - MIN_EXP
                } else {
                    0
                }),
    {
        let whole: u128 = n / d;
        proof {
            lemma_nearest_step(n as nat, d as nat, e as int);
            lemma_whole(n as nat, d as nat);
            lemma_few_doublings(ups);
        }
        if e < MIN_EXP || whole >= 2 * hidden {
            if d >= 0x2000_0000_0000_0000_0000_0000_0000_0000 {
                proof {
                    lemma_vanishes(n as nat, d as nat, e as int);
                }
                return Double::Finite { mant: 0, exp: MIN_EXP };
            }
            proof {
                lemma_pow2_adds(ups, 1);
                lemma2_to64();
                assert(pow2(ups + 1) == 2 * pow2(ups));
                ups = ups + 1;
            }
            d = 2 * d;
            e = e + 1;
        } else if whole < hidden && e > MIN_EXP {
            n = 2 * n;
            e = e - 1;
        } else {
            let rest: u128 = n % d;
            let up = 2 * rest > d || (2 * rest == d && whole % 2 == 1);
            let mant: u128 = if up {
                whole + 1
            } else {
                whole
            };
            assert(mant == half_even(n as nat, d as nat));
            if mant == 2 * hidden {
                if e + 1 > MAX_EXP {
                    return Double::Infinite;
                }
                return Double::Finite { mant: HIDDEN, exp: e + 1 };
            }
            if e > MAX_EXP {
                return Double::Infinite;
            }
            return Double::Finite { mant: mant as u64, exp: e };
        }
    }
}

/// Two to the power `k`.
fn power_of_two(k: u32) -> (p: u128)
    requires
        k <= 126,
    ensures
        p == pow2(k as nat),
        1 <= p <= 0x4000_0000_0000_0000_0000_0000_0000_0000,
{
    let mut p: u128 = 1;
    let mut i: u32 = 0;
    proof {
        lemma2_to64();
    }
    while i < k
        invariant
            i <= k <= 126,
            p == pow2(i as nat),
            1 <= p <= 0x4000_0000_0000_0000_0000_0000_0000_0000,
        decreases k - i,
    {
        proof {
            lemma_pow2_unfold((i + 1) as nat);
            lemma_pow2_at_most(i as nat, 125);
            lemma_pow2_125();
        }
        p = 2 * p;
        i += 1;
    }
    p
}

proof fn lemma_pow2_at_most(a: nat, b: nat)
    requires
        a <= b,
    ensures
        pow2(a) <= pow2(b),
{
    if a < b {
        lemma_pow2_strictly_increases(a, b);
    }
}

proof fn lemma_pow2_125()
    ensures
        pow2(125) == 0x2000_0000_0000_0000_0000_0000_0000_0000,
{
    lemma2_to64();
    lemma2_to64_rest();
    lemma_pow2_adds(64, 61);
    assert(pow2(125) == 0x2000_0000_0000_0000_0000_0000_0000_0000) by (nonlinear_arith)
        requires
            pow2(61) == 0x2000_0000_0000_0000,
            pow2(64) == 0x1_0000_0000_0000_0000,
            pow2(64) * pow2(61) == pow2(125),
    ;
}

/// Moving `k` doublings from the number to its exponent changes nothing while the
/// significand keeps its bits.
proof fn lemma_shift_up(num: nat, den: nat, exp: int, k: nat)
    requires
        den > 0,
        num >= two52() * (den * pow2(k)),
    ensures
        nearest(num, den, exp) == nearest(num, den * pow2(k), exp + k),
    decreases k,
{
    lemma2_to64();
    if k == 0 {
        assert(den * pow2(0) == den);
    } else {
        lemma_pow2_unfold(k);
        lemma_pow2_pos((k - 1) as nat);
        let p = pow2((k - 1) as nat);
        assert(den * (2 * p) == (2 * den) * p && den * (2 * p) >= 2 * den) by (nonlinear_arith)
            requires
                p >= 1,
        ;
        lemma_nearest_step(num, den, exp);
        lemma_shift_up(num, 2 * den, exp + 1, (k - 1) as nat);
    }
}

/// A bound on the number bounds the exponent of the double nearest to it.
pub proof fn lemma_magnitude(num: nat, den: nat, exp: int, bits: nat)
    requires
        den > 0,
        num < den * pow2(bits),
        exp + bits <= 900,
    ensures
        nearest(num, den, exp) matches Double::Finite { mant, exp: e } && e >= MIN_EXP && (e <= exp
            + bits - 52 || e == MIN_EXP),
    decreases
            (if exp < MIN_EXP {
                MIN_EXP - exp
            } else {
                0
            }),
            (if num >= two53() * den {
                num - two52() * den
            } else if num < two52() * den {
                exp - MIN_EXP
            } else {
                0
            }),
{
    lemma_nearest_step(num, den, exp);
    lemma2_to64();
    lemma2_to64_rest();
    if num >= two52() * den && bits <= 52 {
        lemma_pow2_at_most(bits, 52);
        assert(den * pow2(bits) <= two52() * den) by (nonlinear_arith)
            requires
                pow2(bits) <= 0x10_0000_0000_0000,
        ;
    }
    if num >= two53() * den && bits <= 53 {
        lemma_pow2_at_most(bits, 53);
        assert(den * pow2(bits) <= two53() * den) by (nonlinear_arith)
            requires
                pow2(bits) <= 0x20_0000_0000_0000,
        ;
    }
    if too_large(num, den, exp) {
        if bits == 0 {
            assert(pow2(0) == 1);
            assert(den * pow2(0) == den && (2 * den) * pow2(0) == 2 * den) by (nonlinear_arith)
                requires
                    pow2(0) == 1,
            ;
            lemma_magnitude(num, 2 * den, exp + 1, 0);
        } else {
            lemma_pow2_unfold(bits);
            let p = pow2((bits - 1) as nat);
            assert(den * (2 * p) == (2 * den) * p) by (nonlinear_arith);
            lemma_magnitude(num, 2 * den, exp + 1, (bits - 1) as nat);
        }
    } else if too_small(num, den, exp) {
        lemma_pow2_unfold(bits + 1);
        let p = pow2(bits);
        assert(den * (2 * p) == 2 * (den * p)) by (nonlinear_arith);
        lemma_magnitude(2 * num, den, exp - 1, bits + 1);
    } else {
        assert(half_even(num, den) <= two53()) by {
            lemma_whole(num, den);
        }
        if num < two52() * den {
            assert(half_even(num, den) <= two52()) by {
                lemma_whole(num, den);
            }
        }
    }
}

impl Double {
    /// The number zero.
    pub fn zero_value() -> (r: Double)
        ensures
            r == zero(),
            r.valid(),
    {
        Double::Finite { mant: 0, exp: MIN_EXP }
    }

    /// The double nearest to an integer.
    pub fn from_u64(n: u64) -> (r: Double)
        ensures
            r == nearest(n as nat, 1, 0),
            r.valid(),
            r matches Double::Finite { mant, exp } && exp <= 12,
    {
        proof {
            lemma2_to64();
            lemma_magnitude(n as nat, 1, 0, 64);
        }
        round(n as u128, 1, 0)
    }

    /// The double nearest to a fraction.
    pub fn from_ratio(num: u64, den: u64) -> (r: Double)
        requires
            den > 0,
        ensures
            r == nearest(num as nat, den as nat, 0),
            r.valid(),
            r matches Double::Finite { mant, exp } && exp <= 12,
    {
        proof {
            lemma2_to64();
            assert(den * pow2(64) >= pow2(64)) by (nonlinear_arith)
                requires
                    den >= 1,
            ;
            lemma_magnitude(num as nat, den as nat, 0, 64);
        }
        round(num as u128, den as u128, 0)
    }

    /// Multiplies.
    pub fn times(self, other: Double) -> (r: Double)
        requires
            self.valid(),
            other.valid(),
        ensures
            r == self.spec_mul(other),
            r.valid(),
    {
        match (self, other) {
            (Double::Nan, _) => Double::Nan,
            (_, Double::Nan) => Double::Nan,
            (Double::Infinite, Double::Finite { mant, exp }) => if mant == 0 {
                Double::Nan
            } else {
                Double::Infinite
            },
            (Double::Infinite, Double::Infinite) => Double::Infinite,
            (Double::Finite { mant, exp }, Double::Infinite) => if mant == 0 {
                Double::Nan
            } else {
                Double::Infinite
            },
            (Double::Finite { mant: m1, exp: e1 }, Double::Finite { mant: m2, exp: e2 }) => {
                assert(m1 * m2 < 0x100_0000_0000_0000_0000_0000_0000_0000) by (nonlinear_arith)
                    requires
                        m1 < 0x20_0000_0000_0000,
                        m2 < 0x20_0000_0000_0000,
                ;
                round(m1 as u128 * m2 as u128, 1, e1 + e2)
            },
        }
    }

    /// Divides.
    pub fn over(self, other: Double) -> (r: Double)
        requires
            self.valid(),
            other.valid(),
        ensures
            r == self.spec_div(other),
            r.valid(),
    {
        match (self, other) {
            (Double::Nan, _) => Double::Nan,
            (_, Double::Nan) => Double::Nan,
            (Double::Infinite, Double::Infinite) => Double::Nan,
            (Double::Infinite, Double::Finite { .. }) => Double::Infinite,
            (Double::Finite { .. }, Double::Infinite) => Double::Finite { mant: 0, exp: MIN_EXP },
            (Double::Finite { mant: m1, exp: e1 }, Double::Finite { mant: m2, exp: e2 }) => if m2
                == 0 {
                if m1 == 0 {
                    Double::Nan
                } else {
                    Double::Infinite
                }
            } else {
                round(m1 as u128, m2 as u128, e1 - e2)
            },
        }
    }
}

/// A number more than 64 binary places below another leaves it as it is.
proof fn lemma_absorbed(m1: nat, m2: nat, e1: int, e2: int)
    requires
        two52() <= m1 < two53(),
        m2 < two53(),
        e1 - e2 > 64,
        MIN_EXP <= e1 <= MAX_EXP,
    ensures
        nearest(m1 * pow2((e1 - e2) as nat) + m2, 1, e2) == (Double::Finite {
            mant: m1 as u64,
            exp: e1 as i32,
        }),
{
    let k = (e1 - e2) as nat;
    let p = pow2(k);
    lemma2_to64();
    lemma_pow2_at_most(64, k);
    let num = m1 * p + m2;
    assert(num >= two52() * (1 * p)) by (nonlinear_arith)
        requires
            num == m1 * p + m2,
            m1 >= 0x10_0000_0000_0000,
    ;
    lemma_shift_up(num, 1, e2, k);
    assert(1 * p == p);
    lemma_nearest_step(num, p, e1);
    assert(two52() * p <= num < two53() * p && num / p == m1 && num % p == m2) by (nonlinear_arith)
        requires
            num == m1 * p + m2,
            0x10_0000_0000_0000 <= m1 < 0x20_0000_0000_0000,
            m2 < p,
    ;
}

/// In normal form the number with the smaller exponent is the smaller number.
proof fn lemma_exponent_orders(m1: nat, m2: nat, e1: int, e2: int)
    requires
        m1 < two53(),
        m2 >= two52(),
        e1 < e2,
    ensures
        m1 * scale_up(e1 - e2) < m2 * scale_up(e2 - e1),
        m2 * scale_up(e2 - e1) > m1 * scale_up(e1 - e2),
{
    lemma2_to64();
    lemma_pow2_at_most(1, (e2 - e1) as nat);
    let p = pow2((e2 - e1) as nat);
    assert(m2 * p >= two53()) by (nonlinear_arith)
        requires
            m2 >= 0x10_0000_0000_0000,
            p >= 2,
    ;
}

proof fn lemma_tens_small()
    ensures
        tens(0) == 1,
        tens(1) == 10,
        tens(2) == 100,
        tens(3) == 1000,
        tens(4) == 10000,
{
    reveal_with_fuel(tens, 5);
}

/// Writes `n` in `width` digits.
fn padded_text(n: u128, width: u32) -> (text: String)
    ensures
        text@ == padded(n as nat, width as nat),
    decreases width,
{
    if width == 0 {
        let text = String::new();
        assert(text@ =~= padded(n as nat, 0));
        text
    } else {
        let mut text = padded_text(n / 10, width - 1);
        text.append(digit_text(n % 10));
        assert(text@ =~= padded((n / 10) as nat, (width - 1) as nat).push(
            digit_char((n % 10) as int),
        ));
        text
    }
}

/// Rounds `n / d` half to even.
fn round_half_even(n: u128, d: u128) -> (q: u128)
    requires
        n < 0x4000_0000_0000_0000_0000_0000_0000_0000,
        0 < d <= 0x4000_0000_0000_0000_0000_0000_0000_0000,
    ensures
        q == half_even(n as nat, d as nat),
{
    let q: u128 = n / d;
    let r: u128 = n % d;
    proof {
        lemma_quotient_at_least(n as nat, d as nat, 0);
        assert(n / d <= n) by (nonlinear_arith)
            requires
                d >= 1,
        ;
    }
    if 2 * r > d || (2 * r == d && q % 2 == 1) {
        q + 1
    } else {
        q
    }
}

/// Writes a number too large to have a fraction with `places` zeros behind the decimal
/// point.
fn large_fixed(mant: u64, exp: i32, places: u32) -> (text: String)
    requires
        mant > 0,
        exp > 0,
        places <= 4,
    ensures
        text@ == (Double::Finite { mant, exp }).fixed_text(places as nat),
{
    let mut text = scaled_text(mant, exp as u32);
    proof {
        lemma_tens_small();
        let p = pow2(exp as nat);
        let t = tens(places as nat);
        let units = (Double::Finite { mant, exp }).units(places as nat);
        let n = mant as nat * t * p;
        assert(n as int / 1 == n && n as int % 1 == 0);
        assert(units == n);
        assert(n == (mant as nat * p) * t) by (nonlinear_arith)
            requires
                n == mant as nat * t * p,
        ;
        assert(n / t == mant as nat * p && n % t == 0) by (nonlinear_arith)
            requires
                n == (mant as nat * p) * t,
                t > 0,
        ;
    }
    if places > 0 {
        proof {
            reveal_strlit(".");
        }
        text.append(".");
        let zeros = padded_text(0, places);
        text.append(zeros.as_str());
        assert(text@ =~= (Double::Finite { mant, exp }).fixed_text(places as nat));
    }
    text
}

impl Double {
    /// Adds.
    pub fn plus(self, other: Double) -> (r: Double)
        requires
            self.valid(),
            other.valid(),
        ensures
            r == self.spec_add(other),
            r.valid(),
    {
        match (self, other) {
            (Double::Nan, _) => Double::Nan,
            (_, Double::Nan) => Double::Nan,
            (Double::Infinite, _) => Double::Infinite,
            (_, Double::Infinite) => Double::Infinite,
            (Double::Finite { mant: m1, exp: e1 }, Double::Finite { mant: m2, exp: e2 }) => {
                if e1 >= e2 {
                    sum_of(m1, e1, m2, e2)
                } else {
                    let r = sum_of(m2, e2, m1, e1);
                    assert(m1 * scale_up(e1 - e2) + m2 * scale_up(e2 - e1) == m2 * scale_up(e2 - e1)
                        + m1);
                    r
                }
            },
        }
    }

    /// Whether `self` is smaller than `other`.
    pub fn is_below(self, other: Double) -> (r: bool)
        requires
            self.valid(),
            other.valid(),
        ensures
            r == self.below(other),
    {
        match (self, other) {
            (Double::Finite { mant: m1, exp: e1 }, Double::Finite { mant: m2, exp: e2 }) => {
                if e1 < e2 {
                    proof {
                        lemma_exponent_orders(m1 as nat, m2 as nat, e1 as int, e2 as int);
                    }
                    true
                } else if e2 < e1 {
                    proof {
                        lemma_exponent_orders(m2 as nat, m1 as nat, e2 as int, e1 as int);
                    }
                    false
                } else {
                    assert(m1 * scale_up(0) == m1 && m2 * scale_up(0) == m2) by (nonlinear_arith)
                        requires
                            scale_up(0) == 1,
                    ;
                    m1 < m2
                }
            },
            (Double::Finite { .. }, Double::Infinite) => true,
            _ => false,
        }
    }

    /// The larger of two numbers.
    pub fn max_of(self, other: Double) -> (r: Double)
        requires
            self.valid(),
            other.valid(),
        ensures
            r == self.larger(other),
            r.valid(),
    {
        let nan = match self {
            Double::Nan => true,
            _ => false,
        };
        if nan || self.is_below(other) {
            other
        } else {
            self
        }
    }

    /// The number in units of `10^-places`.
    fn units_of(self, places: u32) -> (n: u128)
        requires
            self.valid(),
            places <= 4,
            self matches Double::Finite { mant, exp } ==> exp <= 40,
        ensures
            n == self.units(places as nat),
    {
        match self {
            Double::Finite { mant, exp } => {
                proof {
                    lemma_tens_small();
                    lemma2_to64();
                    lemma2_to64_rest();
                }
                let unit: u128 = match places {
                    0 => 1,
                    1 => 10,
                    2 => 100,
                    3 => 1000,
                    _ => 10000,
                };
                assert(mant * unit < 0x8_0000_0000_0000_0000) by (nonlinear_arith)
                    requires
                        mant < 0x20_0000_0000_0000,
                        unit <= 10000,
                ;
                let n: u128 = mant as u128 * unit;
                if exp >= 0 {
                    let p = power_of_two(exp as u32);
                    proof {
                        lemma_pow2_at_most(exp as nat, 40);
                        assert(n * p < 0x4000_0000_0000_0000_0000_0000_0000_0000) by (nonlinear_arith)
                            requires
                                n < 0x8_0000_0000_0000_0000,
                                p <= 0x100_0000_0000,
                        ;
                        assert(exp == 0 ==> n * p == n) by (nonlinear_arith)
                            requires
                                exp == 0 ==> p == 1,
                        ;
                    }
                    round_half_even(n * p, 1)
                } else if exp < -126 {
                    proof {
                        lemma_pow2_at_most(126, (-exp) as nat);
                        lemma_pow2_125();
                        lemma_pow2_unfold(126);
                        let d = pow2((-exp) as nat);
                        let m = n as nat * 1;
                        assert(m / d == 0 && m % d == m) by (nonlinear_arith)
                            requires
                                m < d,
                        ;
                    }
                    0
                } else {
                    let d = power_of_two((-exp) as u32);
                    round_half_even(n, d)
                }
            },
            _ => 0,
        }
    }

    /// Writes the number with `places` digits behind the decimal point.
    pub fn fixed(self, places: u32) -> (text: String)
        requires
            self.valid(),
            places <= 4,
        ensures
            text@ == self.fixed_text(places as nat),
    {
        match self {
            Double::Finite { mant, exp } => {
                if exp > 40 {
                    return large_fixed(mant, exp, places);
                }
                let n = self.units_of(places);
                if places == 0 {
                    return decimal_text(n);
                }
                proof {
                    lemma_tens_small();
                    reveal_strlit(".");
                }
                let unit: u128 = match places {
                    1 => 10,
                    2 => 100,
                    3 => 1000,
                    _ => 10000,
                };
                let mut text = decimal_text(n / unit);
                text.append(".");
                let rest = padded_text(n % unit, places);
                text.append(rest.as_str());
                assert(text@ =~= point_text(n as nat, places as nat));
                text
            },
            Double::Infinite => "inf".to_owned(),
            Double::Nan => "NaN".to_owned(),
        }
    }

    /// The nearest integer, ties away from zero.
    fn rounded(self) -> (n: u64)
        requires
            self.valid(),
            self matches Double::Finite { mant, exp } ==> exp <= 0,
        ensures
            n == self.whole(),
            n <= 0x20_0000_0000_0000,
    {
        match self {
            Double::Finite { mant, exp } => {
                if exp < -100 {
                    proof {
                        lemma2_to64();
                        lemma_pow2_at_most(64, (-exp) as nat);
                        let d = pow2((-exp) as nat);
                        assert(mant as nat * 1 == mant);
                        assert((2 * mant + d) / (2 * d as int) == 0) by (nonlinear_arith)
                            requires
                                2 * mant < d,
                        ;
                    }
                    0
                } else {
                    let d = power_of_two((-exp) as u32);
                    proof {
                        lemma2_to64();
                        lemma_pow2_at_most((-exp) as nat, 100);
                        lemma_pow2_at_most(100, 125);
                        lemma_pow2_125();
                        assert((2 * mant + d) / (2 * d as int) <= 0x20_0000_0000_0000)
                            by (nonlinear_arith)
                            requires
                                mant < 0x20_0000_0000_0000,
                                d >= 1,
                        ;
                    }
                    ((2 * mant as u128 + d) / (2 * d)) as u64
                }
            },
            _ => 0,
        }
    }

    /// The number rounded to an integer, ties away from zero.
    pub fn round_off(self) -> (r: Double)
        requires
            self.valid(),
        ensures
            r == self.rounded_off(),
            r.valid(),
    {
        match self {
            Double::Finite { mant, exp } => if exp < 0 {
                Double::from_u64(self.rounded())
            } else {
                self
            },
            other => other,
        }
    }

    /// The bits of the binary64 encoding.
    pub fn to_bits(self) -> (bits: u64)
        requires
            self.valid(),
        ensures
            bits == self.bits(),
    {
        match self {
            Double::Finite { mant, exp } => {
                assert((exp - MIN_EXP) * two52() + mant < 0x7ff0_0000_0000_0000) by (nonlinear_arith)
                    requires
                        mant < 0x20_0000_0000_0000,
                        -1074 <= exp <= 971,
                        MIN_EXP == -1074,
                ;
                (exp - MIN_EXP) as u64 * HIDDEN + mant
            },
            Double::Infinite => 0x7ff0_0000_0000_0000,
            Double::Nan => 0x7ff8_0000_0000_0000,
        }
    }

    /// Reads the bits of a binary64 encoding whose sign bit is clear.
    pub fn from_bits(bits: u64) -> (r: Option<Double>)
        ensures
            r == Double::of_bits(bits),
            r matches Some(d) ==> d.valid(),
    {
        if bits >= 0x8000_0000_0000_0000 {
            None
        } else if bits > 0x7ff0_0000_0000_0000 {
            Some(Double::Nan)
        } else if bits == 0x7ff0_0000_0000_0000 {
            Some(Double::Infinite)
        } else if bits < 2 * HIDDEN {
            Some(Double::Finite { mant: bits, exp: MIN_EXP })
        } else {
            Some(
                Double::Finite {
                    mant: bits % HIDDEN + HIDDEN,
                    exp: MIN_EXP + (bits / HIDDEN) as i32 - 1,
                },
            )
        }
    }
}

/// Adds two finite numbers, the one with the larger exponent first.
fn sum_of(m1: u64, e1: i32, m2: u64, e2: i32) -> (r: Double)
    requires
        (Double::Finite { mant: m1, exp: e1 }).valid(),
        (Double::Finite { mant: m2, exp: e2 }).valid(),
        e1 >= e2,
    ensures
        r == nearest((m1 * scale_up(e1 - e2) + m2) as nat, 1, e2 as int),
        r.valid(),
{
    let d: i32 = e1 - e2;
    if d > 64 {
        proof {
            lemma_absorbed(m1 as nat, m2 as nat, e1 as int, e2 as int);
        }
        Double::Finite { mant: m1, exp: e1 }
    } else {
        let p = power_of_two(d as u32);
        proof {
            lemma2_to64();
            lemma_pow2_at_most(d as nat, 64);
            assert(m1 * p + m2 < 0x100_0000_0000_0000_0000_0000_0000_0000) by (nonlinear_arith)
                requires
                    m1 < 0x20_0000_0000_0000,
                    m2 < 0x20_0000_0000_0000,
                    p <= 0x1_0000_0000_0000_0000,
            ;
        }
        round(m1 as u128 * p + m2 as u128, 1, e2)
    }
}

/// Reading back the bits of a double gives that double.
pub proof fn bits_round_trip(d: Double)
    requires
        d.valid(),
    ensures
        Double::of_bits(d.bits()) == Some(d),
{
    if let Double::Finite { mant, exp } = d {
        let n: int = (exp - MIN_EXP) * two52() + mant;
        assert(0 <= n < 0x7ff0_0000_0000_0000) by (nonlinear_arith)
            requires
                n == (exp - MIN_EXP) * 0x10_0000_0000_0000 + mant,
                mant < 0x20_0000_0000_0000,
                -1074 <= exp <= 971,
                MIN_EXP == -1074,
        ;
    }
}

/// Doubles that are numbers are ordered as their bits are.
pub proof fn order_is_that_of_bits(a: Double, b: Double)
    requires
        a.valid(),
        b.valid(),
        a != Double::Nan,
        b != Double::Nan,
    ensures
        a.below(b) <==> a.bits() < b.bits(),
{
    match (a, b) {
        (Double::Finite { mant: m1, exp: e1 }, Double::Finite { mant: m2, exp: e2 }) => {
            if e1 < e2 {
                lemma_exponent_orders(m1 as nat, m2 as nat, e1 as int, e2 as int);
            } else if e2 < e1 {
                lemma_exponent_orders(m2 as nat, m1 as nat, e2 as int, e1 as int);
            } else {
                assert(m1 * scale_up(0) == m1 && m2 * scale_up(0) == m2) by (nonlinear_arith)
                    requires
                        scale_up(0) == 1,
                ;
            }
        },
        _ => {},
    }
}

/// The larger of two numbers is one of them, and below neither.
pub proof fn larger_is_below_neither(a: Double, b: Double)
    requires
        a.valid(),
        b.valid(),
        a != Double::Nan,
        b != Double::Nan,
    ensures
        a.larger(b) == a || a.larger(b) == b,
        !a.larger(b).below(a),
        !a.larger(b).below(b),
{
    order_is_that_of_bits(a, b);
    order_is_that_of_bits(b, a);
    order_is_that_of_bits(a, a);
    order_is_that_of_bits(b, b);
}

/// A double with its sign.
#[derive(Clone, Copy, PartialEq, Eq, Structural, Debug)]
pub struct Signed {
    pub negative: bool,
    pub size: Double,
}

impl Signed {
    pub open spec fn valid(self) -> bool {
        self.size.valid()
    }

    /// The bits of the binary64 encoding.
    pub open spec fn bits(self) -> u64 {
        if self.negative {
            (self.size.bits() + 0x8000_0000_0000_0000) as u64
        } else {
            self.size.bits()
        }
    }

    /// The number that binary64 bits encode.
    pub open spec fn of_bits(bits: u64) -> Signed {
        Signed {
            negative: bits >= 0x8000_0000_0000_0000,
            size: Double::of_bits((bits as nat % 0x8000_0000_0000_0000) as u64)->0,
        }
    }

    /// The number with `places` digits behind the decimal point.
    pub open spec fn fixed_text(self, places: nat) -> Seq<char> {
        if self.negative && self.size != Double::Nan {
            "-"@ + self.size.fixed_text(places)
        } else {
            self.size.fixed_text(places)
        }
    }

    /// A number that is not negative.
    pub fn positive(size: Double) -> (r: Signed)
        ensures
            r == (Signed { negative: false, size }),
    {
        Signed { negative: false, size }
    }

    /// The bits of the binary64 encoding.
    pub fn to_bits(self) -> (bits: u64)
        requires
            self.valid(),
        ensures
            bits == self.bits(),
            Signed::of_bits(bits) == self,
    {
        proof {
            bits_round_trip(self.size);
        }
        let bits: u64 = self.size.to_bits();
        if self.negative {
            bits + 0x8000_0000_0000_0000
        } else {
            bits
        }
    }

    /// Reads the bits of a binary64 encoding.
    pub fn from_bits(bits: u64) -> (r: Signed)
        ensures
            r == Signed::of_bits(bits),
            r.valid(),
    {
        let rest: u64 = bits % 0x8000_0000_0000_0000;
        match Double::from_bits(rest) {
            Some(size) => Signed { negative: bits >= 0x8000_0000_0000_0000, size },
            None => Signed { negative: false, size: Double::Nan },
        }
    }

    /// Writes the number with `places` digits behind the decimal point.
    pub fn fixed(self, places: u32) -> (text: String)
        requires
            self.valid(),
            places <= 4,
        ensures
            text@ == self.fixed_text(places as nat),
    {
        let size = self.size.fixed(places);
        let nan = match self.size {
            Double::Nan => true,
            _ => false,
        };
        if self.negative && !nan {
            let mut text = "-".to_owned();
            text.append(size.as_str());
            text
        } else {
            size
        }
    }
}

/// The place of a number among all doubles: the bits as a number.
spec fn rank(d: Double) -> int {
    match d {
        Double::Finite { mant, exp } => (exp - MIN_EXP) * two52() + mant,
        Double::Infinite => 0x7ff0_0000_0000_0000,
        Double::Nan => 0x7ff8_0000_0000_0000,
    }
}

/// A fraction in other terms is the same number.
proof fn lemma_same_fraction(num: nat, den: nat, exp: int)
    requires
        den > 0,
    ensures
        nearest(2 * num, 2 * den, exp) == nearest(num, den, exp),
    decreases
            (if exp < MIN_EXP {
                MIN_EXP - exp
            } else {
                0
            }),
            (if num >= two53() * den {
                num - two52() * den
            } else if num < two52() * den {
                exp - MIN_EXP
            } else {
                0
            }),
{
    lemma_nearest_step(num, den, exp);
    lemma_nearest_step(2 * num, 2 * den, exp);
    if too_large(num, den, exp) {
        lemma_same_fraction(num, 2 * den, exp + 1);
    } else if too_small(num, den, exp) {
        lemma_same_fraction(2 * num, den, exp - 1);
    } else {
        assert((2 * num) / (2 * den) == num / den && (2 * num) % (2 * den) == 2 * (num % den))
            by (nonlinear_arith)
            requires
                den > 0,
        ;
    }
}

/// Doubling the number and taking one from its exponent changes nothing.
proof fn lemma_one_doubling(num: nat, den: nat, exp: int)
    requires
        den > 0,
    ensures
        nearest(2 * num, den, exp - 1) == nearest(num, den, exp),
{
    lemma_nearest_step(num, den, exp);
    lemma_nearest_step(2 * num, den, exp - 1);
    if too_large(2 * num, den, exp - 1) {
        lemma_same_fraction(num, den, exp);
    }
}

proof fn lemma_doublings(num: nat, den: nat, exp: int, k: nat)
    requires
        den > 0,
    ensures
        nearest(num * pow2(k), den, exp - k) == nearest(num, den, exp),
    decreases k,
{
    if k == 0 {
        lemma2_to64();
        assert(num * pow2(0) == num) by (nonlinear_arith)
            requires
                pow2(0) == 1,
        ;
    } else {
        let p = pow2((k - 1) as nat);
        lemma_pow2_unfold(k);
        lemma_doublings(num, den, exp, (k - 1) as nat);
        assert(num * (2 * p) == 2 * (num * p)) by (nonlinear_arith);
        lemma_one_doubling(num * p, den, exp - k + 1);
    }
}

proof fn lemma_half_even_grows(n1: nat, n2: nat, d: nat)
    requires
        d > 0,
        n1 <= n2,
    ensures
        half_even(n1, d) <= half_even(n2, d),
{
    let (q1, r1) = (n1 / d, n1 % d);
    let (q2, r2) = (n2 / d, n2 % d);
    assert(n1 == d * q1 + r1 && n2 == d * q2 + r2 && r1 < d && r2 < d) by (nonlinear_arith)
        requires
            d > 0,
            q1 == n1 / d,
            r1 == n1 % d,
            q2 == n2 / d,
            r2 == n2 % d,
    ;
    assert(q1 <= q2) by (nonlinear_arith)
        requires
            d > 0,
            n1 <= n2,
            q1 == n1 / d,
            q2 == n2 / d,
    ;
    if q1 == q2 {
        assert(r1 <= r2) by (nonlinear_arith)
            requires
                n1 <= n2,
                n1 == d * q1 + r1,
                n2 == d * q2 + r2,
                q1 == q2,
        ;
    }
}

/// A rounded significand and its exponent give a double in the place that they say.
proof fn lemma_carried_rank(mant: nat, exp: int)
    requires
        exp >= MIN_EXP,
        mant <= two53(),
        mant >= two52() || exp == MIN_EXP,
    ensures
        carried(mant, exp).valid(),
        carried(mant, exp) != Double::Nan,
        exp <= MAX_EXP ==> rank(carried(mant, exp)) == (exp - MIN_EXP) * two52() + mant,
        exp > MAX_EXP ==> carried(mant, exp) == Double::Infinite,
{
}

/// Where a number of no more than 53 bits lands.
proof fn lemma_rank_at_most(num: nat, den: nat, exp: int)
    requires
        den > 0,
        exp >= MIN_EXP,
        num < two53() * den,
    ensures
        nearest(num, den, exp).valid(),
        nearest(num, den, exp) != Double::Nan,
        rank(nearest(num, den, exp)) <= (exp - MIN_EXP) * two52() + two53(),
        rank(nearest(num, den, exp)) >= 0,
    decreases exp - MIN_EXP,
{
    lemma_nearest_step(num, den, exp);
    if too_small(num, den, exp) {
        lemma_rank_at_most(2 * num, den, exp - 1);
    } else {
        lemma_whole(num, den);
        lemma_carried_rank(half_even(num, den), exp);
    }
}

/// A larger number, on the same scale, gives no smaller double.
proof fn lemma_nearest_grows(n1: nat, n2: nat, den: nat, exp: int)
    requires
        den > 0,
        n1 <= n2,
    ensures
        nearest(n1, den, exp).valid(),
        nearest(n2, den, exp).valid(),
        nearest(n1, den, exp) != Double::Nan,
        nearest(n2, den, exp) != Double::Nan,
        rank(nearest(n1, den, exp)) <= rank(nearest(n2, den, exp)),
    decreases
            (if exp < MIN_EXP {
                MIN_EXP - exp
            } else {
                0
            }),
            (if n2 >= two53() * den {
                n2 - two52() * den
            } else if n2 < two52() * den {
                exp - MIN_EXP
            } else {
                0
            }),
{
    lemma_nearest_step(n1, den, exp);
    lemma_nearest_step(n2, den, exp);
    if too_large(n2, den, exp) {
        if !too_large(n1, den, exp) {
            lemma_one_doubling(n1, 2 * den, exp + 1);
            lemma_same_fraction(n1, den, exp);
        }
        lemma_nearest_grows(n1, n2, 2 * den, exp + 1);
    } else if too_small(n2, den, exp) {
        lemma_nearest_grows(2 * n1, 2 * n2, den, exp - 1);
    } else {
        lemma_whole(n2, den);
        lemma_carried_rank(half_even(n2, den), exp);
        if too_small(n1, den, exp) {
            lemma_rank_at_most(2 * n1, den, exp - 1);
        } else {
            lemma_whole(n1, den);
            lemma_carried_rank(half_even(n1, den), exp);
            lemma_half_even_grows(n1, n2, den);
        }
    }
}

/// A larger numerator gives no smaller double.
pub proof fn fractions_keep_order(n1: nat, n2: nat, den: nat)
    requires
        den > 0,
        n1 <= n2,
    ensures
        nearest(n1, den, 0).valid(),
        nearest(n2, den, 0).valid(),
        nearest(n1, den, 0) != Double::Nan,
        nearest(n2, den, 0) != Double::Nan,
        !nearest(n2, den, 0).below(nearest(n1, den, 0)),
{
    lemma_nearest_grows(n1, n2, den, 0);
    lemma_ranks_order(nearest(n2, den, 0), nearest(n1, den, 0));
}

proof fn lemma_ranks_order(a: Double, b: Double)
    requires
        a.valid(),
        b.valid(),
        a != Double::Nan,
        b != Double::Nan,
    ensures
        a.below(b) <==> rank(a) < rank(b),
{
    order_is_that_of_bits(a, b);
}

/// The double nearest to a number is one.
pub proof fn nearest_is_valid(num: nat, den: nat, exp: int)
    requires
        den > 0,
    ensures
        nearest(num, den, exp).valid(),
{
    lemma_nearest_grows(num, num, den, exp);
}

/// Two numbers on a common scale, the smaller first.
proof fn lemma_common_scale(a: Double, b: Double)
    requires
        a is Finite,
        b is Finite,
        !b.below(a),
    ensures
        a->mant * scale_up(a->exp - b->exp) <= b->mant * scale_up(b->exp - a->exp),
{
}

/// Moving the exponent up to `exp` by doublings of the number changes nothing.
pub proof fn lemma_lowered(num: nat, den: nat, exp: int, low: int)
    requires
        den > 0,
        low <= exp,
    ensures
        nearest(num * scale_up(exp - low), den, low) == nearest(num, den, exp),
{
    if exp > low {
        lemma_doublings(num, den, exp, (exp - low) as nat);
    } else {
        assert(num * scale_up(0) == num) by (nonlinear_arith)
            requires
                scale_up(0) == 1,
        ;
    }
}

/// Dividing by the same number keeps the order.
pub proof fn quotients_keep_order(a: Double, b: Double, c: Double)
    requires
        a.valid(),
        b.valid(),
        c.valid(),
        a is Finite,
        b is Finite,
        c is Finite,
        c->mant > 0,
        !b.below(a),
    ensures
        !b.spec_div(c).below(a.spec_div(c)),
{
    let (m1, e1) = (a->mant as nat, a->exp as int);
    let (m2, e2) = (b->mant as nat, b->exp as int);
    let (d, ed) = (c->mant as nat, c->exp as int);
    let low = if e1 < e2 {
        e1
    } else {
        e2
    };
    lemma_common_scale(a, b);
    assert(scale_up(e1 - low) == scale_up(e1 - e2) && scale_up(e2 - low) == scale_up(e2 - e1));
    lemma_lowered(m1, d, e1 - ed, low - ed);
    lemma_lowered(m2, d, e2 - ed, low - ed);
    lemma_nearest_grows(m1 * scale_up(e1 - low), m2 * scale_up(e2 - low), d, low - ed);
    lemma_ranks_order(b.spec_div(c), a.spec_div(c));
}

/// Multiplying by the same number keeps the order.
pub proof fn products_keep_order(a: Double, b: Double, c: Double)
    requires
        a.valid(),
        b.valid(),
        c.valid(),
        a is Finite,
        b is Finite,
        c is Finite,
        !b.below(a),
    ensures
        !b.spec_mul(c).below(a.spec_mul(c)),
{
    let (m1, e1) = (a->mant as nat, a->exp as int);
    let (m2, e2) = (b->mant as nat, b->exp as int);
    let (f, ef) = (c->mant as nat, c->exp as int);
    let low = if e1 < e2 {
        e1
    } else {
        e2
    };
    lemma_common_scale(a, b);
    let (s1, s2) = (scale_up(e1 - low), scale_up(e2 - low));
    assert(s1 == scale_up(e1 - e2) && s2 == scale_up(e2 - e1));
    lemma_lowered(m1 * f, 1, e1 + ef, low + ef);
    lemma_lowered(m2 * f, 1, e2 + ef, low + ef);
    assert(m1 * f * s1 <= m2 * f * s2) by (nonlinear_arith)
        requires
            m1 * s1 <= m2 * s2,
    ;
    lemma_nearest_grows(m1 * f * s1, m2 * f * s2, 1, low + ef);
    lemma_ranks_order(b.spec_mul(c), a.spec_mul(c));
}

/// What is a sixteenth or more is above zero.
pub proof fn sixteenth_or_more(num: nat, den: nat)
    requires
        den > 0,
        16 * num >= den,
    ensures
        nearest(num, den, 0).valid(),
        nearest(num, den, 0) != zero(),
{
    lemma_doublings(num, den, 0, 57);
    lemma_pow2_adds(4, 53);
    lemma2_to64();
    lemma2_to64_rest();
    let big = num * pow2(57);
    assert(big >= two53() * den) by (nonlinear_arith)
        requires
            big == num * pow2(57),
            pow2(57) == 16 * 0x20_0000_0000_0000,
            16 * num >= den,
    ;
    lemma_nearest_grows(two52() * den, big, den, -57);
    lemma_nearest_step(two52() * den, den, -57);
    assert((two52() * den) / den == two52() && (two52() * den) % den == 0) by (nonlinear_arith)
        requires
            den > 0,
    ;
    assert(rank(nearest(two52() * den, den, -57)) > 0);
}

/// A quotient of doubles is a double.
pub proof fn quotient_is_valid(a: Double, b: Double)
    requires
        a is Finite,
        b is Finite,
        b->mant > 0,
    ensures
        a.spec_div(b).valid(),
{
    let (m, d) = (a->mant as nat, b->mant as nat);
    lemma_nearest_grows(m, m, d, a->exp - b->exp);
}

/// The product of numbers that are not large is a number.
pub proof fn small_product_is_finite(a: Double, b: Double)
    requires
        a.valid(),
        b.valid(),
        a is Finite,
        b is Finite,
        a->exp + b->exp <= 0,
    ensures
        a.spec_mul(b) is Finite,
        a.spec_mul(b).valid(),
{
    let (m1, m2) = (a->mant as nat, b->mant as nat);
    lemma2_to64();
    lemma2_to64_rest();
    lemma_pow2_adds(53, 53);
    assert(m1 * m2 < 1 * pow2(106)) by (nonlinear_arith)
        requires
            m1 < 0x20_0000_0000_0000,
            m2 < 0x20_0000_0000_0000,
            pow2(106) == 0x20_0000_0000_0000 * 0x20_0000_0000_0000,
    ;
    lemma_magnitude(m1 * m2, 1, a->exp + b->exp, 106);
    lemma_nearest_grows(m1 * m2, m1 * m2, 1, a->exp + b->exp);
}

} // verus!
