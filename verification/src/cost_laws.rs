//! What holds of costs, speeds and percentages.
use vstd::prelude::*;
use vstd::arithmetic::power2::{
    lemma2_to64, lemma2_to64_rest, lemma_pow2_adds, lemma_pow2_strictly_increases, pow2,
};
use crate::cost::{
    gigabytes_of, provider_of, rate_by_name, rate_of, to_four_places, to_two_places,
    BYTES_PER_GB,
};
use crate::double::{
    fractions_keep_order, lemma_lowered, lemma_magnitude, nearest, nearest_is_valid,
    products_keep_order, quotients_keep_order, zero, zero_from_nothing, Double, MIN_EXP,
};
use crate::job::JobView;
use crate::number_laws::{
    doubling_moves_the_exponent, one, one_changes_nothing, the_nearest_double_is_near,
    within_half,
};
use crate::progress::{rate_of_transfer, reported_throughput, seconds_of};

verus! {

/// Twice a number with a full significand.
pub open spec fn doubled(d: Double) -> Double {
    Double::Finite { mant: d->mant, exp: (d->exp + 1) as i32 }
}

/// A number that can be doubled and halved without losing a bit.
pub open spec fn roomy(d: Double) -> bool {
    d.valid() && (d matches Double::Finite { mant, exp } && mant > 0 && -800 <= exp <= 800)
}

/// The double nearest to a number that is neither very small nor very large is roomy.
proof fn lemma_roomy(num: nat, den: nat, exp: int)
    requires
        0 < den <= 0x20_0000_0000_0000,
        0 < num < 0x1_0000_0000_0000_0000_0000_0000_0000_0000,
        -600 <= exp <= 600,
    ensures
        roomy(nearest(num, den, exp)),
        nearest(num, den, exp)->exp >= exp - 107,
{
    lemma2_to64();
    lemma2_to64_rest();
    lemma_pow2_adds(64, 64);
    assert(num < den * pow2(128)) by (nonlinear_arith)
        requires
            num < pow2(128),
            den >= 1,
    ;
    lemma_magnitude(num, den, exp, 128);
    nearest_is_valid(num, den, exp);
    the_nearest_double_is_near(num, den, exp);
    let d = nearest(num, den, exp);
    let (m, e) = (d->mant as nat, d->exp as int);
    let s = exp - e;
    if s > 107 {
        lemma_pow2_adds(54, 53);
        lemma_pow2_strictly_increases(107, s as nat);
        assert(pow2(107) == 0x40_0000_0000_0000 * 0x20_0000_0000_0000);
        let p = pow2(s as nat);
        assert(m * (den * 1) == m * den) by (nonlinear_arith);
        assert(num * p > 2 * (m * den) + 2 * den) by (nonlinear_arith)
            requires
                num >= 1,
                p > 0x40_0000_0000_0000 * 0x20_0000_0000_0000,
                m < 0x20_0000_0000_0000,
                0 < den <= 0x20_0000_0000_0000,
        ;
    }
    assert(m > 0) by {
        if m == 0 {
            assert(d.valid());
            assert(e == MIN_EXP);
        }
    }
}

proof fn lemma_doubled_integer(n: nat)
    requires
        0 < n < 0x1_0000_0000_0000_0000,
    ensures
        roomy(nearest(n, 1, 0)),
        nearest(2 * n, 1, 0) == doubled(nearest(n, 1, 0)),
        -107 <= nearest(n, 1, 0)->exp <= 12,
{
    lemma_roomy(n, 1, 0);
    doubling_moves_the_exponent(n, 1, 0);
    lemma_lowered(n, 1, 1, 0);
    lemma2_to64();
    assert(n * pow2(1) == 2 * n) by (nonlinear_arith)
        requires
            pow2(1) == 2,
    ;
    lemma_magnitude(n, 1, 0, 64);
}

proof fn lemma_doubled_quotient(a: Double, b: Double)
    requires
        roomy(a),
        roomy(b),
        -300 <= a->exp <= 300,
        -250 <= b->exp <= 250,
    ensures
        roomy(a.spec_div(b)),
        doubled(a).spec_div(b) == doubled(a.spec_div(b)),
        a.spec_div(b)->exp >= a->exp - b->exp - 107,
{
    lemma_roomy(a->mant as nat, b->mant as nat, a->exp - b->exp);
    doubling_moves_the_exponent(a->mant as nat, b->mant as nat, a->exp - b->exp);
}

proof fn lemma_doubled_product(a: Double, b: Double)
    requires
        roomy(a),
        roomy(b),
        -300 <= a->exp <= 300,
        -250 <= b->exp <= 250,
    ensures
        roomy(a.spec_mul(b)),
        doubled(a).spec_mul(b) == doubled(a.spec_mul(b)),
{
    let (m1, m2) = (a->mant as nat, b->mant as nat);
    assert(0 < m1 * m2 < 0x1_0000_0000_0000_0000_0000_0000_0000_0000) by (nonlinear_arith)
        requires
            0 < m1 < 0x20_0000_0000_0000,
            0 < m2 < 0x20_0000_0000_0000,
    ;
    lemma_roomy(m1 * m2, 1, a->exp + b->exp);
    doubling_moves_the_exponent(m1 * m2, 1, a->exp + b->exp);
}

/// The prices: nine cents for a GB out of AWS, twelve out of Google Cloud, eight and seven
/// tenths out of Azure, and nothing out of any other place.
pub proof fn prices(rest: Seq<char>, other: Seq<char>, name: Seq<char>)
    requires
        other.len() < 5 || (other.take(5) != "s3://"@ && other.take(5) != "gs://"@ && other.take(5)
            != "az://"@),
        name != "aws"@ && name != "gcp"@ && name != "azure"@,
    ensures
        rate_of("s3://"@ + rest) == nearest(9, 100, 0),
        rate_of("gs://"@ + rest) == nearest(12, 100, 0),
        rate_of("az://"@ + rest) == nearest(87, 1000, 0),
        rate_of(other) == zero(),
        rate_by_name("aws"@) == nearest(9, 100, 0),
        rate_by_name("gcp"@) == nearest(12, 100, 0),
        rate_by_name("azure"@) == nearest(87, 1000, 0),
        rate_by_name(name) == zero(),
        provider_of("s3://"@ + rest) == "AWS S3"@,
        provider_of("gs://"@ + rest) == "Google Cloud Storage"@,
        provider_of("az://"@ + rest) == "Azure Blob Storage"@,
        provider_of(other) == "local"@,
        BYTES_PER_GB == 1024 * 1024 * 1024,
{
    reveal_strlit("s3://");
    reveal_strlit("gs://");
    reveal_strlit("az://");
    reveal_strlit("aws");
    reveal_strlit("gcp");
    reveal_strlit("azure");
    assert("aws"@.len() == 3 && "gcp"@.len() == 3 && "azure"@.len() == 5);
    assert("aws"@[0] == 'a' && "gcp"@[0] == 'g');
    let (s, g, z) = ("s3://"@ + rest, "gs://"@ + rest, "az://"@ + rest);
    assert(s.subrange(0, 5) =~= "s3://"@ && g.subrange(0, 5) =~= "gs://"@ && z.subrange(0, 5)
        =~= "az://"@);
    assert("s3://"@[0] == 's' && "gs://"@[0] == 'g' && "az://"@[0] == 'a');
    if other.len() >= 5 {
        assert(other.take(5) =~= other.subrange(0, 5));
    }
}

proof fn lemma_rate(src: Seq<char>)
    ensures
        rate_of(src) == zero() || (roomy(rate_of(src)) && -250 <= rate_of(src)->exp <= 250),
{
    lemma_roomy(9, 100, 0);
    lemma_roomy(12, 100, 0);
    lemma_roomy(87, 1000, 0);
    lemma2_to64();
    lemma_magnitude(9, 100, 0, 0);
    lemma_magnitude(12, 100, 0, 0);
    lemma_magnitude(87, 1000, 0, 0);
}

/// Twice the bytes out of a cloud cost twice as much, to the last bit.
pub proof fn twice_the_bytes_cost_twice(src: Seq<char>, bytes: u64)
    requires
        0 < bytes <= 0x7fff_ffff_ffff_ffff,
        rate_of(src) != zero(),
    ensures
        gigabytes_of((2 * bytes) as u64) == doubled(gigabytes_of(bytes)),
        gigabytes_of((2 * bytes) as u64).spec_mul(rate_of(src)) == doubled(
            gigabytes_of(bytes).spec_mul(rate_of(src)),
        ),
{
    lemma_doubled_integer(bytes as nat);
    lemma_doubled_integer(BYTES_PER_GB as nat);
    lemma_doubled_quotient(nearest(bytes as nat, 1, 0), nearest(BYTES_PER_GB as nat, 1, 0));
    lemma_gigabytes_exp(bytes);
    lemma_rate(src);
    lemma_doubled_product(gigabytes_of(bytes), rate_of(src));
}

proof fn lemma_gigabytes_exp(bytes: u64)
    requires
        bytes > 0,
    ensures
        -300 <= gigabytes_of(bytes)->exp <= 300,
{
    let (n, g) = (nearest(bytes as nat, 1, 0), nearest(BYTES_PER_GB as nat, 1, 0));
    lemma_doubled_integer(bytes as nat);
    lemma_doubled_integer(BYTES_PER_GB as nat);
    lemma_doubled_quotient(n, g);
    lemma2_to64();
    let (m, d) = (n->mant as nat, g->mant as nat);
    assert(m < d * pow2(64)) by (nonlinear_arith)
        requires
            m < 0x20_0000_0000_0000,
            d >= 1,
            pow2(64) == 0x1_0000_0000_0000_0000,
    ;
    lemma_magnitude(m, d, n->exp - g->exp, 64);
}

/// A GB costs the price of a GB.
pub proof fn a_gigabyte_costs_its_price(src: Seq<char>)
    ensures
        gigabytes_of(BYTES_PER_GB) == one(),
        gigabytes_of(BYTES_PER_GB).spec_mul(rate_of(src)) == rate_of(src),
{
    lemma_doubled_integer(BYTES_PER_GB as nat);
    one_changes_nothing(nearest(BYTES_PER_GB as nat, 1, 0));
    lemma_rate(src);
    one_changes_nothing(rate_of(src));
}

/// Each step of an estimate is the double nearest to the exact result of that step.
pub proof fn estimates_are_near(src: Seq<char>, bytes: u64)
    requires
        bytes > 0,
        rate_of(src) != zero(),
    ensures
        ({
            let (n, g) = (nearest(bytes as nat, 1, 0), nearest(1_073_741_824, 1, 0));
            let (gb, rate) = (gigabytes_of(bytes), rate_of(src));
            let usd = gb.spec_mul(rate);
            &&& n is Finite && g is Finite && gb is Finite && rate is Finite && usd is Finite
            &&& within_half(bytes as nat, 1, 0, n->mant as nat, n->exp as int)
            &&& within_half(
                n->mant as nat,
                g->mant as nat,
                n->exp - g->exp,
                gb->mant as nat,
                gb->exp as int,
            )
            &&& within_half(
                (gb->mant * rate->mant) as nat,
                1,
                gb->exp + rate->exp,
                usd->mant as nat,
                usd->exp as int,
            )
        }),
{
    lemma_doubled_integer(bytes as nat);
    lemma_doubled_integer(BYTES_PER_GB as nat);
    let (n, g) = (nearest(bytes as nat, 1, 0), nearest(BYTES_PER_GB as nat, 1, 0));
    lemma_doubled_quotient(n, g);
    lemma_gigabytes_exp(bytes);
    lemma_rate(src);
    let (gb, rate) = (gigabytes_of(bytes), rate_of(src));
    lemma_doubled_product(gb, rate);
    the_nearest_double_is_near(bytes as nat, 1, 0);
    the_nearest_double_is_near(n->mant as nat, g->mant as nat, n->exp - g->exp);
    the_nearest_double_is_near((gb->mant * rate->mant) as nat, 1, gb->exp + rate->exp);
}

/// Amounts are shown in ten-thousandths and hundredths: shifted, rounded to an integer, and
/// shifted back.
pub proof fn amounts_are_rounded(d: Double)
    ensures
        to_four_places(d) == d.spec_mul(nearest(10_000, 1, 0)).rounded_off().spec_div(
            nearest(10_000, 1, 0),
        ),
        to_two_places(d) == d.spec_mul(nearest(100, 1, 0)).rounded_off().spec_div(
            nearest(100, 1, 0),
        ),
        to_four_places(Double::Nan) == Double::Nan,
        to_two_places(Double::Nan) == Double::Nan,
{
}

/// A job is all done at 100 percent, and at 0 with nothing; more bytes are never a smaller
/// part, and twice the bytes are twice the part. A job of no known size has no percentage,
/// and one of size zero is done.
pub proof fn percentages(job: JobView, more: u64, total: u64)
    requires
        job.bytes_total == Some(total),
        0 < total,
        job.bytes_transferred <= more,
    ensures
        (JobView { bytes_total: None, ..job }).percent() is None,
        (JobView { bytes_total: Some(0), ..job }).percent() == Some(nearest(100, 1, 0)),
        (JobView { bytes_transferred: total, ..job }).percent() == Some(nearest(100, 1, 0)),
        (JobView { bytes_transferred: 0, ..job }).percent() == Some(zero()),
        job.percent() matches Some(p) && (JobView { bytes_transferred: more, ..job }).percent()
            matches Some(q) && !q.below(p),
        0 < job.bytes_transferred <= 0x7fff_ffff_ffff_ffff ==> (JobView {
            bytes_transferred: (2 * job.bytes_transferred) as u64,
            ..job
        }).percent() == Some(doubled(job.percent()->0)),
{
    let t = nearest(total as nat, 1, 0);
    let hundred = nearest(100, 1, 0);
    lemma_doubled_integer(total as nat);
    lemma_doubled_integer(100);
    one_changes_nothing(t);
    one_changes_nothing(hundred);
    zero_from_nothing(1, 0);
    zero_from_nothing(t->mant as nat, zero()->exp - t->exp);
    assert((0 * hundred->mant) as nat == 0) by (nonlinear_arith);
    zero_from_nothing(1, zero()->exp + hundred->exp);
    let b = job.bytes_transferred;
    lemma2_to64();
    fractions_keep_order(b as nat, more as nat, 1);
    lemma_magnitude(b as nat, 1, 0, 64);
    lemma_magnitude(more as nat, 1, 0, 64);
    let (n1, n2) = (nearest(b as nat, 1, 0), nearest(more as nat, 1, 0));
    quotients_keep_order(n1, n2, t);
    lemma_quotient_finite(b as nat, total as nat);
    lemma_quotient_finite(more as nat, total as nat);
    products_keep_order(n1.spec_div(t), n2.spec_div(t), hundred);
    if 0 < b <= 0x7fff_ffff_ffff_ffff {
        lemma_doubled_integer(b as nat);
        lemma_doubled_quotient(n1, t);
        lemma_doubled_product(n1.spec_div(t), hundred);
    }
}

proof fn lemma_quotient_finite(n: nat, d: nat)
    requires
        n < 0x1_0000_0000_0000_0000,
        0 < d < 0x1_0000_0000_0000_0000,
    ensures
        nearest(n, 1, 0).spec_div(nearest(d, 1, 0)) is Finite,
        nearest(n, 1, 0).spec_div(nearest(d, 1, 0)).valid(),
        n > 0 ==> -300 <= nearest(n, 1, 0).spec_div(nearest(d, 1, 0))->exp <= 300,
{
    lemma2_to64();
    lemma_doubled_integer(d);
    let b = nearest(d, 1, 0);
    if n == 0 {
        zero_from_nothing(1, 0);
        zero_from_nothing(b->mant as nat, zero()->exp - b->exp);
    } else {
        lemma_doubled_integer(n);
        let a = nearest(n, 1, 0);
        lemma_doubled_quotient(a, b);
        let (m, k) = (a->mant as nat, b->mant as nat);
        assert(m < k * pow2(64)) by (nonlinear_arith)
            requires
                m < 0x20_0000_0000_0000,
                k >= 1,
                pow2(64) == 0x1_0000_0000_0000_0000,
        ;
        lemma_magnitude(m, k, a->exp - b->exp, 64);
    }
}

/// A million bytes in one second are one MB per second, twice the bytes twice as many, and
/// before any time has passed none is reported.
pub proof fn speeds(bytes: u64, secs: u64)
    requires
        0 < bytes <= 0x7fff_ffff_ffff_ffff,
        0 < secs,
    ensures
        seconds_of(secs, 0) == nearest(secs as nat, 1, 0),
        rate_of_transfer(1_000_000, one()) == one(),
        rate_of_transfer((2 * bytes) as u64, seconds_of(secs, 0)) == doubled(
            rate_of_transfer(bytes, seconds_of(secs, 0)),
        ),
        reported_throughput(bytes, zero()) == zero(),
        reported_throughput(bytes, seconds_of(secs, 0)) == rate_of_transfer(
            bytes,
            seconds_of(secs, 0),
        ),
{
    let million = nearest(1_000_000, 1, 0);
    let s = nearest(secs as nat, 1, 0);
    lemma_doubled_integer(1_000_000);
    lemma_doubled_integer(1_000_000_000);
    lemma_doubled_integer(secs as nat);
    lemma_doubled_integer(bytes as nat);
    one_changes_nothing(million);
    one_changes_nothing(s);
    zero_from_nothing(1, 0);
    let billion = nearest(1_000_000_000, 1, 0);
    zero_from_nothing(billion->mant as nat, zero()->exp - billion->exp);
    assert(seconds_of(secs, 0) == s);
    let n = nearest(bytes as nat, 1, 0);
    lemma_doubled_quotient(n, s);
    lemma_quotient_finite(bytes as nat, secs as nat);
    lemma_doubled_quotient(n.spec_div(s), million);
    crate::double::order_is_that_of_bits(zero(), s);
    crate::double::order_is_that_of_bits(zero(), zero());
    assert(zero().bits() == 0);
    crate::double::bits_round_trip(s);
    crate::double::bits_round_trip(zero());
}

/// Time passes second by second and in parts of a second: the parts are nanoseconds.
pub proof fn spans_of_time(nanos: u32)
    requires
        nanos > 0,
    ensures
        seconds_of(0, nanos) == nearest(nanos as nat, 1, 0).spec_div(nearest(1_000_000_000, 1, 0)),
        seconds_of(0, 1_000_000_000) == one(),
{
    lemma_doubled_integer(1_000_000_000);
    lemma_doubled_integer(nanos as nat);
    zero_from_nothing(1, 0);
    let billion = nearest(1_000_000_000, 1, 0);
    one_changes_nothing(billion);
    lemma_quotient_finite(nanos as nat, 1_000_000_000);
    one_changes_nothing(nearest(nanos as nat, 1, 0).spec_div(billion));
    lemma_doubled_integer(1);
    one_changes_nothing(one());
}

/// A speed is bytes over seconds over a million, and is reported once time has passed.
pub proof fn speeds_are_bytes_over_time(bytes: u64, secs: u64, nanos: u32, time: Double)
    ensures
        rate_of_transfer(bytes, time) == nearest(bytes as nat, 1, 0).spec_div(time).spec_div(
            nearest(1_000_000, 1, 0),
        ),
        zero().below(time) ==> reported_throughput(bytes, time) == rate_of_transfer(bytes, time),
        !zero().below(time) ==> reported_throughput(bytes, time) == zero(),
        seconds_of(secs, nanos) == nearest(secs as nat, 1, 0).spec_add(
            nearest(nanos as nat, 1, 0).spec_div(nearest(1_000_000_000, 1, 0)),
        ),
{
}

} // verus!
