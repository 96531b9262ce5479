//! Egress cost estimates per GB (USD) for transfers between regions or providers, by
//! the published list prices.
use vstd::prelude::*;
use vstd::arithmetic::power2::lemma2_to64;
use crate::double::{
    fractions_keep_order, lemma_magnitude, nearest, products_keep_order, quotient_is_valid,
    quotients_keep_order, sixteenth_or_more, small_product_is_finite, zero, zero_from_nothing,
    Double, HIDDEN,
};
use crate::store_url::cloud_scheme;
use crate::text::{same_text, starts_with};

verus! {

/// What it costs to read bytes out of a store.
#[derive(Debug)]
pub struct EgressCost {
    pub bytes: u64,
    pub provider: &'static str,
    pub rate_per_gb: Double,
    pub estimated_usd: Double,
}

/// Bytes in a GB as the providers bill it: 1024 cubed.
pub const BYTES_PER_GB: u64 = 1_073_741_824;

/// The provider that a source URL names.
pub open spec fn provider_of(src: Seq<char>) -> Seq<char> {
    if "s3://"@.is_prefix_of(src) {
        "AWS S3"@
    } else if "gs://"@.is_prefix_of(src) {
        "Google Cloud Storage"@
    } else if "az://"@.is_prefix_of(src) {
        "Azure Blob Storage"@
    } else {
        "local"@
    }
}

/// Nine cents.
pub open spec fn aws_rate() -> Double {
    nearest(9, 100, 0)
}

/// Twelve cents.
pub open spec fn gcp_rate() -> Double {
    nearest(12, 100, 0)
}

/// Eight cents and seven tenths.
pub open spec fn azure_rate() -> Double {
    nearest(87, 1000, 0)
}

/// The price of a GB out of the store that a source URL names.
pub open spec fn rate_of(src: Seq<char>) -> Double {
    if "s3://"@.is_prefix_of(src) {
        aws_rate()
    } else if "gs://"@.is_prefix_of(src) {
        gcp_rate()
    } else if "az://"@.is_prefix_of(src) {
        azure_rate()
    } else {
        zero()
    }
}

/// The price of a GB out of a cloud, by the cloud's short name.
pub open spec fn rate_by_name(name: Seq<char>) -> Double {
    if name == "aws"@ {
        aws_rate()
    } else if name == "gcp"@ {
        gcp_rate()
    } else if name == "azure"@ {
        azure_rate()
    } else {
        zero()
    }
}

/// Bytes in GB.
pub open spec fn gigabytes_of(bytes: u64) -> Double {
    nearest(bytes as nat, 1, 0).spec_div(nearest(BYTES_PER_GB as nat, 1, 0))
}

/// A number rounded to four decimal places.
pub open spec fn to_four_places(d: Double) -> Double {
    d.spec_mul(nearest(10000, 1, 0)).rounded_off().spec_div(nearest(10000, 1, 0))
}

/// A number rounded to two decimal places.
pub open spec fn to_two_places(d: Double) -> Double {
    d.spec_mul(nearest(100, 1, 0)).rounded_off().spec_div(nearest(100, 1, 0))
}

/// Bytes in GB.
pub fn gigabytes(bytes: u64) -> (gb: Double)
    ensures
        gb == gigabytes_of(bytes),
        gb.valid(),
{
    Double::from_u64(bytes).over(Double::from_u64(BYTES_PER_GB))
}

/// Rounds to four decimal places.
pub fn four_places(d: Double) -> (r: Double)
    requires
        d.valid(),
    ensures
        r == to_four_places(d),
        r.valid(),
{
    d.times(Double::from_u64(10000)).round_off().over(Double::from_u64(10000))
}

/// Rounds to two decimal places.
pub fn two_places(d: Double) -> (r: Double)
    requires
        d.valid(),
    ensures
        r == to_two_places(d),
        r.valid(),
{
    d.times(Double::from_u64(100)).round_off().over(Double::from_u64(100))
}

/// The price of a GB out of a cloud, by the cloud's short name.
pub fn cloud_rate(name: &str) -> (rate: Double)
    ensures
        rate == rate_by_name(name@),
        rate.valid(),
{
    if same_text(name, "aws") {
        Double::from_ratio(9, 100)
    } else if same_text(name, "gcp") {
        Double::from_ratio(12, 100)
    } else if same_text(name, "azure") {
        Double::from_ratio(87, 1000)
    } else {
        Double::zero_value()
    }
}

/// Estimates what it costs to read `bytes` bytes out of the store at `src_url`.
pub fn estimate(src_url: &str, bytes: u64) -> (cost: EgressCost)
    ensures
        cost.bytes == bytes,
        cost.provider@ == provider_of(src_url@),
        cost.rate_per_gb == rate_of(src_url@),
        cost.rate_per_gb.valid(),
        cost.estimated_usd == gigabytes_of(bytes).spec_mul(rate_of(src_url@)),
        cost.estimated_usd.valid(),
{
    let (provider, rate_per_gb): (&'static str, Double) = if starts_with(src_url, "s3://") {
        ("AWS S3", Double::from_ratio(9, 100))
    } else if starts_with(src_url, "gs://") {
        ("Google Cloud Storage", Double::from_ratio(12, 100))
    } else if starts_with(src_url, "az://") {
        ("Azure Blob Storage", Double::from_ratio(87, 1000))
    } else {
        ("local", Double::zero_value())
    };
    EgressCost { bytes, provider, rate_per_gb, estimated_usd: gigabytes(bytes).times(rate_per_gb) }
}

proof fn lemma_rates()
    ensures
        aws_rate() is Finite && aws_rate()->exp <= 0,
        gcp_rate() is Finite && gcp_rate()->exp <= 0,
        azure_rate() is Finite && azure_rate()->exp <= 0,
{
    lemma2_to64();
    lemma_magnitude(9, 100, 0, 0);
    lemma_magnitude(12, 100, 0, 0);
    lemma_magnitude(87, 1000, 0, 0);
}

/// The bytes in a GB are a power of two, and a double.
proof fn lemma_gigabyte()
    ensures
        nearest(BYTES_PER_GB as nat, 1, 0) == (Double::Finite { mant: HIDDEN, exp: -22i32 }),
{
    reveal_with_fuel(nearest, 23);
}

proof fn lemma_gigabytes_finite(bytes: u64)
    ensures
        gigabytes_of(bytes) is Finite,
        gigabytes_of(bytes)->exp <= 0,
{
    lemma2_to64();
    lemma_gigabyte();
    lemma_magnitude(bytes as nat, 1, 0, 64);
    match nearest(bytes as nat, 1, 0) {
        Double::Finite { mant, exp } => {
            lemma_magnitude(mant as nat, HIDDEN as nat, exp + 22, 12);
        },
        _ => {},
    }
}

/// What does not come out of a cloud costs nothing.
pub proof fn local_is_free(src: Seq<char>, bytes: u64)
    requires
        !"s3://"@.is_prefix_of(src),
        !"gs://"@.is_prefix_of(src),
        !"az://"@.is_prefix_of(src),
    ensures
        gigabytes_of(bytes).spec_mul(rate_of(src)) == zero(),
{
    lemma_gigabytes_finite(bytes);
    let gb = gigabytes_of(bytes);
    match gb {
        Double::Finite { mant, exp } => {
            assert((mant * 0) as nat == 0) by (nonlinear_arith);
            zero_from_nothing(1, exp + zero()->exp);
        },
        _ => {},
    }
}

/// Reading nothing costs nothing.
pub proof fn nothing_is_free(src: Seq<char>)
    ensures
        gigabytes_of(0).spec_mul(rate_of(src)) == zero(),
{
    lemma_rates();
    zero_from_nothing(1, 0);
    lemma_gigabyte();
    match nearest(BYTES_PER_GB as nat, 1, 0) {
        Double::Finite { mant, exp } => {
            zero_from_nothing(mant as nat, zero()->exp - exp);
            assert(gigabytes_of(0) == zero());
        },
        _ => {},
    }
    match rate_of(src) {
        Double::Finite { mant, exp } => {
            assert((0 * mant) as nat == 0) by (nonlinear_arith);
            zero_from_nothing(1, zero()->exp + exp);
        },
        _ => {},
    }
}

/// The rate of each cloud is a number above zero.
proof fn lemma_rates_above_zero()
    ensures
        aws_rate() != zero(),
        gcp_rate() != zero(),
        azure_rate() != zero(),
        aws_rate().valid(),
        gcp_rate().valid(),
        azure_rate().valid(),
{
    sixteenth_or_more(9, 100);
    sixteenth_or_more(12, 100);
    sixteenth_or_more(87, 1000);
}

/// The estimate is a number for every count of bytes, and more bytes never cost less.
pub proof fn estimate_grows(src: Seq<char>, b1: u64, b2: u64)
    requires
        b1 <= b2,
    ensures
        gigabytes_of(b1).spec_mul(rate_of(src)) is Finite,
        gigabytes_of(b2).spec_mul(rate_of(src)) is Finite,
        !gigabytes_of(b2).spec_mul(rate_of(src)).below(gigabytes_of(b1).spec_mul(rate_of(src))),
{
    lemma_gigabyte();
    lemma_gigabytes_finite(b1);
    lemma_gigabytes_finite(b2);
    lemma_rates();
    lemma_rates_above_zero();
    lemma2_to64();
    let one = nearest(BYTES_PER_GB as nat, 1, 0);
    let (n1, n2) = (nearest(b1 as nat, 1, 0), nearest(b2 as nat, 1, 0));
    fractions_keep_order(b1 as nat, b2 as nat, 1);
    lemma_magnitude(b1 as nat, 1, 0, 64);
    lemma_magnitude(b2 as nat, 1, 0, 64);
    quotients_keep_order(n1, n2, one);
    let (g1, g2) = (gigabytes_of(b1), gigabytes_of(b2));
    quotient_is_valid(n1, one);
    quotient_is_valid(n2, one);
    products_keep_order(g1, g2, rate_of(src));
    small_product_is_finite(g1, rate_of(src));
    small_product_is_finite(g2, rate_of(src));
}

/// Only what does not come out of a cloud has no price, and only that is called local.
pub proof fn only_clouds_have_a_price(src: Seq<char>)
    ensures
        provider_of(src) == "local"@ <==> cloud_scheme(src) is None,
        rate_of(src) == zero() <==> cloud_scheme(src) is None,
{
    lemma_rates_above_zero();
    reveal_strlit("local");
    reveal_strlit("AWS S3");
    reveal_strlit("Google Cloud Storage");
    reveal_strlit("Azure Blob Storage");
    assert("local"@.len() == 5 && "AWS S3"@.len() == 6 && "Google Cloud Storage"@.len() == 20
        && "Azure Blob Storage"@.len() == 18);
}

} // verus!
