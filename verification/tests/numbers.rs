use slate::cli::human_bytes;
use slate::cost::{cloud_rate, estimate, four_places, gigabytes, two_places};
use slate::double::Double;
use slate::progress::{seconds, throughput, transfer_rate};
use slate::transfer::is_cloud_url;

fn float(d: Double) -> f64 {
    f64::from_bits(d.to_bits())
}

fn double(x: f64) -> Double {
    Double::from_bits(x.to_bits()).unwrap()
}

const SAMPLES: [f64; 22] = [
    0.0, 5e-324, 1e-310, 2.2250738585072014e-308, 1e-9, 0.005, 0.087, 0.09, 0.12, 0.5, 1.0, 1.5,
    2.5, 3.0, 10.0, 1234.5678, 1e6, 9007199254740993.0, 1.8446744073709552e19, 1e30, 1e300,
    f64::INFINITY,
];

fn same(d: Double, x: f64) {
    if x.is_nan() {
        assert!(float(d).is_nan());
    } else {
        assert_eq!(d.to_bits(), x.to_bits(), "{} and {}", float(d), x);
    }
}

#[test]
fn arithmetic_is_that_of_doubles() {
    for &a in SAMPLES.iter() {
        for &b in SAMPLES.iter() {
            same(double(a).times(double(b)), a * b);
            same(double(a).over(double(b)), a / b);
            same(double(a).plus(double(b)), a + b);
            same(double(a).max_of(double(b)), a.max(b));
            assert_eq!(double(a).is_below(double(b)), a < b);
        }
    }
}

#[test]
fn many_quotients_and_products_round_alike() {
    let mut state: u64 = 88172645463325252;
    for _ in 0..20000 {
        state ^= state << 13;
        state ^= state >> 7;
        state ^= state << 17;
        let a = state >> (state % 60);
        state ^= state << 13;
        state ^= state >> 7;
        state ^= state << 17;
        let b = (state >> (state % 60)) | 1;
        same(Double::from_u64(a), a as f64);
        same(Double::from_u64(a).over(Double::from_u64(b)), a as f64 / b as f64);
        same(Double::from_u64(a).times(Double::from_u64(b)), a as f64 * b as f64);
        same(
            Double::from_u64(a).over(Double::from_u64(b)).plus(Double::from_u64(b)),
            a as f64 / b as f64 + b as f64,
        );
    }
}

#[test]
fn not_a_number_gives_way() {
    let nan = Double::Nan;
    same(nan.max_of(double(2.0)), 2.0);
    same(double(2.0).max_of(nan), 2.0);
    assert!(float(nan.plus(double(1.0))).is_nan());
    assert!(float(double(0.0).over(double(0.0))).is_nan());
    assert!(!nan.is_below(double(1.0)));
}

#[test]
fn ratios_are_the_literals() {
    same(Double::from_ratio(9, 100), 0.09);
    same(Double::from_ratio(12, 100), 0.12);
    same(Double::from_ratio(87, 1000), 0.087);
    same(Double::from_ratio(1, 3), 1.0 / 3.0);
}

#[test]
fn fixed_digits_are_those_of_format() {
    for &x in SAMPLES.iter() {
        assert_eq!(double(x).fixed(0), format!("{:.0}", x));
        assert_eq!(double(x).fixed(1), format!("{:.1}", x));
        assert_eq!(double(x).fixed(2), format!("{:.2}", x));
        assert_eq!(double(x).fixed(3), format!("{:.3}", x));
        assert_eq!(double(x).fixed(4), format!("{:.4}", x));
    }
    for &x in [0.125, 0.375, 2.5, 3.5, 0.05, 1.005, 99.995, 0.00005, 1e22, 1.7976931348623157e308]
        .iter()
    {
        assert_eq!(double(x).fixed(0), format!("{:.0}", x));
        assert_eq!(double(x).fixed(2), format!("{:.2}", x));
        assert_eq!(double(x).fixed(4), format!("{:.4}", x));
    }
    assert_eq!(Double::Nan.fixed(2), "NaN");
    assert_eq!(Double::Infinite.fixed(2), "inf");
}

#[test]
fn rounding_is_away_from_zero() {
    for &x in SAMPLES.iter() {
        same(double(x).round_off(), x.round());
    }
    same(double(0.49999999999999994).round_off(), 0.0);
    same(double(2.5).round_off(), 3.0);
    same(double(4503599627370497.5).round_off(), 4503599627370498.0);
}

#[test]
fn bits_read_back() {
    for &x in SAMPLES.iter() {
        assert_eq!(Double::from_bits(x.to_bits()), Some(double(x)));
        assert_eq!(double(x).to_bits(), x.to_bits());
    }
    assert_eq!(Double::from_bits((-1.0f64).to_bits()), None);
    assert_eq!(Double::from_bits(f64::NAN.to_bits()), Some(Double::Nan));
}

#[test]
fn order_goes_by_bits() {
    assert!(double(1.0).is_below(double(1.0000000000000002)));
    assert!(double(1.0).to_bits() < double(1.0000000000000002).to_bits());
}

#[test]
fn bytes_for_people() {
    assert_eq!(human_bytes(0), "0 B");
    assert_eq!(human_bytes(999), "999 B");
    assert_eq!(human_bytes(1_000), "1.00 KB");
    assert_eq!(human_bytes(1_005), "1.00 KB");
    assert_eq!(human_bytes(1_536), "1.54 KB");
    assert_eq!(human_bytes(999_999), "1000.00 KB");
    assert_eq!(human_bytes(1_000_000), "1.00 MB");
    assert_eq!(human_bytes(2_684_354_560), "2.68 GB");
    assert_eq!(human_bytes(u64::MAX), "18446744073.71 GB");
    for b in [1_015u64, 1_025, 123_456, 7_777_777, 1_234_567_890, 99_995_000_000] {
        let expected = if b >= 1_000_000_000 {
            format!("{:.2} GB", b as f64 / 1_000_000_000.0)
        } else if b >= 1_000_000 {
            format!("{:.2} MB", b as f64 / 1_000_000.0)
        } else {
            format!("{:.2} KB", b as f64 / 1_000.0)
        };
        assert_eq!(human_bytes(b), expected);
    }
}

#[test]
fn estimates_by_provider() {
    let e = estimate("s3://bucket/key", 1_073_741_824);
    assert_eq!(e.provider, "AWS S3");
    assert_eq!(e.bytes, 1_073_741_824);
    same(e.rate_per_gb, 0.09);
    same(e.estimated_usd, 0.09);

    let bytes = 2_684_354_560u64;
    let gb = bytes as f64 / 1_073_741_824.0;
    same(estimate("gs://b", bytes).estimated_usd, gb * 0.12);
    same(estimate("az://c", bytes).estimated_usd, gb * 0.087);
    assert_eq!(estimate("gs://b", 1).provider, "Google Cloud Storage");
    assert_eq!(estimate("az://c", 1).provider, "Azure Blob Storage");
    assert_eq!(estimate("S3://b", 1).provider, "local");
}

#[test]
fn what_is_local_or_nothing_is_free() {
    same(estimate("/mnt/data", u64::MAX).estimated_usd, 0.0);
    same(estimate("file:///mnt/data", 123_456_789).estimated_usd, 0.0);
    same(estimate("s3://bucket", 0).estimated_usd, 0.0);
}

#[test]
fn more_bytes_cost_no_less() {
    for src in ["s3://b", "gs://b", "az://b", "/b"] {
        let mut last = 0.0f64;
        for shift in 0..64 {
            let usd = float(estimate(src, 1u64 << shift).estimated_usd);
            assert!(usd.is_finite() && usd >= last);
            last = usd;
        }
        assert!(float(estimate(src, u64::MAX).estimated_usd) >= last);
    }
}

#[test]
fn only_a_cloud_has_a_price() {
    for (url, cloud) in [("s3://b", true), ("gs://b", true), ("az://b", true), ("/b", false)] {
        let e = estimate(url, 1);
        assert_eq!(e.provider != "local", cloud);
        assert_eq!(float(e.rate_per_gb) != 0.0, cloud);
        assert_eq!(is_cloud_url(url), cloud);
    }
}

#[test]
fn rates_by_cloud() {
    same(cloud_rate("aws"), 0.09);
    same(cloud_rate("gcp"), 0.12);
    same(cloud_rate("azure"), 0.087);
    same(cloud_rate("local"), 0.0);
}

#[test]
fn rounded_amounts() {
    for bytes in [1u64, 12_345_678, 1_073_741_824, 2_684_354_560, 987_654_321_098, u64::MAX] {
        let gb = bytes as f64 / 1_073_741_824.0;
        same(gigabytes(bytes), gb);
        same(two_places(gigabytes(bytes)), (gb * 100.0).round() / 100.0);
        same(four_places(gigabytes(bytes)), (gb * 10000.0).round() / 10000.0);
    }
}

#[test]
fn speed_of_a_transfer() {
    let d = std::time::Duration::new(4, 117_000_000);
    same(seconds(4, 117_000_000), d.as_secs_f64());
    let bytes = 2_645u64 * 1024 * 1024;
    same(
        throughput(bytes, seconds(4, 117_000_000)),
        (bytes as f64 / d.as_secs_f64()) / 1_000_000.0,
    );
    same(throughput(bytes, seconds(0, 0)), 0.0);
    assert_eq!(transfer_rate(5, seconds(0, 0)), Double::Infinite);
    assert_eq!(transfer_rate(0, seconds(0, 0)), Double::Nan);
    for (s, n) in [(0u64, 1u32), (1, 999_999_999), (86_399, 123_456_789), (u64::MAX, 5)] {
        same(seconds(s, n), std::time::Duration::new(s, n).as_secs_f64());
    }
}
