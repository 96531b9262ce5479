//! How far and how fast a transfer has come.
use vstd::prelude::*;
use crate::double::{nearest, zero, Double};

verus! {

/// A report of how far a transfer has come.
#[derive(Clone, Copy, PartialEq, Eq, Structural, Debug)]
pub struct ProgressEvent {
    pub job_id: u128,
    pub bytes_transferred: u64,
    pub bytes_total: Option<u64>,
    pub throughput_mbps: Double,
}

/// A span of time in seconds, as a double.
pub open spec fn seconds_of(secs: u64, nanos: u32) -> Double {
    nearest(secs as nat, 1, 0).spec_add(
        nearest(nanos as nat, 1, 0).spec_div(nearest(1_000_000_000, 1, 0)),
    )
}

/// Bytes over a number of seconds, in MB per second.
pub open spec fn rate_of_transfer(bytes: u64, seconds: Double) -> Double {
    nearest(bytes as nat, 1, 0).spec_div(seconds).spec_div(nearest(1_000_000, 1, 0))
}

/// The throughput that a report shows: none before any time has passed.
pub open spec fn reported_throughput(bytes: u64, seconds: Double) -> Double {
    if zero().below(seconds) {
        rate_of_transfer(bytes, seconds)
    } else {
        zero()
    }
}

/// A span of time in seconds.
pub fn seconds(secs: u64, nanos: u32) -> (s: Double)
    ensures
        s == seconds_of(secs, nanos),
        s.valid(),
{
    let part = Double::from_u64(nanos as u64).over(Double::from_u64(1_000_000_000));
    Double::from_u64(secs).plus(part)
}

/// Bytes over a number of seconds, in MB per second.
pub fn transfer_rate(bytes: u64, seconds: Double) -> (mbps: Double)
    requires
        seconds.valid(),
    ensures
        mbps == rate_of_transfer(bytes, seconds),
        mbps.valid(),
{
    Double::from_u64(bytes).over(seconds).over(Double::from_u64(1_000_000))
}

/// The throughput that a report shows.
pub fn throughput(bytes: u64, seconds: Double) -> (mbps: Double)
    requires
        seconds.valid(),
    ensures
        mbps == reported_throughput(bytes, seconds),
        mbps.valid(),
{
    if Double::zero_value().is_below(seconds) {
        transfer_rate(bytes, seconds)
    } else {
        Double::zero_value()
    }
}

} // verus!
