//! What holds of instants.
use vstd::prelude::*;
use crate::time::{Timestamp, MAX_SECS, MIN_SECS};

verus! {

/// Instants are in order: of two, one is not after the other, both only if they are equal,
/// and what is not after an instant is not after a later one.
pub proof fn instants_are_in_order(a: Timestamp, b: Timestamp, c: Timestamp)
    ensures
        a.at_or_before(b) || b.at_or_before(a),
        a.at_or_before(b) && b.at_or_before(a) <==> a == b,
        a.at_or_before(b) && b.at_or_before(c) ==> a.at_or_before(c),
        a.after(b) <==> !a.at_or_before(b),
        a.secs < b.secs ==> a.at_or_before(b) && !b.at_or_before(a),
        a.secs == b.secs && a.nanos < b.nanos ==> a.at_or_before(b) && !b.at_or_before(a),
{
}

/// An instant a number of seconds later has that many seconds more and the same part of a
/// second.
pub proof fn seconds_pass(t: Timestamp, secs: int)
    requires
        t.valid(),
        0 < secs,
        t.secs + secs <= MAX_SECS,
    ensures
        t.later_by(secs).secs == t.secs + secs,
        t.nanos < 1_000_000_000 ==> t.later_by(secs).nanos == t.nanos,
        t.nanos >= 1_000_000_000 ==> t.later_by(secs).nanos == t.nanos - 1_000_000_000,
        t.later_by(secs).valid(),
        t.later_by(secs).after(t),
{
}

/// Which instants are of the calendar, and which the clock can show.
pub proof fn instants_of_the_calendar(t: Timestamp)
    ensures
        t.nanos < 1_000_000_000 ==> (t.valid() <==> MIN_SECS <= t.secs <= MAX_SECS),
        t.nanos >= 2_000_000_000 ==> !t.valid(),
        t.on_clock() <==> 0 <= t.secs <= MAX_SECS && t.nanos < 1_000_000_000,
        MAX_SECS == 8_210_266_876_799,
        MIN_SECS == -8_334_601_228_800,
{
}

} // verus!
