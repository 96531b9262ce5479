//! Instants in UTC, and their RFC 3339 text.
use vstd::prelude::*;

verus! {

/// The first second of the calendar: the year 262143 before the year zero.
pub const MIN_SECS: i64 = -8334601228800;

/// The last second of the calendar: the year 262142.
pub const MAX_SECS: i64 = 8210266876799;

/// An instant in UTC: seconds since the Unix epoch and nanoseconds within the
/// second. A leap second is the second before it with a billion nanoseconds or more.
#[derive(Clone, Copy, PartialEq, Eq, Structural, Debug)]
pub struct Timestamp {
    pub secs: i64,
    pub nanos: u32,
}

impl Timestamp {
    /// The instant is one of the calendar.
    pub open spec fn valid(self) -> bool {
        &&& MIN_SECS <= self.secs <= MAX_SECS
        &&& self.nanos < 2_000_000_000
        &&& self.nanos >= 1_000_000_000 ==> self.secs as int % 60 == 59
    }

    /// The clock can show the instant: it is one of the calendar, not before the epoch, and
    /// not a leap second.
    pub open spec fn on_clock(self) -> bool {
        self.valid() && self.secs >= 0 && self.nanos < 1_000_000_000
    }

    /// `self` is no later than `other`.
    pub open spec fn at_or_before(self, other: Timestamp) -> bool {
        self.secs < other.secs || (self.secs == other.secs && self.nanos <= other.nanos)
    }

    /// `self` is later than `other`.
    pub open spec fn after(self, other: Timestamp) -> bool {
        !self.at_or_before(other)
    }

    /// The instant `secs` seconds later, for more than none. A leap second is over
    /// by then.
    pub open spec fn later_by(self, secs: int) -> Timestamp {
        Timestamp {
            secs: (self.secs + secs) as i64,
            nanos: (self.nanos as int % 1_000_000_000) as u32,
        }
    }

    /// Whether `self` is no later than `other`.
    pub fn is_at_or_before(&self, other: &Timestamp) -> (r: bool)
        ensures
            r == self.at_or_before(*other),
    {
        self.secs < other.secs || (self.secs == other.secs && self.nanos <= other.nanos)
    }

    /// The instant `secs` seconds later.
    pub fn plus_secs(self, secs: i64) -> (r: Timestamp)
        requires
            self.valid(),
            secs > 0,
            self.secs + secs <= MAX_SECS,
        ensures
            r == self.later_by(secs as int),
            r.valid(),
    {
        Timestamp { secs: self.secs + secs, nanos: self.nanos % 1_000_000_000 }
    }

    /// The instant of the calendar that seconds since the epoch and nanoseconds
    /// within the second denote.
    pub fn new(secs: i64, nanos: u32) -> (r: Option<Timestamp>)
        ensures
            (Timestamp { secs, nanos }).valid() ==> r == Some(Timestamp { secs, nanos }),
            !(Timestamp { secs, nanos }).valid() ==> r is None,
    {
        if secs < MIN_SECS || secs > MAX_SECS || nanos >= 2_000_000_000 {
            return None;
        }
        if nanos >= 1_000_000_000 && (secs - MIN_SECS) % 60 != 59 {
            return None;
        }
        Some(Timestamp { secs, nanos })
    }
}

/// The RFC 3339 text of an instant, as `chrono` writes it.
pub uninterp spec fn rfc3339(secs: i64, nanos: u32) -> Seq<char>;

/// The instant, in seconds and nanoseconds, that `chrono` reads from a text in the
/// relaxed form of RFC 3339, if it reads one.
pub uninterp spec fn rfc3339_instant(text: Seq<char>) -> Option<(i64, u32)>;

/// Reads the clock with `chrono::Utc::now`. Whatever the clock shows, the instant is
/// one of the calendar, not before the epoch, and not a leap second.
#[verifier::external_body]
pub(crate) fn utc_now() -> (now: Timestamp)
    ensures
        now.on_clock(),
{
    let now = chrono::Utc::now();
    Timestamp { secs: now.timestamp(), nanos: now.timestamp_subsec_nanos() }
}

/// Writes an instant with `chrono::DateTime::to_rfc3339`. The text is the one that
/// `rfc3339` names, and parsing it gives the instant back.
#[verifier::external_body]
pub(crate) fn to_rfc3339(t: Timestamp) -> (text: String)
    requires
        t.valid(),
    ensures
        text@ == rfc3339(t.secs, t.nanos),
        rfc3339_instant(text@) == Some((t.secs, t.nanos)),
{
    chrono::DateTime::from_timestamp(t.secs, t.nanos).unwrap().to_rfc3339()
}

/// Parses a text as `chrono::DateTime<Utc>`. What comes back is what
/// `rfc3339_instant` names, and an instant that was read is one of the calendar.
#[verifier::external_body]
pub(crate) fn parse_rfc3339(text: &str) -> (t: Option<Timestamp>)
    ensures
        match t {
            Some(t) => rfc3339_instant(text@) == Some((t.secs, t.nanos)) && t.valid(),
            None => rfc3339_instant(text@) is None,
        },
{
    let parsed = text.parse::<chrono::DateTime<chrono::Utc>>().ok();
    parsed.map(|t| Timestamp { secs: t.timestamp(), nanos: t.timestamp_subsec_nanos() })
}

/// The text in which `chrono` shows an instant in UTC to people.
pub uninterp spec fn utc_text(secs: i64, nanos: u32) -> Seq<char>;

/// Writes an instant as `chrono::DateTime<Utc>` displays itself; the text is the one
/// that `utc_text` names.
#[verifier::external_body]
pub(crate) fn display_utc(t: Timestamp) -> (text: String)
    requires
        t.valid(),
    ensures
        text@ == utc_text(t.secs, t.nanos),
{
    chrono::DateTime::from_timestamp(t.secs, t.nanos).unwrap().to_string()
}

/// The instant that an optional text holds; a text that does not parse counts as none.
pub open spec fn opt_instant(text: Option<Seq<char>>) -> Option<Timestamp> {
    match text {
        Some(s) => match rfc3339_instant(s) {
            Some((secs, nanos)) => Some(Timestamp { secs, nanos }),
            None => None,
        },
        None => None,
    }
}

/// Reads the instant that an optional text holds.
pub fn parse_opt_dt(text: Option<&str>) -> (t: Option<Timestamp>)
    ensures
        t == opt_instant(
            match text {
                Some(s) => Some(s@),
                None => None,
            },
        ),
        t matches Some(t) ==> t.valid(),
{
    match text {
        Some(s) => parse_rfc3339(s),
        None => None,
    }
}

} // verus!
