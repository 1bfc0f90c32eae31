//! Moments in time, and their RFC 3339 text.

use vstd::prelude::*;

verus! {

/// A moment: whole seconds since the Unix epoch and nanoseconds on top of them. A leap
/// second has more than a second's worth of nanoseconds.
#[derive(Clone, Copy, Debug, PartialEq, Eq, Structural)]
pub struct Timestamp {
    pub secs: i64,
    pub nanos: u32,
}

impl Timestamp {
    /// Nanoseconds since the Unix epoch.
    pub open spec fn at(self) -> int {
        self.secs * 1000000000 + self.nanos
    }

    /// Nanoseconds since the Unix epoch.
    pub fn instant(&self) -> (r: i128)
        ensures
            r == self.at(),
            -10000000000000000000000000000 < r < 10000000000000000000000000000,
    {
        self.secs as i128 * 1000000000 + self.nanos as i128
    }

    /// Whether this moment is before `other`.
    pub fn before(&self, other: &Timestamp) -> (r: bool)
        ensures
            r == (self.at() < other.at()),
    {
        self.instant() < other.instant()
    }

    /// Whether this moment lies more than `days` days before `now`. Any number of days is
    /// fine, a negative one too.
    pub fn older_than_days(&self, now: &Timestamp, days: i64) -> (r: bool)
        ensures
            r == (self.at() < now.at() - days * 86400 * 1000000000),
    {
        let span: i128 = days as i128 * 86400 * 1000000000;
        self.instant() < now.instant() - span
    }

    /// The moment `seconds` after this one, if there is one.
    pub fn plus_seconds(&self, seconds: u32) -> (r: Option<Timestamp>)
        ensures
            r is Some <==> self.secs + seconds <= i64::MAX,
            r matches Some(t) ==> t.at() == self.at() + seconds * 1000000000 && t.secs == self.secs
                + seconds && t.nanos == self.nanos,
    {
        match self.secs.checked_add(seconds as i64) {
            Some(secs) => Some(Timestamp { secs, nanos: self.nanos }),
            None => None,
        }
    }

    /// Whole seconds from `then` to this moment, rounded toward zero.
    pub fn seconds_since(&self, then: &Timestamp) -> (r: i128)
        ensures
            r == whole_seconds(self.at() - then.at()),
    {
        let d: i128 = self.instant() - then.instant();
        if d < 0 {
            -((-d) / 1000000000)
        } else {
            d / 1000000000
        }
    }
}

/// A span of nanoseconds in whole seconds, rounded toward zero.
pub open spec fn whole_seconds(nanos: int) -> int {
    if nanos < 0 {
        -((-nanos) / 1000000000)
    } else {
        nanos / 1000000000
    }
}

// ---- RFC 3339 ----

/// A result, with the words of its error as characters.
pub open spec fn worded<T>(r: Result<T, String>) -> Result<T, Seq<char>> {
    match r {
        Ok(v) => Ok(v),
        Err(words) => Err(words@),
    }
}

/// What `chrono::DateTime::parse_from_rfc3339` reads from a text: the seconds since the Unix
/// epoch and the nanoseconds on top of them, or the words of its error where it fails.
pub uninterp spec fn rfc3339_instant(text: Seq<char>) -> Result<(i64, u32), Seq<char>>;

/// What `chrono::DateTime::to_rfc3339` writes for a moment in UTC, or nothing where
/// `chrono::DateTime::from_timestamp` has no such moment.
pub uninterp spec fn rfc3339_text(secs: i64, nanos: u32) -> Option<Seq<char>>;

/// Calls `chrono::DateTime::parse_from_rfc3339`. The result is a function of the text alone,
/// named [`rfc3339_instant`].
#[verifier::external_body]
fn chrono_parse(text: &str) -> (r: Result<(i64, u32), String>)
    ensures
        worded(r) == rfc3339_instant(text@),
{
    match chrono::DateTime::parse_from_rfc3339(text) {
        Ok(d) => Ok((d.timestamp(), d.timestamp_subsec_nanos())),
        Err(e) => Err(e.to_string()),
    }
}

/// Calls `chrono::DateTime::to_rfc3339` on the UTC moment of the two numbers. The result is
/// a function of them alone, named [`rfc3339_text`]. In the years 0 to 9999, leap seconds
/// aside, there is a text, and `parse_from_rfc3339` reads the same moment from it.
#[verifier::external_body]
fn chrono_format(secs: i64, nanos: u32) -> (r: Option<String>)
    ensures
        r is Some <==> rfc3339_text(secs, nanos) is Some,
        r matches Some(s) ==> rfc3339_text(secs, nanos) == Some(s@),
        -62167219200 <= secs <= 253402300799 && nanos < 1000000000 ==> r is Some
            && rfc3339_instant(r->0@) is Ok && rfc3339_instant(r->0@)->Ok_0 == (secs, nanos),
{
    match chrono::DateTime::from_timestamp(secs, nanos) {
        Some(d) => Some(d.to_rfc3339()),
        None => None,
    }
}

/// The moment that was read from a text, or the words of the error.
pub open spec fn moment_of(read: Result<(i64, u32), Seq<char>>) -> Result<Timestamp, Seq<char>> {
    match read {
        Ok((secs, nanos)) => Ok(Timestamp { secs, nanos }),
        Err(words) => Err(words),
    }
}

/// Reads an RFC 3339 text, or gives the words of the error.
pub fn parse_rfc3339(text: &str) -> (r: Result<Timestamp, String>)
    ensures
        worded(r) == moment_of(rfc3339_instant(text@)),
{
    match chrono_parse(text) {
        Ok((secs, nanos)) => Ok(Timestamp { secs, nanos }),
        Err(words) => Err(words),
    }
}

/// A timestamp that was read, or `now` where none was.
pub open spec fn or_now(read: Result<Timestamp, Seq<char>>, now: Timestamp) -> Timestamp {
    match read {
        Ok(t) => t,
        Err(_) => now,
    }
}

/// Reads a stored timestamp. One that cannot be read counts as `now`.
pub fn parse_ts(text: &str, now: Timestamp) -> (r: Timestamp)
    ensures
        r == or_now(moment_of(rfc3339_instant(text@)), now),
{
    match parse_rfc3339(text) {
        Ok(t) => t,
        Err(_) => now,
    }
}

/// Writes a moment as RFC 3339 text. In the years 0 to 9999, leap seconds aside, there is
/// one, and [`parse_ts`] reads the same moment from it.
pub fn to_rfc3339(t: Timestamp) -> (r: Option<String>)
    ensures
        r is Some <==> rfc3339_text(t.secs, t.nanos) is Some,
        r matches Some(s) ==> rfc3339_text(t.secs, t.nanos) == Some(s@),
        -62167219200 <= t.secs <= 253402300799 && t.nanos < 1000000000 ==> r is Some && moment_of(
            rfc3339_instant(r->0@),
        ) == Ok::<Timestamp, Seq<char>>(t),
{
    chrono_format(t.secs, t.nanos)
}

} // verus!
