//! Points in time: `Timestamp` (seconds since the Unix epoch) and `DateTime`
//! (a timestamp read from RFC 3339 text, with its UTC offset). Reading and
//! writing RFC 3339 text is chrono's work.
use vstd::prelude::*;

verus! {

/// Seconds since 1970-01-01T00:00:00Z.
#[derive(Clone, Copy, Debug, Eq, Ord, PartialEq, PartialOrd, Structural)]
pub struct Timestamp(pub i64);

/// Why a timestamp could not be had.
#[derive(Clone, Copy, Debug, Eq, PartialEq)]
pub enum TimestampError {
    /// The text is not an RFC 3339 date and time.
    Parse,
    /// The system clock is set before 1970.
    BeforeEpoch,
    /// The system clock is beyond what an `i64` of seconds holds.
    OutOfRange,
}

/// The timestamps of the dates that chrono holds, from -262143-01-01T00:00:00
/// to +262142-12-31T23:59:59.
pub open spec fn timestamp_in_range(t: int) -> bool {
    -8_334_601_315_200 <= t <= 8_210_266_876_799
}

/// Whether a timestamp is one of the dates that chrono holds.
fn timestamp_in_range_x(t: i64) -> (r: bool)
    ensures
        r == timestamp_in_range(t as int),
{
    -8_334_601_315_200 <= t && t <= 8_210_266_876_799
}

/// A UTC offset in seconds that chrono's `FixedOffset` holds.
pub open spec fn offset_in_range(o: int) -> bool {
    -86_400 < o < 86_400
}

/// What chrono's `DateTime::parse_from_rfc3339` gives for a text: the
/// timestamp in whole seconds and the UTC offset in seconds.
pub uninterp spec fn rfc3339_of(s: Seq<char>) -> Option<(i64, i32)>;

/// What chrono's `DateTime<FixedOffset>::from_str` gives for a text: the
/// timestamp, the UTC offset in seconds and the nanoseconds.
pub uninterp spec fn datetime_of(s: Seq<char>) -> Option<(i64, i32, u32)>;

/// The RFC 3339 text that chrono writes for a timestamp seen at a UTC offset,
/// in whole seconds, with `Z` for the offset zero.
pub uninterp spec fn rfc3339_text(timestamp: i64, offset: i32) -> Seq<char>;

/// `chrono::DateTime::parse_from_rfc3339`, with `timestamp` and
/// `offset().local_minus_utc()`. Its contract names the result and claims of
/// it what chrono's source shows of every value that this parser makes: the
/// offset is one that `FixedOffset` holds, and the instant and the local time
/// are dates that chrono holds (the local date has a four-digit year and the
/// instant is that local time less the offset).
#[verifier::external_body]
pub(crate) fn parse_rfc3339(s: &str) -> (r: Option<(i64, i32)>)
    ensures
        r == rfc3339_of(s@),
        r matches Some((t, o)) ==> offset_in_range(o as int) && timestamp_in_range(t as int)
            && timestamp_in_range(t + o),
{
    chrono::DateTime::parse_from_rfc3339(s).ok().map(|dt| (dt.timestamp(), dt.offset().local_minus_utc()))
}

/// `chrono::DateTime<FixedOffset>::from_str`, with `timestamp`,
/// `offset().local_minus_utc()` and `nanosecond()`. Its contract names the
/// result and claims only that the offset is one that `FixedOffset` holds,
/// which chrono's `FixedOffset::east_opt` documents.
#[verifier::external_body]
fn parse_datetime(s: &str) -> (r: Option<(i64, i32, u32)>)
    ensures
        r == datetime_of(s@),
        r matches Some((_, o, _)) ==> offset_in_range(o as int),
{
    let parsed = <chrono::DateTime<chrono::FixedOffset> as std::str::FromStr>::from_str(s);
    parsed.ok().map(
        |dt| (dt.timestamp(), dt.offset().local_minus_utc(), chrono::Timelike::nanosecond(&dt)),
    )
}

/// `chrono::DateTime::from_timestamp`, `with_timezone` at a `FixedOffset` and
/// `to_rfc3339_opts(SecondsFormat::Secs, true)`. Its contract names the result
/// and says nothing more of it. Both conversions succeed, and the local time
/// that `to_rfc3339_opts` writes is one that chrono holds, on the inputs that
/// `requires` admits.
#[verifier::external_body]
pub(crate) fn format_rfc3339(timestamp: i64, offset: i32) -> (r: String)
    requires
        timestamp_in_range(timestamp as int),
        offset_in_range(offset as int),
        timestamp_in_range(timestamp + offset),
    ensures
        r@ == rfc3339_text(timestamp, offset),
{
    let offset = chrono::FixedOffset::east_opt(offset).unwrap();
    let utc = chrono::DateTime::from_timestamp(timestamp, 0).unwrap();
    utc.with_timezone(&offset).to_rfc3339_opts(chrono::SecondsFormat::Secs, true)
}

/// `SystemTime::now().duration_since(UNIX_EPOCH)` in whole seconds, or `None`
/// where the clock is set before 1970. It depends on the clock, so its
/// contract claims nothing.
#[verifier::external_body]
fn seconds_since_epoch() -> (r: Option<u64>) {
    std::time::SystemTime::now().duration_since(std::time::SystemTime::UNIX_EPOCH).ok().map(
        |d| d.as_secs(),
    )
}

impl Timestamp {
    /// The timestamp of an RFC 3339 text.
    pub fn from_rfc3339(s: &str) -> (r: Result<Timestamp, TimestampError>)
        ensures
            match rfc3339_of(s@) {
                Some((t, _)) => r == Ok::<Timestamp, TimestampError>(Timestamp(t)),
                None => r == Err::<Timestamp, TimestampError>(TimestampError::Parse),
            },
    {
        match parse_rfc3339(s) {
            Some((t, _)) => Ok(Timestamp(t)),
            None => Err(TimestampError::Parse),
        }
    }

    /// The timestamp of a reading of the system clock in seconds since 1970:
    /// `BeforeEpoch` where the clock is set before 1970, `OutOfRange` where
    /// the seconds do not fit in an `i64`.
    pub fn from_clock(seconds: Option<u64>) -> (r: Result<Timestamp, TimestampError>)
        ensures
            match seconds {
                None => r == Err::<Timestamp, TimestampError>(TimestampError::BeforeEpoch),
                Some(s) => if s <= i64::MAX {
                    r == Ok::<Timestamp, TimestampError>(Timestamp(s as i64))
                } else {
                    r == Err::<Timestamp, TimestampError>(TimestampError::OutOfRange)
                },
            },
    {
        match seconds {
            Some(s) => {
                if s <= i64::MAX as u64 {
                    Ok(Timestamp(s as i64))
                } else {
                    Err(TimestampError::OutOfRange)
                }
            },
            None => Err(TimestampError::BeforeEpoch),
        }
    }

    /// The present time, from the system clock: never before 1970.
    pub fn now() -> (r: Result<Timestamp, TimestampError>)
        ensures
            r matches Ok(t) ==> t.0 >= 0,
            r matches Err(e) ==> (e == TimestampError::BeforeEpoch || e
                == TimestampError::OutOfRange),
    {
        Timestamp::from_clock(seconds_since_epoch())
    }

    /// The timestamp written in RFC 3339 at UTC, in whole seconds, ending in `Z`.
    pub fn to_rfc3339(&self) -> (r: String)
        requires
            timestamp_in_range(self.0 as int),
        ensures
            r@ == rfc3339_text(self.0, 0),
    {
        format_rfc3339(self.0, 0)
    }
}

impl From<i64> for Timestamp {
    fn from(timestamp: i64) -> (r: Self) {
        Timestamp(timestamp)
    }
}

impl vstd::std_specs::convert::FromSpecImpl<i64> for Timestamp {
    open spec fn obeys_from_spec() -> bool {
        true
    }

    open spec fn from_spec(timestamp: i64) -> Self {
        Timestamp(timestamp)
    }
}

impl From<Timestamp> for i64 {
    fn from(timestamp: Timestamp) -> (r: Self) {
        timestamp.0
    }
}

impl vstd::std_specs::convert::FromSpecImpl<Timestamp> for i64 {
    open spec fn obeys_from_spec() -> bool {
        true
    }

    open spec fn from_spec(timestamp: Timestamp) -> Self {
        timestamp.0
    }
}

/// A date and time with a UTC offset, read from text, in whole seconds.
/// Two date-times are equal when they are the same instant.
#[derive(Clone, Copy, Debug)]
pub struct DateTime {
    timestamp: i64,
    offset: i32,
}

/// The text is not a date and time in whole seconds.
#[derive(Clone, Copy, Debug, Eq, PartialEq)]
pub struct ParseDateTimeError;

/// The date-time that `DateTime::parse` makes of a chrono result: only whole
/// seconds, with the instant and the local time inside the range of
/// `timestamp_in_range`, which every date-time that chrono makes is.
pub open spec fn datetime_from_parts(parts: Option<(i64, i32, u32)>) -> Option<(i64, i32)> {
    match parts {
        Some((t, o, ns)) => if ns == 0 && timestamp_in_range(t as int) && offset_in_range(
            o as int,
        ) && timestamp_in_range(t + o) {
            Some((t, o))
        } else {
            None
        },
        None => None,
    }
}

impl DateTime {
    #[verifier::type_invariant]
    spec fn in_range(self) -> bool {
        timestamp_in_range(self.timestamp as int) && offset_in_range(self.offset as int)
            && timestamp_in_range(self.timestamp + self.offset)
    }

    pub closed spec fn parts(self) -> (i64, i32) {
        (self.timestamp, self.offset)
    }

    /// The date-time of an instant seen at a UTC offset.
    pub(crate) fn from_parts(timestamp: i64, offset: i32) -> (r: DateTime)
        requires
            timestamp_in_range(timestamp as int),
            offset_in_range(offset as int),
            timestamp_in_range(timestamp + offset),
        ensures
            r.parts() == (timestamp, offset),
    {
        DateTime { timestamp, offset }
    }

    /// The date-time of a text, as chrono reads it, where it is in whole seconds.
    pub fn parse(s: &str) -> (r: Result<DateTime, ParseDateTimeError>)
        ensures
            match datetime_from_parts(datetime_of(s@)) {
                Some(p) => r matches Ok(dt) && dt.parts() == p,
                None => r is Err,
            },
    {
        match parse_datetime(s) {
            Some((t, o, ns)) => {
                if ns == 0 && timestamp_in_range_x(t) && -86_400 < o && o < 86_400
                    && timestamp_in_range_x(t + o as i64) {
                    Ok(DateTime { timestamp: t, offset: o })
                } else {
                    Err(ParseDateTimeError)
                }
            },
            None => Err(ParseDateTimeError),
        }
    }

    /// The instant, in seconds since the Unix epoch.
    pub fn timestamp(&self) -> (r: i64)
        ensures
            r == self.parts().0,
    {
        self.timestamp
    }

    /// The UTC offset, in seconds east of UTC.
    pub fn offset(&self) -> (r: i32)
        ensures
            r == self.parts().1,
    {
        self.offset
    }

    /// The date-time written in RFC 3339 at its own offset, in whole seconds,
    /// with `Z` for the offset zero.
    pub fn to_string(&self) -> (r: String)
        ensures
            r@ == rfc3339_text(self.parts().0, self.parts().1),
    {
        proof {
            use_type_invariant(self);
        }
        format_rfc3339(self.timestamp, self.offset)
    }
}

impl PartialEq for DateTime {
    fn eq(&self, other: &Self) -> (r: bool) {
        self.timestamp == other.timestamp
    }
}

impl vstd::std_specs::cmp::PartialEqSpecImpl for DateTime {
    open spec fn obeys_eq_spec() -> bool {
        true
    }

    open spec fn eq_spec(&self, other: &DateTime) -> bool {
        self.parts().0 == other.parts().0
    }
}

impl Eq for DateTime {

}

impl std::str::FromStr for DateTime {
    type Err = ParseDateTimeError;

    fn from_str(s: &str) -> (r: Result<Self, Self::Err>)
        ensures
            match datetime_from_parts(datetime_of(s@)) {
                Some(p) => r matches Ok(dt) && dt.parts() == p,
                None => r is Err,
            },
    {
        DateTime::parse(s)
    }
}

impl From<DateTime> for Timestamp {
    fn from(dt: DateTime) -> (r: Self) {
        Timestamp(dt.timestamp)
    }
}

impl vstd::std_specs::convert::FromSpecImpl<DateTime> for Timestamp {
    open spec fn obeys_from_spec() -> bool {
        true
    }

    open spec fn from_spec(dt: DateTime) -> Self {
        Timestamp(dt.parts().0)
    }
}

} // verus!
