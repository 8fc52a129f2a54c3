//! A timestamp that an `i64` of seconds becomes only from 1970-01-01T00:00:00Z
//! to 9999-12-31T23:59:59Z. Text and the clock give it as `timestamp` does.
use crate::timestamp::{
    format_rfc3339, parse_rfc3339, rfc3339_of, rfc3339_text, timestamp_in_range,
    TimestampError,
};
use vstd::prelude::*;

verus! {

/// The last second of 9999-12-31, in seconds since 1970.
pub const LAST_SECOND: i64 = 253_402_300_799;

/// Seconds since 1970-01-01T00:00:00Z.
#[derive(Clone, Copy, Debug, Eq, Ord, PartialEq, PartialOrd, Structural)]
pub struct Timestamp(i64);

impl View for Timestamp {
    type V = i64;

    closed spec fn view(&self) -> i64 {
        self.0
    }
}

impl Timestamp {
    /// The timestamp of an RFC 3339 text.
    pub fn from_rfc3339(s: &str) -> (r: Result<Timestamp, TimestampError>)
        ensures
            match rfc3339_of(s@) {
                Some((t, _)) => r matches Ok(v) && v@ == t,
                None => r == Err::<Timestamp, TimestampError>(TimestampError::Parse),
            },
    {
        match parse_rfc3339(s) {
            Some((t, _)) => Ok(Timestamp(t)),
            None => Err(TimestampError::Parse),
        }
    }

    /// The present time, from the system clock: never before 1970.
    pub fn now() -> (r: Result<Timestamp, TimestampError>)
        ensures
            r matches Ok(t) ==> t@ >= 0,
            r matches Err(e) ==> (e == TimestampError::BeforeEpoch || e
                == TimestampError::OutOfRange),
    {
        match crate::timestamp::Timestamp::now() {
            Ok(t) => Ok(Timestamp(t.0)),
            Err(e) => Err(e),
        }
    }

    /// The timestamp written in RFC 3339 at UTC, in whole seconds, ending in `Z`.
    pub fn to_rfc3339(&self) -> (r: String)
        requires
            timestamp_in_range(self@ as int),
        ensures
            r@ == rfc3339_text(self@, 0),
    {
        format_rfc3339(self.0, 0)
    }
}

impl std::convert::TryFrom<i64> for Timestamp {
    type Error = TimestampError;

    /// `OutOfRange` before 1970-01-01T00:00:00Z and after 9999-12-31T23:59:59Z.
    fn try_from(value: i64) -> (r: Result<Self, Self::Error>)
        ensures
            0 <= value <= LAST_SECOND ==> (r matches Ok(t) && t@ == value),
            !(0 <= value <= LAST_SECOND) ==> r == Err::<Timestamp, TimestampError>(
                TimestampError::OutOfRange,
            ),
    {
        if 0 <= value && value <= LAST_SECOND {
            proof {
                assert(Timestamp(value)@ == value);
                let t = choose|t: Timestamp| t@ == value;
                assert(t == Timestamp(t.0));
            }
            Ok(Timestamp(value))
        } else {
            Err(TimestampError::OutOfRange)
        }
    }
}

impl vstd::std_specs::convert::TryFromSpecImpl<i64> for Timestamp {
    open spec fn obeys_try_from_spec() -> bool {
        true
    }

    open spec fn try_from_spec(value: i64) -> Result<Self, TimestampError> {
        if 0 <= value <= LAST_SECOND {
            Ok(choose|t: Timestamp| t@ == value)
        } else {
            Err(TimestampError::OutOfRange)
        }
    }
}

impl From<Timestamp> for i64 {
    fn from(timestamp: Timestamp) -> (r: Self) {
        timestamp.0
    }
}

impl vstd::std_specs::convert::FromSpecImpl<Timestamp> for i64 {
    open spec fn obeys_from_spec() -> bool {
        true
    }

    open spec fn from_spec(timestamp: Timestamp) -> Self {
        timestamp@
    }
}

/// An `i64` becomes a timestamp exactly from 0 to 253402300799, and the
/// timestamp gives the same `i64` back.
pub proof fn lemma_i64_round_trip(value: i64)
    ensures
        <Timestamp as vstd::std_specs::convert::TryFromSpec<i64>>::try_from_spec(value) is Ok
            <==> 0 <= value <= LAST_SECOND,
        <Timestamp as vstd::std_specs::convert::TryFromSpec<i64>>::try_from_spec(value) matches Ok(t)
            ==> <i64 as vstd::std_specs::convert::FromSpec<Timestamp>>::from_spec(t) == value,
{
    if 0 <= value <= LAST_SECOND {
        assert(Timestamp(value)@ == value);
    }
}

} // verus!
