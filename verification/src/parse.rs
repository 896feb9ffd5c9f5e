//! Numbers and times, between text and value.

use vstd::prelude::*;

use crate::text::unsigned_value;

verus! {

/// What `std` says of a text that is not the writing of a 16-bit unsigned number.
pub uninterp spec fn port_error(text: Seq<char>) -> Seq<char>;

/// The RFC 3339 writing, in UTC and to the second, of the moment that lies `seconds` and
/// `nanoseconds` after the start of 1970. `None` where the calendar does not reach that moment, where
/// there are two thousand million nanoseconds or more, and where there are a thousand million or more
/// in a second that is not the last of its minute.
pub uninterp spec fn rfc3339_utc(seconds: i64, nanoseconds: u32) -> Option<Seq<char>>;

/// `std`'s `str::parse` to `u16` takes an optional `+` followed by decimal digits alone, whose value
/// fits; it refuses everything else with a message that depends on the text.
#[verifier::external_body]
pub(crate) fn parse_u16(text: &str) -> (parsed: Result<u16, String>)
    ensures
        match parsed {
            Ok(n) => unsigned_value(text@) == Some(n as nat),
            Err(message) => {
                &&& match unsigned_value(text@) {
                    Some(n) => n > u16::MAX,
                    None => true,
                }
                &&& message@ == port_error(text@)
            },
        },
{
    text.parse::<u16>().map_err(|e| e.to_string())
}

/// `std`'s `str::parse` to `u64` takes an optional `+` followed by decimal digits alone, whose value
/// fits; it refuses everything else.
#[verifier::external_body]
pub(crate) fn parse_u64(text: &str) -> (parsed: Option<u64>)
    ensures
        match parsed {
            Some(n) => unsigned_value(text@) == Some(n as nat),
            None => match unsigned_value(text@) {
                Some(n) => n > u64::MAX,
                None => true,
            },
        },
{
    text.parse::<u64>().ok()
}

/// `chrono::DateTime::from_timestamp` finds the moment, where there is one, and
/// `to_rfc3339_opts` writes it with whole seconds and a final `Z`. Which text that is is not stated.
#[verifier::external_body]
pub(crate) fn rfc3339_seconds(seconds: i64, nanoseconds: u32) -> (written: Option<String>)
    ensures
        match written {
            Some(text) => rfc3339_utc(seconds, nanoseconds) == Some(text@),
            None => rfc3339_utc(seconds, nanoseconds) is None,
        },
{
    chrono::DateTime::from_timestamp(seconds, nanoseconds).map(
        |moment| moment.to_rfc3339_opts(chrono::SecondsFormat::Secs, true),
    )
}

} // verus!
