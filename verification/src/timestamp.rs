//! Instants in UTC, held as whole seconds since the Unix epoch and the
//! nanoseconds past them, with their RFC 3339 text through `chrono`.
use chrono::{DateTime, SecondsFormat, Utc};
use std::time::{SystemTime, UNIX_EPOCH};
use vstd::prelude::*;

verus! {

/// Whether `chrono::DateTime::from_timestamp(secs, nanos)` gives an instant: the
/// second lies from -262143-01-01T00:00:00Z to 262142-12-31T23:59:59Z (chrono's
/// range of dates), and the nanoseconds are below one second, or below two
/// within a leap second (a second that ends a minute).
pub open spec fn utc_representable(secs: i64, nanos: u32) -> bool {
    &&& -8_334_601_228_800 <= secs <= 8_210_266_876_799
    &&& nanos < 1_000_000_000 || (nanos < 2_000_000_000 && secs % 60 == 59)
}

/// The text that `chrono` writes for the instant `(secs, nanos)` with
/// `to_rfc3339_opts(SecondsFormat::Secs, true)`.
pub uninterp spec fn rfc3339_utc_text(secs: i64, nanos: u32) -> Seq<char>;

/// The instant, as `(secs, nanos)` in UTC, that `chrono::DateTime::parse_from_rfc3339`
/// reads from `text`; `None` where it reports an error.
pub uninterp spec fn rfc3339_instant(text: Seq<char>) -> Option<(i64, u32)>;

/// A character that `chrono` may write in an RFC 3339 text in UTC.
pub open spec fn is_rfc3339_char(c: char) -> bool {
    ||| '0' <= c <= '9'
    ||| c == '-'
    ||| c == '+'
    ||| c == ':'
    ||| c == 'T'
    ||| c == 'Z'
}

/// The seconds from 0000-01-01T00:00:00Z to 9999-12-31T23:59:59Z: the instants
/// whose year RFC 3339 writes with four digits.
pub open spec fn four_digit_year(secs: i64) -> bool {
    -62_167_219_200 <= secs <= 253_402_300_799
}

/// Calls `chrono::DateTime::from_timestamp` and tells whether it gave an instant.
/// Claimed of it, as its source shows: it gives one exactly where
/// `utc_representable` holds.
#[verifier::external_body]
fn chrono_from_timestamp(secs: i64, nanos: u32) -> (res: bool)
    ensures
        res == utc_representable(secs, nanos),
{
    DateTime::from_timestamp(secs, nanos).is_some()
}

/// Reads the system clock: `SystemTime::now().duration_since(UNIX_EPOCH)`, as
/// whole seconds and the nanoseconds past them. Claimed of it: `None` where the
/// clock reads before 1970 (the error of `duration_since`), and nanoseconds below
/// one second (as `Duration::subsec_nanos` documents).
#[verifier::external_body]
fn system_clock() -> (res: Option<(u64, u32)>)
    ensures
        res matches Some(p) ==> p.1 < 1_000_000_000,
{
    match SystemTime::now().duration_since(UNIX_EPOCH) {
        Ok(d) => Some((d.as_secs(), d.subsec_nanos())),
        Err(_) => None,
    }
}

/// The instant of a clock reading (whole seconds since the epoch and the
/// nanoseconds past them): none where there is no reading, or where the seconds
/// exceed `i64` or chrono's range.
pub open spec fn clock_instant(reading: Option<(u64, u32)>) -> Option<(i64, u32)> {
    match reading {
        None => None,
        Some((secs, nanos)) => if secs <= i64::MAX && utc_representable(secs as i64, nanos) {
            Some((secs as i64, nanos))
        } else {
            None
        },
    }
}

/// Whether `reading` is one that the system clock gave: a value returned by a
/// call of `system_clock`. Two readings of the clock may differ; nothing else is
/// said of which one a call returns.
pub closed spec fn is_clock_reading(reading: Option<(u64, u32)>) -> bool {
    call_ensures(system_clock, (), reading)
}

/// Whether `ts` is the instant of some reading of the system clock.
pub open spec fn read_from_clock(ts: (i64, u32)) -> bool {
    exists|r: Option<(u64, u32)>| #[trigger] is_clock_reading(r) && clock_instant(r) == Some(ts)
}

/// The system clock could not give an instant: it reads before 1970, or later
/// than chrono can represent.
#[derive(Clone, Copy, Debug, PartialEq, Eq, Structural)]
pub struct ClockError;

/// Calls `chrono::DateTime::to_rfc3339_opts(SecondsFormat::Secs, true)` on the
/// instant `(secs, nanos)`. Claimed of it: the text is named by `rfc3339_utc_text`,
/// is made of digits and `-+:TZ` only, and, for an instant with a four-digit year
/// and no leap second, `parse_from_rfc3339` reads it back as the same whole second.
#[verifier::external_body]
fn chrono_to_rfc3339(secs: i64, nanos: u32) -> (res: String)
    requires
        utc_representable(secs, nanos),
    ensures
        res@ == rfc3339_utc_text(secs, nanos),
        res@.len() > 0,
        forall|i: int| 0 <= i < res@.len() ==> is_rfc3339_char(#[trigger] res@[i]),
        nanos < 1_000_000_000 && four_digit_year(secs) ==> rfc3339_instant(res@) == Some(
            (secs, 0u32),
        ),
{
    match DateTime::from_timestamp(secs, nanos) {
        Some(t) => t.to_rfc3339_opts(SecondsFormat::Secs, true),
        None => String::new(),
    }
}

/// Calls `chrono::DateTime::parse_from_rfc3339` and takes the instant in UTC.
/// Claimed of it: the outcome is named by `rfc3339_instant`, and an instant it
/// gives is one that `from_timestamp` accepts.
#[verifier::external_body]
fn chrono_parse_rfc3339(text: &str) -> (res: Option<(i64, u32)>)
    ensures
        res == rfc3339_instant(text@),
        res matches Some(p) ==> utc_representable(p.0, p.1),
{
    match DateTime::parse_from_rfc3339(text) {
        Ok(t) => {
            let u = t.with_timezone(&Utc);
            Some((u.timestamp(), u.timestamp_subsec_nanos()))
        },
        Err(_) => None,
    }
}

/// An instant in UTC: whole seconds since 1970-01-01T00:00:00Z and the
/// nanoseconds past them (above one second only within a leap second).
#[derive(Clone, Copy, Debug, PartialEq, Eq, Structural)]
pub struct Timestamp {
    secs: i64,
    nanos: u32,
}

impl View for Timestamp {
    type V = (i64, u32);

    closed spec fn view(&self) -> (i64, u32) {
        (self.secs, self.nanos)
    }
}

impl Timestamp {
    #[verifier::type_invariant]
    spec fn representable(self) -> bool {
        utc_representable(self.secs, self.nanos)
    }

    /// The current instant, where the system clock gives one that chrono can
    /// represent (what `chrono::Utc::now` gives, without its panic on a clock
    /// before 1970): the clock's reading, taken as `from_clock` takes it.
    pub fn now() -> (res: Result<Timestamp, ClockError>)
        ensures
            res matches Ok(t) ==> t@.0 >= 0 && t@.1 < 1_000_000_000 && utc_representable(t@.0, t@.1),
            res matches Ok(t) ==> read_from_clock(t@),
            exists|r: Option<(u64, u32)>|
                #[trigger] is_clock_reading(r) && match res {
                    Ok(t) => clock_instant(r) == Some(t@),
                    Err(_) => clock_instant(r) is None,
                },
    {
        let r = system_clock();
        let res = Self::from_clock(r);
        assert(is_clock_reading(r));
        res
    }

    /// The instant of a clock reading: whole seconds since the epoch and the
    /// nanoseconds past them, or `None` where the clock reads before 1970. Fails
    /// where there is no reading, or where the seconds do not fit in `i64` or lie
    /// beyond what chrono can represent.
    pub fn from_clock(reading: Option<(u64, u32)>) -> (res: Result<Timestamp, ClockError>)
        ensures
            match res {
                Ok(t) => clock_instant(reading) == Some(t@),
                Err(_) => clock_instant(reading) is None,
            },
            match reading {
                None => res is Err,
                Some((secs, nanos)) => {
                    &&& res is Ok <==> (secs <= i64::MAX && utc_representable(secs as i64, nanos))
                    &&& res matches Ok(t) ==> t@ == (secs as i64, nanos) && t@.0 == secs
                },
            },
    {
        match reading {
            None => Err(ClockError),
            Some((secs, nanos)) => {
                if secs > 9_223_372_036_854_775_807u64 {
                    return Err(ClockError);
                }
                match Self::from_unix(secs as i64, nanos) {
                    Some(t) => Ok(t),
                    None => Err(ClockError),
                }
            },
        }
    }

    /// The instant `nanos` nanoseconds after `secs` seconds since the epoch, where
    /// chrono can represent it.
    pub fn from_unix(secs: i64, nanos: u32) -> (res: Option<Timestamp>)
        ensures
            res is Some == utc_representable(secs, nanos),
            res matches Some(t) ==> t@ == (secs, nanos),
    {
        if chrono_from_timestamp(secs, nanos) {
            Some(Timestamp { secs, nanos })
        } else {
            None
        }
    }

    /// The instant that an RFC 3339 text denotes.
    pub fn parse_rfc3339(text: &str) -> (res: Option<Timestamp>)
        ensures
            res is Some == rfc3339_instant(text@) is Some,
            res matches Some(t) ==> Some(t@) == rfc3339_instant(text@),
    {
        match chrono_parse_rfc3339(text) {
            Some((secs, nanos)) => Some(Timestamp { secs, nanos }),
            None => None,
        }
    }

    /// The RFC 3339 text of this instant in whole seconds, with `Z` for UTC
    /// (such as `2026-02-24T10:15:30Z`).
    pub fn to_rfc3339(&self) -> (res: String)
        ensures
            res@ == rfc3339_utc_text(self@.0, self@.1),
            res@.len() > 0,
            forall|i: int| 0 <= i < res@.len() ==> is_rfc3339_char(#[trigger] res@[i]),
            self@.1 < 1_000_000_000 && four_digit_year(self@.0) ==> rfc3339_instant(res@)
                == Some((self@.0, 0u32)),
    {
        proof {
            use_type_invariant(self);
        }
        chrono_to_rfc3339(self.secs, self.nanos)
    }

    /// Seconds since 1970-01-01T00:00:00Z.
    pub fn timestamp(&self) -> (res: i64)
        ensures
            res == self@.0,
    {
        self.secs
    }

    /// Nanoseconds past the whole second.
    pub fn timestamp_subsec_nanos(&self) -> (res: u32)
        ensures
            res == self@.1,
    {
        self.nanos
    }
}

} // verus!
