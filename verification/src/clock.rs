//! Calls into `chrono`: reading the date stamp of snapshot file names,
//! reading the time of the last automatic scan, and taking the local time.

use vstd::prelude::*;

verus! {

/// What `NaiveDateTime::parse_from_str(text, "%Y%m%d%H%M")` gives for `text`:
/// on success the parsed time written as `NaiveDateTime` displays it
/// (`YYYY-MM-DD HH:MM:SS`) and as `format("%Y-%m-%d")` writes it; on failure
/// chrono's message.
pub uninterp spec fn minute_stamp_texts(text: Seq<char>) -> Result<(Seq<char>, Seq<char>), Seq<char>>;

/// Reads a `YYYYmmddHHMM` stamp with `NaiveDateTime::parse_from_str`.
/// Trusted: the result is `minute_stamp_texts` of the text; the parse is a
/// function of the text alone.
#[verifier::external_body]
pub(crate) fn parse_minute_stamp(text: &str) -> (r: Result<(String, String), String>)
    ensures
        match r {
            Ok((shown, day)) => minute_stamp_texts(text@) == Ok::<(Seq<char>, Seq<char>), Seq<char>>((shown@, day@)),
            Err(msg) => minute_stamp_texts(text@) == Err::<(Seq<char>, Seq<char>), Seq<char>>(msg@),
        },
{
    match chrono::NaiveDateTime::parse_from_str(text, "%Y%m%d%H%M") {
        Ok(t) => Ok((t.to_string(), t.format("%Y-%m-%d").to_string())),
        Err(e) => Err(e.to_string()),
    }
}


/// Text as chrono writes a `%Y%m%d%H%M` stamp: decimal digits, with a sign
/// before the year when the year is outside `0..=9999`.
pub open spec fn stamp_chars(s: Seq<char>) -> bool {
    forall|i: int| 0 <= i < s.len() ==> ('0' <= #[trigger] s[i] <= '9' || s[i] == '+' || s[i] == '-')
}

/// A `%Y%m%d%H%M` stamp and an RFC 3339 text name the same minute: the
/// text begins with the stamp's year, month, day, hour and minute, written
/// `year-month-dayThour:minute`. The year is what precedes the last eight
/// characters of the stamp.
pub open spec fn same_local_minute(stamp: Seq<char>, rfc: Seq<char>) -> bool {
    let n: int = stamp.len() - 8;
    &&& stamp.len() >= 12
    &&& rfc.len() >= stamp.len() + 4
    &&& rfc.take(stamp.len() + 4int) == stamp.take(n) + seq!['-'] + stamp.subrange(n, n + 2) + seq!['-']
        + stamp.subrange(n + 2, n + 4) + seq!['T'] + stamp.subrange(n + 4, n + 6) + seq![':']
        + stamp.subrange(n + 6, n + 8)
}

/// The local time now, as the `YYYYmmddHHMM` stamp of snapshot file names
/// and as RFC 3339 text (`Local::now`, `format`, `to_rfc3339`).
/// Trusted: the stamp is made of digits and at most a sign, as chrono's
/// `%Y`, `%m`, `%d`, `%H` and `%M` write them, and the RFC 3339 text holds
/// the `T` that chrono writes between date and time. Both are written from
/// the same reading of the clock: `format` and `to_rfc3339` both take the
/// local date and time of that reading, write the year alike (four digits,
/// with a sign outside `0..=9999`) and month, day, hour and minute as two
/// digits each, so they name the same minute. Which minute depends on the
/// clock and the time zone and is left unsaid; so is whether the RFC 3339
/// text reads back, which fails for years beyond 9999.
#[verifier::external_body]
pub(crate) fn local_now_stamps() -> (r: (String, String))
    ensures
        stamp_chars(r.0@),
        r.1@.contains('T'),
        same_local_minute(r.0@, r.1@),
{
    let now = chrono::Local::now();
    (now.format("%Y%m%d%H%M").to_string(), now.to_rfc3339())
}


/// Whether `DateTime::parse_from_rfc3339` accepts the text.
pub uninterp spec fn rfc3339_parses(text: Seq<char>) -> bool;

/// The largest number of days `TimeDelta::days` accepts, either way; it
/// panics beyond.
pub const MAX_DELTA_DAYS: i64 = 106_751_991_167;

/// A span of time as `TimeDelta` gives it: `secs` whole seconds
/// (`num_seconds`) and `nanos` nanoseconds more (`subsec_nanos`), so that
/// the span is `secs * 1_000_000_000 + nanos` nanoseconds.
#[derive(Clone, Copy, Debug, PartialEq, Eq, Structural)]
pub struct Elapsed {
    pub secs: i64,
    pub nanos: i32,
}

/// The time from the RFC 3339 time `last` to now
/// (`DateTime::parse_from_rfc3339`, `Utc::now`, `signed_duration_since`);
/// `None` when the text is not an RFC 3339 time.
/// Trusted: the result is present exactly when the text parses; its value
/// depends on the clock and is left unsaid.
#[verifier::external_body]
pub(crate) fn elapsed_since(last: &str) -> (r: Option<Elapsed>)
    ensures
        r is Some <==> rfc3339_parses(last@),
{
    match chrono::DateTime::parse_from_rfc3339(last) {
        Ok(t) => {
            let span = chrono::Utc::now().signed_duration_since(t);
            Some(Elapsed { secs: span.num_seconds(), nanos: span.subsec_nanos() })
        },
        Err(_) => None,
    }
}

/// The UTC time now as RFC 3339 text (`Utc::now().to_rfc3339()`).
/// Trusted for nothing: the result depends on the clock.
#[verifier::external_body]
pub(crate) fn utc_now_rfc3339() -> (r: String) {
    chrono::Utc::now().to_rfc3339()
}

} // verus!
