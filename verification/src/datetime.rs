//! Timestamps and their textual date forms.
//!
//! A moment in time is carried through this crate as a Unix timestamp in
//! seconds (`i64`). Turning such a timestamp into RFC 2822 text and back is
//! delegated to the `chrono` crate behind the trusted wrappers below; the
//! names `rfc2822_timestamp_of`, `rfc2822_string_of` and `http_date_of`
//! stand for their results in contracts.
use vstd::prelude::*;

verus! {

/// The timestamp of 0000-01-01T00:00:00Z, the first second that the RFC 2822
/// serializer can write (it refuses negative years).
pub const RFC2822_TS_MIN: i64 = -62167219200;

/// The timestamp of 9999-12-31T23:59:59Z, the last second that the RFC 2822
/// serializer can write (it refuses years of more than four digits).
pub const RFC2822_TS_MAX: i64 = 253402300799;

/// Whether `t` lies in the range of timestamps whose dates can be written in
/// RFC 2822 form: years 0 through 9999.
pub open spec fn rfc2822_representable(t: int) -> bool {
    RFC2822_TS_MIN as int <= t <= RFC2822_TS_MAX as int
}

/// The timestamp that the RFC 2822 date text `s` denotes, if `s` parses.
pub uninterp spec fn rfc2822_timestamp_of(s: Seq<char>) -> Option<int>;

/// The RFC 2822 date text of the timestamp `t`, such as
/// `Tue, 29 Oct 2024 16:56:32 +0000`.
pub uninterp spec fn rfc2822_string_of(t: int) -> Seq<char>;

/// The `Date` header text of the timestamp `t`, such as
/// `Tue, 29 Oct 2024 16:56:32 UTC`.
pub uninterp spec fn http_date_of(t: int) -> Seq<char>;

/// Relies on `chrono::DateTime::parse_from_rfc2822` and
/// `chrono::DateTime::timestamp`: parses an RFC 2822 date and returns the
/// Unix timestamp it denotes. The result depends on the text alone.
#[verifier::external_body]
pub fn parse_rfc2822(s: &str) -> (r: Option<i64>)
    ensures
        r is Some <==> rfc2822_timestamp_of(s@) is Some,
        r matches Some(t) ==> rfc2822_timestamp_of(s@) == Some(t as int),
{
    match chrono::DateTime::parse_from_rfc2822(s) {
        Ok(d) => Some(d.timestamp()),
        Err(_) => None,
    }
}

/// Relies on `chrono::DateTime::from_timestamp` and
/// `chrono::DateTime::to_rfc2822`: writes the timestamp `t` as an RFC 2822
/// date with a `+0000` offset. `to_rfc2822` refuses years outside 0..=9999,
/// which the precondition rules out. The result depends on `t` alone.
#[verifier::external_body]
pub fn format_rfc2822(t: i64) -> (r: String)
    requires
        rfc2822_representable(t as int),
    ensures
        r@ == rfc2822_string_of(t as int),
{
    chrono::DateTime::<chrono::Utc>::from_timestamp(t, 0).unwrap().to_rfc2822()
}

/// Relies on `chrono::DateTime::from_timestamp` and `chrono::DateTime::format`
/// with `%a, %d %b %Y %H:%M:%S UTC`: writes the timestamp `t` in the form the
/// `Date` response header uses. The result depends on `t` alone.
#[verifier::external_body]
pub fn format_http_date(t: i64) -> (r: String)
    requires
        rfc2822_representable(t as int),
    ensures
        r@ == http_date_of(t as int),
{
    chrono::DateTime::<chrono::Utc>::from_timestamp(t, 0).unwrap().format(
        "%a, %d %b %Y %H:%M:%S UTC",
    ).to_string()
}

/// Relies on `chrono::Utc::now` and `chrono::DateTime::timestamp`: the Unix
/// timestamp of the current moment. Nothing is promised of the result; it
/// depends on the clock.
#[verifier::external_body]
pub fn now_timestamp() -> i64 {
    chrono::Utc::now().timestamp()
}

} // verus!
