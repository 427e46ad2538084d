//! How identifiers and points in time are written, as the `uuid` and `chrono`
//! crates write and read them.

use crate::clock::Timestamp;
use vstd::arithmetic::power::pow;
use vstd::prelude::*;

verus! {

/// The hexadecimal digit of a number below sixteen, in lower case.
pub open spec fn hex_digit(d: nat) -> char {
    if d < 10 {
        (48 + d) as char
    } else {
        (87 + d) as char
    }
}

/// How many hyphens stand before a position of a written identifier.
pub open spec fn hyphens_before(i: int) -> int {
    (if i > 8 {
        1int
    } else {
        0
    }) + (if i > 13 {
        1int
    } else {
        0
    }) + (if i > 18 {
        1int
    } else {
        0
    }) + (if i > 23 {
        1int
    } else {
        0
    })
}

/// An identifier as it is written: thirty-two hexadecimal digits, the highest
/// first, in groups of eight, four, four, four and twelve with a hyphen between
/// the groups.
pub open spec fn id_text(id: u128) -> Seq<char> {
    Seq::new(
        36,
        |i: int|
            if i == 8 || i == 13 || i == 18 || i == 23 {
                '-'
            } else {
                hex_digit(((id as int / pow(16, (31 - (i - hyphens_before(i))) as nat)) % 16) as nat)
            },
    )
}

/// The identifier that `uuid::Uuid::parse_str` reads out of a text, where it
/// reads one.
pub uninterp spec fn id_of(text: Seq<char>) -> Option<u128>;

/// `uuid::Uuid::from_u128` makes an identifier of a number, and its `to_string`
/// writes it: in hyphenated form, in lower case. `uuid::Uuid::parse_str` reads
/// that form back.
#[verifier::external_body]
pub(crate) fn write_id(id: u128) -> (r: String)
    ensures
        r@ == id_text(id),
        id_of(r@) == Some(id),
{
    uuid::Uuid::from_u128(id).to_string()
}

/// `uuid::Uuid::parse_str` reads an identifier out of a text, or fails;
/// `as_u128` gives it as a number.
#[verifier::external_body]
pub(crate) fn read_id(text: &str) -> (r: Option<u128>)
    ensures
        r == id_of(text@),
{
    match uuid::Uuid::parse_str(text) {
        Ok(id) => Some(id.as_u128()),
        Err(_) => None,
    }
}

/// What `chrono::DateTime::to_rfc3339` writes for a point in time; nothing where
/// `chrono::DateTime::from_timestamp` knows no such point.
pub uninterp spec fn instant_text(seconds: i64, nanos: u32) -> Option<Seq<char>>;

/// The point in time that `chrono::DateTime::parse_from_rfc3339` reads out of a
/// text, as seconds and nanoseconds in UTC, where it reads one.
pub uninterp spec fn instant_of(text: Seq<char>) -> Option<(i64, u32)>;

/// The second with which the year 0 begins.
pub const FIRST_CIVIL_SECOND: i64 = -62_167_219_200;

/// The second with which the year 9999 ends.
pub const LAST_CIVIL_SECOND: i64 = 253_402_300_799;

/// Whether a point lies within the years 0 to 9999, and not in a leap second.
pub open spec fn civil(t: Timestamp) -> bool {
    FIRST_CIVIL_SECOND <= t.seconds <= LAST_CIVIL_SECOND && t.nanos < 1_000_000_000
}

/// `chrono::DateTime::from_timestamp` makes a point in time of seconds and
/// nanoseconds, where there is such a point, and `to_rfc3339` writes it down to
/// the nanosecond. Within the years 0 to 9999 the written form has the shape
/// that `chrono::DateTime::parse_from_rfc3339` reads, and it reads the same
/// point.
#[verifier::external_body]
pub(crate) fn write_instant(t: Timestamp) -> (r: Option<String>)
    ensures
        crate::text::opt_text(r) == instant_text(t.seconds, t.nanos),
        civil(t) ==> r is Some && instant_of(r->0@) == Some((t.seconds, t.nanos)),
{
    match chrono::DateTime::<chrono::Utc>::from_timestamp(t.seconds, t.nanos) {
        Some(at) => Some(at.to_rfc3339()),
        None => None,
    }
}

/// `chrono::DateTime::parse_from_rfc3339` reads a point in time out of a text,
/// or fails; its `timestamp` and `timestamp_subsec_nanos` give the point in UTC.
#[verifier::external_body]
pub(crate) fn read_instant(text: &str) -> (r: Option<Timestamp>)
    ensures
        r == match instant_of(text@) {
            Some(p) => Some(Timestamp { seconds: p.0, nanos: p.1 }),
            None => None,
        },
{
    match chrono::DateTime::parse_from_rfc3339(text) {
        Ok(at) => Some(Timestamp { seconds: at.timestamp(), nanos: at.timestamp_subsec_nanos() }),
        Err(_) => None,
    }
}

} // verus!
