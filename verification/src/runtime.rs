//! The engine's only effects: fresh identifiers and the clock, each behind a
//! small trusted wrapper. Everything downstream of these values is verified
//! for every outcome the wrappers allow.

use crate::dates::Date;
use vstd::prelude::*;

verus! {

/// Relies on uuid::Uuid::new_v4 and its default hyphenated text form:
/// a freshly drawn random identifier, written as 36 characters. Nothing is
/// promised about which identifier comes back.
#[verifier::external_body]
pub fn fresh_id() -> (r: String)
    ensures
        r@.len() == 36,
{
    uuid::Uuid::new_v4().to_string()
}

/// Relies on chrono's Utc::now and the Datelike accessors: the current UTC
/// calendar day as (year, month, day), with the month in 1..=12 and the day
/// in 1..=31 as chrono documents.
#[verifier::external_body]
fn utc_today_parts() -> (r: (i64, u32, u32))
    ensures
        1 <= r.1 <= 12,
        1 <= r.2 <= 31,
{
    let d = chrono::Utc::now().date_naive();
    (chrono::Datelike::year(&d) as i64, chrono::Datelike::month(&d), chrono::Datelike::day(&d))
}

/// The current UTC calendar day. A clock reading outside the engine's
/// four-digit year range, or one whose day does not fit its month, is
/// replaced by the Unix epoch day rather than trusted.
pub fn today_utc() -> (r: Date)
    ensures
        r.wf(),
{
    let (y, m, d) = utc_today_parts();
    let epoch = Date { year: 1970, month: 1, day: 1 };
    if 0 <= y && y <= 9999 {
        let date = Date { year: y as u32, month: m, day: d };
        if date.valid() {
            date
        } else {
            epoch
        }
    } else {
        epoch
    }
}

/// Relies on chrono's DateTime::to_rfc3339 on Utc::now: the current moment
/// written as an RFC 3339 timestamp such as `1996-12-19T16:39:57+00:00`,
/// which always carries at least the 19 characters of its date-time core.
#[verifier::external_body]
pub fn now_timestamp() -> (r: String)
    ensures
        r@.len() >= 19,
{
    chrono::Utc::now().to_rfc3339()
}

} // verus!
