//! The wall clock. What it returns depends on the moment of the call, so
//! nothing is promised of which instant it reads, only of how one reading is
//! written out: the logic that uses the values takes them as arguments and
//! is verified for every value.

use vstd::prelude::*;
use crate::notebooks::one_date;

verus! {

/// `chrono::Utc::now().to_rfc3339()`: the current instant as RFC 3339 text.
#[verifier::external_body]
pub(crate) fn timestamp_now() -> String {
    chrono::Utc::now().to_rfc3339()
}

/// `chrono::Local::now()` formatted as `%Y-%m-%d`: today's local date.
#[verifier::external_body]
pub(crate) fn local_date_now() -> String {
    chrono::Local::now().format("%Y-%m-%d").to_string()
}

/// One reading of `chrono::Local::now()`, formatted as `%Y%m%d`, `%Y` and
/// `%m`: the journal title and the year and month folder names. All three
/// come from the same instant, and chrono writes the month and the day as two
/// zero-padded digits, so the title is the year, the month and two day
/// digits. Which date it is depends on the moment of the call and is not
/// stated.
#[verifier::external_body]
pub(crate) fn journal_date_now() -> (r: (String, String, String))
    ensures
        one_date(r.0@, r.1@, r.2@),
{
    let now = chrono::Local::now();
    (now.format("%Y%m%d").to_string(), now.format("%Y").to_string(), now.format("%m").to_string())
}

} // verus!
