//! What a record gets from outside when it is made: an identifier and the
//! time. Neither is a function of the review, so nothing is promised of
//! their values; of the time only that its text is an instant.

use vstd::prelude::*;

verus! {

/// Whether a text is a date and time that `chrono` reads as an instant: RFC
/// 3339, in the relaxed form that its `FromStr` for `DateTime<Utc>` takes.
pub uninterp spec fn is_utc_instant(text: Seq<char>) -> bool;

/// `uuid::Uuid::new_v4`, written in the hyphenated lower-case form. The value
/// is random: the contract promises nothing of it.
#[verifier::external_body]
pub(crate) fn fresh_id() -> (id: String) {
    uuid::Uuid::new_v4().to_string()
}

/// `chrono::Utc::now`, written by `to_rfc3339_opts` as RFC 3339 with `Z` for
/// the offset and as many fractional digits as the instant needs. The value
/// is the machine's clock, of which nothing is promised; what is claimed is
/// that the text is one that `chrono` reads back as an instant, which holds
/// of everything that `to_rfc3339_opts` writes. `Utc::now` panics where that
/// clock stands before 1970.
#[verifier::external_body]
pub(crate) fn utc_now() -> (now: String)
    ensures
        is_utc_instant(now@),
{
    chrono::Utc::now().to_rfc3339_opts(chrono::SecondsFormat::AutoSi, true)
}

/// `<chrono::DateTime<chrono::Utc> as FromStr>::from_str`, asked only whether
/// it succeeds. The answer depends on the text alone.
#[verifier::external_body]
pub(crate) fn parses_as_instant(text: &str) -> (ok: bool)
    ensures
        ok == is_utc_instant(text@),
{
    text.parse::<chrono::DateTime<chrono::Utc>>().is_ok()
}

} // verus!
