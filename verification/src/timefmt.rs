//! Timestamp rendering for the panel: "Never" for a zero timestamp, the
//! UTC clock text otherwise.

use vstd::prelude::*;

verus! {

/// The "%Y-%m-%d %H:%M:%S" UTC rendering of a UNIX timestamp. Named, not
/// defined here: only chrono computes it, as a pure function of the
/// second count.
pub uninterp spec fn datetime_text_of(secs: u64) -> Seq<char>;

/// The largest second count the renderer is promised to accept; far
/// beyond any timestamp the engine produces.
pub const MAX_RENDERED_SECS: u64 = 8000000000000;

/// Relies on chrono's DateTime::from_timestamp and DateTime::format: the
/// UTC rendering depends on the second count alone, and a count within
/// chrono's documented range renders successfully.
#[verifier::external_body]
fn format_utc(secs: u64) -> (r: Option<String>)
    ensures
        r matches Some(s) ==> s@ == datetime_text_of(secs),
        secs <= MAX_RENDERED_SECS ==> r is Some,
{
    let signed = i64::try_from(secs).ok()?;
    let dt = chrono::DateTime::from_timestamp(signed, 0)?;
    Some(dt.format("%Y-%m-%d %H:%M:%S").to_string())
}

/// The text shown for a last-updated timestamp: "Never" when no fetch
/// ever succeeded, the UTC clock text otherwise.
pub fn last_updated_text(secs: u64) -> (r: String)
    ensures
        secs == 0 ==> r@ == "Never"@,
        0 < secs <= MAX_RENDERED_SECS ==> r@ == datetime_text_of(secs),
{
    if secs == 0 {
        return "Never".to_owned();
    }
    match format_utc(secs) {
        Some(s) => s,
        None => "out of range".to_owned(),
    }
}

} // verus!
