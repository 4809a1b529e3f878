//! Fetch-side decisions: per-source cache keys, classification of a
//! completed exchange against the status and size rules, source-list
//! validation, and the timestamp bookkeeping of a fetch attempt.
//!
//! The network transfer itself happens in the surrounding application;
//! the functions here decide what to do with whatever came back.

use crate::digest::{blake3_hex, blake3_hex_of};
use crate::scan::{bytes_eq, clone_bytes};
use vstd::prelude::*;

verus! {

/// One configured block-list source.
#[derive(Clone, Debug)]
pub struct Source {
    /// The fetch location.
    pub url: Vec<u8>,
    /// A disabled source is neither fetched nor merged.
    pub enabled: bool,
    /// When a fetch was last attempted, seconds since the UNIX epoch;
    /// zero for never.
    pub last_attempt: u64,
    /// When a fetch last succeeded; zero for never.
    pub last_success: u64,
}

/// Mathematical image of a `Source`.
#[verifier::ext_equal]
pub struct SpecSource {
    pub url: Seq<u8>,
    pub enabled: bool,
    pub last_attempt: u64,
    pub last_success: u64,
}

impl View for Source {
    type V = SpecSource;

    open spec fn view(&self) -> SpecSource {
        SpecSource {
            url: self.url@,
            enabled: self.enabled,
            last_attempt: self.last_attempt,
            last_success: self.last_success,
        }
    }
}

/// The views of a sequence of sources.
pub open spec fn srcs_view(v: Seq<Source>) -> Seq<SpecSource> {
    v.map_values(|s: Source| s@)
}

/// Why a fetch attempt failed. Never fatal to the whole pass: the parser
/// falls back to the source's cached bytes.
#[derive(Clone, Copy, Debug, PartialEq, Eq, Structural)]
pub enum FetchError {
    /// The transfer itself failed.
    Network,
    /// The transfer exceeded its deadline.
    Timeout,
    /// The body exceeded the size cap.
    SizeExceeded,
    /// A non-success HTTP status.
    Status(u16),
}

/// What a fetch attempt produced.
#[derive(Clone, Debug, PartialEq, Eq)]
pub enum FetchOutcome {
    Fetched(Vec<u8>),
    Failed(FetchError),
}

/// The size cap on a fetched body: a malicious or misconfigured endpoint
/// must not consume unbounded memory.
pub const MAX_FETCH_BYTES: usize = 33554432;

/// Classify a completed HTTP exchange: accepted only with a success
/// status and a body within the size cap.
pub fn classify_response(status: u16, body: Vec<u8>, max_len: usize) -> (r: FetchOutcome)
    ensures
        match r {
            FetchOutcome::Fetched(b) => b@ == body@ && 200 <= status < 300 && body@.len()
                <= max_len,
            FetchOutcome::Failed(e) => (e == FetchError::Status(status) && !(200 <= status < 300))
                || (e == FetchError::SizeExceeded && 200 <= status < 300 && body@.len() > max_len),
        },
{
    if !(200 <= status && status < 300) {
        return FetchOutcome::Failed(FetchError::Status(status));
    }
    if body.len() > max_len {
        return FetchOutcome::Failed(FetchError::SizeExceeded);
    }
    FetchOutcome::Fetched(body)
}

/// The per-source cache slot: the digest of the fetch location, not of
/// the content, so the slot is stable across content updates.
pub fn cache_key_for(url: &[u8]) -> (r: String)
    ensures
        r@ == blake3_hex_of(url@),
        r@.len() == 64,
        forall|i: int|
            0 <= i < r@.len() ==> crate::digest::is_lower_hex_char(#[trigger] r@[i]),
{
    blake3_hex(url)
}

/// Record a fetch attempt on the source: the attempt timestamp moves
/// always, the success timestamp only on success; nothing else changes.
pub fn apply_fetch_outcome(src: &mut Source, success: bool, now: u64)
    ensures
        final(src).url == old(src).url,
        final(src).enabled == old(src).enabled,
        final(src).last_attempt == now,
        final(src).last_success == if success {
            now
        } else {
            old(src).last_success
        },
{
    src.last_attempt = now;
    if success {
        src.last_success = now;
    }
}

/// A source-list configuration the engine rejects.
#[derive(Clone, Debug, PartialEq, Eq)]
pub enum SourceConfigError {
    /// A source has an empty fetch location.
    EmptyUrl,
    /// Two sources share a fetch location.
    DuplicateUrl(Vec<u8>),
}

/// Check that every source has a fetch location and no two share one.
pub fn validate_sources(sources: &Vec<Source>) -> (r: Result<(), SourceConfigError>)
    ensures
        match r {
            Ok(()) => (forall|i: int|
                0 <= i < srcs_view(sources@).len() ==> (#[trigger] srcs_view(sources@)[i]).url.len()
                    > 0) && (forall|i: int, j: int|
                0 <= i < j < srcs_view(sources@).len() ==> (#[trigger] srcs_view(sources@)[i]).url
                    != (#[trigger] srcs_view(sources@)[j]).url),
            Err(SourceConfigError::EmptyUrl) => exists|i: int|
                0 <= i < srcs_view(sources@).len() && (#[trigger] srcs_view(sources@)[i]).url.len()
                    == 0,
            Err(SourceConfigError::DuplicateUrl(u)) => exists|i: int, j: int|
                0 <= i < j < srcs_view(sources@).len() && (#[trigger] srcs_view(sources@)[i]).url
                    == u@ && (#[trigger] srcs_view(sources@)[j]).url == u@,
        },
{
    let ghost sv = srcs_view(sources@);
    let mut i: usize = 0;
    while i < sources.len()
        invariant
            i <= sources@.len(),
            sv == srcs_view(sources@),
            forall|k: int| 0 <= k < i ==> (#[trigger] sv[k]).url.len() > 0,
        decreases sources@.len() - i,
    {
        if sources[i].url.len() == 0 {
            proof {
                assert(sv[i as int].url.len() == 0);
            }
            return Err(SourceConfigError::EmptyUrl);
        }
        i += 1;
    }
    let mut i: usize = 0;
    while i < sources.len()
        invariant
            i <= sources@.len(),
            sv == srcs_view(sources@),
            forall|k1: int, k2: int|
                0 <= k1 < k2 < sv.len() && k1 < i ==> (#[trigger] sv[k1]).url != (
                #[trigger] sv[k2]).url,
        decreases sources@.len() - i,
    {
        let mut j: usize = i + 1;
        while j < sources.len()
            invariant
                i < j <= sources@.len(),
                sv == srcs_view(sources@),
                forall|k2: int| i < k2 < j ==> (#[trigger] sv[k2]).url != sv[i as int].url,
            decreases sources@.len() - j,
        {
            if bytes_eq(sources[i].url.as_slice(), sources[j].url.as_slice()) {
                let u = clone_bytes(&sources[i].url);
                proof {
                    assert(sv[i as int].url == u@ && sv[j as int].url == u@);
                }
                return Err(SourceConfigError::DuplicateUrl(u));
            }
            j += 1;
        }
        i += 1;
    }
    Ok(())
}

} // verus!
