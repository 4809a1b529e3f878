use yawada::fetch::{
    apply_fetch_outcome, cache_key_for, classify_response, validate_sources, FetchError,
    FetchOutcome, Source, SourceConfigError, MAX_FETCH_BYTES,
};
use yawada::timefmt::last_updated_text;

fn source(url: &[u8]) -> Source {
    Source { url: url.to_vec(), enabled: true, last_attempt: 0, last_success: 0 }
}

#[test]
fn successful_response_hands_the_body_through() {
    let r = classify_response(200, b"0.0.0.0 a.example.com".to_vec(), MAX_FETCH_BYTES);
    assert_eq!(r, FetchOutcome::Fetched(b"0.0.0.0 a.example.com".to_vec()));
}

#[test]
fn non_success_status_fails() {
    let r = classify_response(404, b"not found".to_vec(), MAX_FETCH_BYTES);
    assert_eq!(r, FetchOutcome::Failed(FetchError::Status(404)));
    let r = classify_response(301, Vec::new(), MAX_FETCH_BYTES);
    assert_eq!(r, FetchOutcome::Failed(FetchError::Status(301)));
}

#[test]
fn oversized_body_fails() {
    let r = classify_response(200, vec![b'x'; 11], 10);
    assert_eq!(r, FetchOutcome::Failed(FetchError::SizeExceeded));
    let r = classify_response(200, vec![b'x'; 10], 10);
    assert!(matches!(r, FetchOutcome::Fetched(_)));
}

#[test]
fn cache_key_is_the_digest_of_the_location() {
    // the BLAKE3 digest of the empty input, as published by the format
    assert_eq!(
        cache_key_for(b""),
        "af1349b9f5f9a1a6a0404dea36dcc9499bcb25c9adc112b7cc9a93cae41f3262"
    );
    let k1 = cache_key_for(b"https://example.com/hosts.txt");
    let k2 = cache_key_for(b"https://example.com/hosts.txt");
    let k3 = cache_key_for(b"https://example.com/other.txt");
    assert_eq!(k1.len(), 64);
    assert_eq!(k1, k2);
    assert_ne!(k1, k3);
    assert_ne!(k1.as_bytes(), b"https://example.com/hosts.txt");
}

#[test]
fn fetch_outcome_updates_timestamps() {
    let mut s = source(b"https://example.com/a");
    apply_fetch_outcome(&mut s, false, 50);
    assert_eq!(s.last_attempt, 50);
    assert_eq!(s.last_success, 0);
    apply_fetch_outcome(&mut s, true, 60);
    assert_eq!(s.last_attempt, 60);
    assert_eq!(s.last_success, 60);
    apply_fetch_outcome(&mut s, false, 70);
    assert_eq!(s.last_attempt, 70);
    assert_eq!(s.last_success, 60);
    assert_eq!(s.url, b"https://example.com/a".to_vec());
    assert!(s.enabled);
}

#[test]
fn source_list_validation() {
    let ok = vec![source(b"https://a.example"), source(b"https://b.example")];
    assert!(validate_sources(&ok).is_ok());
    let empty = vec![source(b"https://a.example"), source(b"")];
    assert_eq!(validate_sources(&empty).unwrap_err(), SourceConfigError::EmptyUrl);
    let dup = vec![
        source(b"https://a.example"),
        source(b"https://b.example"),
        source(b"https://a.example"),
    ];
    assert_eq!(
        validate_sources(&dup).unwrap_err(),
        SourceConfigError::DuplicateUrl(b"https://a.example".to_vec())
    );
}

#[test]
fn last_updated_rendering() {
    assert_eq!(last_updated_text(0), "Never");
    assert_eq!(last_updated_text(1700000000), "2023-11-14 22:13:20");
    assert_eq!(last_updated_text(1431648000), "2015-05-15 00:00:00");
}
