use yawada::overrides::{OverrideError, OverrideStore};

#[test]
fn add_and_read_back() {
    let mut store = OverrideStore::new();
    store.add_allow(b"Ads.Example.COM.", true).unwrap();
    store.add_redirect(b"track.example.com", b"127.0.0.2", true).unwrap();
    assert_eq!(store.allows().len(), 1);
    assert_eq!(store.allows()[0].host, b"ads.example.com".to_vec());
    assert!(store.allows()[0].enabled);
    assert_eq!(store.redirects().len(), 1);
    assert_eq!(store.redirects()[0].ip, b"127.0.0.2".to_vec());
}

#[test]
fn duplicate_within_allow_set_is_a_conflict() {
    let mut store = OverrideStore::new();
    store.add_allow(b"a.example.com", true).unwrap();
    let r = store.add_allow(b"A.Example.Com", false);
    assert_eq!(r.unwrap_err(), OverrideError::Conflict(b"a.example.com".to_vec()));
    assert_eq!(store.allows().len(), 1);
}

#[test]
fn duplicate_within_redirect_set_is_a_conflict() {
    let mut store = OverrideStore::new();
    store.add_redirect(b"r.example.com", b"10.0.0.1", true).unwrap();
    let r = store.add_redirect(b"r.example.com", b"10.0.0.2", true);
    assert_eq!(r.unwrap_err(), OverrideError::Conflict(b"r.example.com".to_vec()));
    assert_eq!(store.redirects().len(), 1);
}

#[test]
fn ambiguous_hostname_across_sets_is_a_conflict() {
    let mut store = OverrideStore::new();
    store.add_allow(b"x.example.com", true).unwrap();
    let r = store.add_redirect(b"x.example.com", b"127.0.0.2", true);
    assert_eq!(r.unwrap_err(), OverrideError::Conflict(b"x.example.com".to_vec()));
    let r = store.add_allow(b"x.example.com", false);
    assert!(matches!(r, Err(OverrideError::Conflict(_))));
}

#[test]
fn empty_hostname_is_rejected() {
    let mut store = OverrideStore::new();
    assert_eq!(store.add_allow(b"", true).unwrap_err(), OverrideError::EmptyHostname);
    assert_eq!(store.add_redirect(b".", b"1.2.3.4", true).unwrap_err(), OverrideError::EmptyHostname);
    assert_eq!(store.allows().len(), 0);
    assert_eq!(store.redirects().len(), 0);
}

#[test]
fn remove_and_toggle() {
    let mut store = OverrideStore::new();
    store.add_allow(b"a.example.com", true).unwrap();
    store.add_allow(b"b.example.com", true).unwrap();
    store.set_allow_enabled(1, false);
    assert!(!store.allows()[1].enabled);
    store.remove_allow(0);
    assert_eq!(store.allows().len(), 1);
    assert_eq!(store.allows()[0].host, b"b.example.com".to_vec());
    // removing frees the hostname for the other set
    store.add_redirect(b"a.example.com", b"127.0.0.2", true).unwrap();
    store.set_redirect_enabled(0, false);
    assert!(!store.redirects()[0].enabled);
    store.remove_redirect(0);
    assert_eq!(store.redirects().len(), 0);
}
