use yawada::engine::{resolve, SourceText};
use yawada::merge::{merge, Action, MergeError, SourceBlocks};
use yawada::overrides::{AllowEntry, RedirectEntry};
use yawada::render::render;

fn src(enabled: bool, hosts: &[&[u8]]) -> SourceBlocks {
    SourceBlocks {
        enabled,
        hosts: hosts.iter().map(|h| h.to_vec()).collect(),
    }
}

fn allow(host: &[u8], enabled: bool) -> AllowEntry {
    AllowEntry { host: host.to_vec(), enabled }
}

fn redirect(host: &[u8], ip: &[u8], enabled: bool) -> RedirectEntry {
    RedirectEntry { host: host.to_vec(), ip: ip.to_vec(), enabled }
}

fn contains_line(rendered: &[u8], line: &[u8]) -> bool {
    rendered.split(|&b| b == b'\n').any(|l| l == line)
}

#[test]
fn single_blocked_host() {
    let sources = vec![src(true, &[b"ads.example.com"])];
    let out = merge(&sources, &vec![], &vec![]).unwrap();
    assert_eq!(out.entries.len(), 1);
    assert_eq!(out.entries[0].host, b"ads.example.com".to_vec());
    assert_eq!(out.entries[0].action, Action::Blocked);
    assert_eq!(out.summary.blocked, 1);
    assert_eq!(out.summary.allowed, 0);
    assert_eq!(out.summary.redirected, 0);
    let rendered = render(&out.entries);
    assert!(contains_line(&rendered, b"0.0.0.0 ads.example.com"));
}

#[test]
fn allow_wins_over_block() {
    let sources = vec![src(true, &[b"ads.example.com"])];
    let allows = vec![allow(b"ads.example.com", true)];
    let out = merge(&sources, &allows, &vec![]).unwrap();
    assert_eq!(out.entries.len(), 1);
    assert_eq!(out.entries[0].action, Action::Allowed);
    assert_eq!(out.summary.allowed, 1);
    assert_eq!(out.summary.blocked, 0);
    let rendered = render(&out.entries);
    assert!(!rendered
        .windows(b"ads.example.com".len())
        .any(|w| w == b"ads.example.com"));
}

#[test]
fn redirect_wins_over_block() {
    let sources = vec![src(true, &[b"track.example.com"])];
    let redirects = vec![redirect(b"track.example.com", b"127.0.0.2", true)];
    let out = merge(&sources, &vec![], &redirects).unwrap();
    assert_eq!(out.entries.len(), 1);
    assert_eq!(
        out.entries[0].action,
        Action::Redirected(b"127.0.0.2".to_vec())
    );
    assert_eq!(out.summary.redirected, 1);
    let rendered = render(&out.entries);
    assert!(contains_line(&rendered, b"127.0.0.2 track.example.com"));
}

#[test]
fn duplicate_across_sources_collapses_with_two_contributors() {
    let sources = vec![
        src(true, &[b"dup.example.com"]),
        src(true, &[b"dup.example.com"]),
    ];
    let out = merge(&sources, &vec![], &vec![]).unwrap();
    assert_eq!(out.entries.len(), 1);
    assert_eq!(out.entries[0].action, Action::Blocked);
    assert_eq!(out.entries[0].contributors, vec![0usize, 1usize]);
    assert_eq!(out.entries[0].contributors.len(), 2);
}

#[test]
fn disabled_source_is_as_if_deleted() {
    let with_disabled = vec![
        src(true, &[b"a.example.com"]),
        src(false, &[b"b.example.com"]),
    ];
    let without = vec![src(true, &[b"a.example.com"])];
    let o1 = merge(&with_disabled, &vec![], &vec![]).unwrap();
    let o2 = merge(&without, &vec![], &vec![]).unwrap();
    let hosts1: Vec<_> = o1.entries.iter().map(|e| e.host.clone()).collect();
    let hosts2: Vec<_> = o2.entries.iter().map(|e| e.host.clone()).collect();
    assert_eq!(hosts1, hosts2);
    assert_eq!(o1.summary, o2.summary);
}

#[test]
fn disabled_allow_is_as_if_deleted() {
    let sources = vec![src(true, &[b"ads.example.com"])];
    let allows = vec![allow(b"ads.example.com", false)];
    let out = merge(&sources, &allows, &vec![]).unwrap();
    assert_eq!(out.entries.len(), 1);
    assert_eq!(out.entries[0].action, Action::Blocked);
}

#[test]
fn disabled_redirect_is_as_if_deleted() {
    let sources = vec![src(true, &[b"ads.example.com"])];
    let redirects = vec![redirect(b"ads.example.com", b"127.0.0.2", false)];
    let out = merge(&sources, &vec![], &redirects).unwrap();
    assert_eq!(out.entries.len(), 1);
    assert_eq!(out.entries[0].action, Action::Blocked);
}

#[test]
fn redirect_wins_even_without_block() {
    let redirects = vec![redirect(b"only.example.com", b"10.0.0.1", true)];
    let out = merge(&vec![], &vec![], &redirects).unwrap();
    assert_eq!(out.entries.len(), 1);
    assert_eq!(
        out.entries[0].action,
        Action::Redirected(b"10.0.0.1".to_vec())
    );
    assert!(out.entries[0].contributors.is_empty());
}

#[test]
fn ambiguous_override_is_reported() {
    let allows = vec![allow(b"x.example.com", true)];
    let redirects = vec![redirect(b"x.example.com", b"127.0.0.2", true)];
    let r = merge(&vec![], &allows, &redirects);
    assert_eq!(
        r.unwrap_err(),
        MergeError::Ambiguous(b"x.example.com".to_vec())
    );
}

#[test]
fn every_hostname_appears_at_most_once() {
    let sources = vec![
        src(true, &[b"a.example.com", b"b.example.com", b"a.example.com"]),
        src(true, &[b"b.example.com", b"c.example.com"]),
    ];
    let allows = vec![allow(b"c.example.com", true), allow(b"d.example.com", true)];
    let redirects = vec![redirect(b"b.example.com", b"127.0.0.2", true)];
    let out = merge(&sources, &allows, &redirects).unwrap();
    let mut hosts: Vec<_> = out.entries.iter().map(|e| e.host.clone()).collect();
    let total = hosts.len();
    hosts.sort();
    hosts.dedup();
    assert_eq!(hosts.len(), total);
    assert_eq!(total, 4);
}

#[test]
fn resolve_runs_the_whole_pipeline() {
    let texts = vec![
        SourceText {
            enabled: true,
            text: b"# list one\n0.0.0.0 ads.example.com\nnot-a-line\n".to_vec(),
        },
        SourceText {
            enabled: false,
            text: b"0.0.0.0 skipped.example.com\n".to_vec(),
        },
    ];
    let res = resolve(&texts, &vec![], &vec![]).unwrap();
    assert_eq!(res.entries.len(), 1);
    assert_eq!(res.entries[0].host, b"ads.example.com".to_vec());
    assert_eq!(res.summary.blocked, 1);
    assert_eq!(res.malformed, 1);
}

#[test]
fn resolve_reports_ambiguity() {
    let texts = vec![SourceText {
        enabled: true,
        text: b"0.0.0.0 x.example.com\n".to_vec(),
    }];
    let allows = vec![allow(b"x.example.com", true)];
    let redirects = vec![redirect(b"x.example.com", b"127.0.0.2", true)];
    let r = resolve(&texts, &allows, &redirects);
    assert!(matches!(r, Err(MergeError::Ambiguous(_))));
}
