use yawada::install::{installed_at, plan_install, plan_uninstall, InstallState, UninstallError};
use yawada::merge::{Action, EffectiveEntry};

fn entry(host: &[u8], action: Action) -> EffectiveEntry {
    EffectiveEntry { host: host.to_vec(), action, contributors: vec![0] }
}

#[test]
fn install_then_uninstall_restores_bytes() {
    let prior = b"# pre-existing hosts file\n127.0.0.1 localhost\n".to_vec();
    let entries = vec![entry(b"ads.example.com", Action::Blocked)];
    let plan = plan_install(&InstallState::NotInstalled, &prior, &entries, 1000);
    assert_eq!(plan.content, b"0.0.0.0 ads.example.com\n".to_vec());
    assert_eq!(plan.record.previous_content, prior);
    assert_eq!(plan.record.installed_at, 1000);
    let state = InstallState::Installed(plan.record);
    let restored = plan_uninstall(&state).unwrap();
    assert_eq!(restored, prior);
}

#[test]
fn reinstall_keeps_the_original_snapshot() {
    let prior = b"original content".to_vec();
    let entries = vec![entry(b"a.example.com", Action::Blocked)];
    let first = plan_install(&InstallState::NotInstalled, &prior, &entries, 1);
    let state = InstallState::Installed(first.record);
    // the system file now holds engine output; a re-install must not
    // snapshot it
    let engine_written = first.content.clone();
    let entries2 = vec![entry(b"b.example.com", Action::Blocked)];
    let second = plan_install(&state, &engine_written, &entries2, 2);
    assert_eq!(second.record.previous_content, prior);
    assert_eq!(second.record.installed_at, 2);
    let state2 = InstallState::Installed(second.record);
    let restored = plan_uninstall(&state2).unwrap();
    assert_eq!(restored, prior);
}

#[test]
fn uninstall_without_install_is_not_installed() {
    let r = plan_uninstall(&InstallState::NotInstalled);
    assert_eq!(r.unwrap_err(), UninstallError::NotInstalled);
}

#[test]
fn checksum_tracks_the_installed_content() {
    let entries = vec![entry(b"a.example.com", Action::Blocked)];
    let plan = plan_install(&InstallState::NotInstalled, &Vec::new(), &entries, 0);
    assert_eq!(plan.record.checksum.len(), 64);
    assert!(plan.record.checksum.chars().all(|c| c.is_ascii_hexdigit()));
    let entries2 = vec![entry(b"b.example.com", Action::Blocked)];
    let plan2 = plan_install(&InstallState::NotInstalled, &Vec::new(), &entries2, 0);
    assert_ne!(plan.record.checksum, plan2.record.checksum);
}

#[test]
fn status_reports_the_active_record() {
    assert_eq!(installed_at(&InstallState::NotInstalled), None);
    let entries = vec![entry(b"a.example.com", Action::Blocked)];
    let plan = plan_install(&InstallState::NotInstalled, &Vec::new(), &entries, 42);
    assert_eq!(installed_at(&InstallState::Installed(plan.record)), Some(42));
}

#[test]
fn rendering_mixes_actions_correctly() {
    let entries = vec![
        entry(b"blocked.example.com", Action::Blocked),
        entry(b"allowed.example.com", Action::Allowed),
        entry(b"moved.example.com", Action::Redirected(b"10.1.2.3".to_vec())),
    ];
    let plan = plan_install(&InstallState::NotInstalled, &Vec::new(), &entries, 0);
    assert_eq!(
        plan.content,
        b"0.0.0.0 blocked.example.com\n10.1.2.3 moved.example.com\n".to_vec()
    );
}
