//! Installation planning: what to persist and what to write so that an
//! install can always be reversed.
//!
//! The functions here are pure: they compute the rendered file, the
//! installation record to persist, and the content an uninstall must
//! write back. The surrounding application performs the actual
//! filesystem work, in this order: persist the record durably, then
//! replace the system file atomically; an uninstall writes the recorded
//! snapshot back and deletes the record.

use crate::digest::{blake3_hex, blake3_hex_of};
use crate::merge::{entries_view, EffectiveEntry};
use crate::render::{render, spec_render};
use crate::scan::clone_bytes;
use vstd::prelude::*;

verus! {

/// The sole state enabling rollback: the system file's content before
/// the first install of the current cycle, the digest of the installed
/// content, and the install time.
#[derive(Clone, Debug)]
pub struct InstallationRecord {
    pub previous_content: Vec<u8>,
    pub checksum: String,
    pub installed_at: u64,
}

/// Mathematical image of an `InstallationRecord`.
#[verifier::ext_equal]
pub struct SpecRecord {
    pub previous_content: Seq<u8>,
    pub checksum: Seq<char>,
    pub installed_at: u64,
}

impl View for InstallationRecord {
    type V = SpecRecord;

    open spec fn view(&self) -> SpecRecord {
        SpecRecord {
            previous_content: self.previous_content@,
            checksum: self.checksum@,
            installed_at: self.installed_at,
        }
    }
}

/// Whether an engine-authored file is currently installed.
#[derive(Clone, Debug)]
pub enum InstallState {
    NotInstalled,
    Installed(InstallationRecord),
}

/// Mathematical image of an `InstallState`.
#[verifier::ext_equal]
pub enum SpecInstallState {
    NotInstalled,
    Installed(SpecRecord),
}

impl View for InstallState {
    type V = SpecInstallState;

    open spec fn view(&self) -> SpecInstallState {
        match self {
            InstallState::NotInstalled => SpecInstallState::NotInstalled,
            InstallState::Installed(rec) => SpecInstallState::Installed(rec@),
        }
    }
}

/// The record an install persists: the pre-engine snapshot is taken only
/// when no record exists yet, so repeated installs never chain backups;
/// the checksum and timestamp always describe the newest install.
pub open spec fn spec_install_record(
    st: SpecInstallState,
    current: Seq<u8>,
    checksum: Seq<char>,
    now: u64,
) -> SpecRecord {
    match st {
        SpecInstallState::NotInstalled => SpecRecord {
            previous_content: current,
            checksum,
            installed_at: now,
        },
        SpecInstallState::Installed(rec) => SpecRecord {
            previous_content: rec.previous_content,
            checksum,
            installed_at: now,
        },
    }
}

/// What an uninstall writes back: the recorded snapshot.
pub open spec fn spec_restore(st: SpecInstallState) -> Seq<u8>
    recommends
        st is Installed,
{
    st->Installed_0.previous_content
}

/// Everything an install needs before touching the filesystem.
pub struct InstallPlan {
    /// Persist this durably before any write to the system path.
    pub record: InstallationRecord,
    /// Then write this to the system path, atomically.
    pub content: Vec<u8>,
}

/// Plan an installation of the effective entries over a system file
/// currently holding `current`: the rendered content, and the record to
/// persist first.
pub fn plan_install(
    state: &InstallState,
    current: &Vec<u8>,
    entries: &Vec<EffectiveEntry>,
    now: u64,
) -> (p: InstallPlan)
    ensures
        p.content@ == spec_render(entries_view(entries@)),
        p.record@ == spec_install_record(
            state@,
            current@,
            blake3_hex_of(spec_render(entries_view(entries@))),
            now,
        ),
{
    let content = render(entries);
    let checksum = blake3_hex(content.as_slice());
    let record = match state {
        InstallState::NotInstalled => InstallationRecord {
            previous_content: clone_bytes(current),
            checksum,
            installed_at: now,
        },
        InstallState::Installed(rec) => InstallationRecord {
            previous_content: clone_bytes(&rec.previous_content),
            checksum,
            installed_at: now,
        },
    };
    InstallPlan { record, content }
}

/// The installer's filesystem failures. The surrounding application
/// performs the I/O and raises these; each carries the path involved.
/// Any of them leaves the system file intact: the snapshot is read
/// before anything is written, the record is persisted before the system
/// path is touched, and a failed replacement discards only the
/// temporary file.
#[derive(Clone, Debug, PartialEq, Eq)]
pub enum InstallError {
    /// The current system file could not be read for the snapshot.
    SnapshotRead(String),
    /// The installation record could not be persisted; the system path
    /// was not touched at all.
    RecordPersist(String),
    /// The atomic replacement failed; the previous file remains whole.
    AtomicReplace(String),
}

/// An uninstall without a prior install: informational, not a fault.
#[derive(Clone, Copy, Debug, PartialEq, Eq, Structural)]
pub enum UninstallError {
    NotInstalled,
}

/// Plan an uninstall: the snapshot to write back to the system path.
/// Fails, and asks for no write at all, exactly when nothing is
/// installed.
pub fn plan_uninstall(state: &InstallState) -> (r: Result<Vec<u8>, UninstallError>)
    ensures
        match r {
            Ok(c) => state@ is Installed && c@ == spec_restore(state@),
            Err(e) => e == UninstallError::NotInstalled && state@ is NotInstalled,
        },
        r is Ok == state@ is Installed,
{
    match state {
        InstallState::Installed(rec) => Ok(clone_bytes(&rec.previous_content)),
        InstallState::NotInstalled => Err(UninstallError::NotInstalled),
    }
}

/// The installation status the panel shows: the timestamp of the active
/// record, if any.
pub fn installed_at(state: &InstallState) -> (r: Option<u64>)
    ensures
        match r {
            Some(t) => state@ is Installed && t == state@->Installed_0.installed_at,
            None => state@ is NotInstalled,
        },
{
    match state {
        InstallState::Installed(rec) => Some(rec.installed_at),
        InstallState::NotInstalled => None,
    }
}

/// Install then uninstall restores the pre-install content byte for
/// byte, for arbitrary prior file content; and a re-install over an
/// existing record keeps the original snapshot, so a later uninstall
/// still restores the true pre-engine state.
pub proof fn lemma_install_uninstall_roundtrip(
    current: Seq<u8>,
    later: Seq<u8>,
    cks: Seq<char>,
    cks2: Seq<char>,
    now: u64,
    now2: u64,
)
    ensures
        spec_restore(
            SpecInstallState::Installed(
                spec_install_record(SpecInstallState::NotInstalled, current, cks, now),
            ),
        ) == current,
        spec_restore(
            SpecInstallState::Installed(
                spec_install_record(
                    SpecInstallState::Installed(
                        spec_install_record(SpecInstallState::NotInstalled, current, cks, now),
                    ),
                    later,
                    cks2,
                    now2,
                ),
            ),
        ) == current,
{
}

} // verus!
