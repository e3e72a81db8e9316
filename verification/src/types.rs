//! Records of backup and restore operations.

use vstd::prelude::*;
use crate::state_exporter::{unique_keys, unique_names};

verus! {

/// Whether a backup holds a whole snapshot or only the changes since a base snapshot.
#[derive(Clone, Copy, Debug, PartialEq, Eq, Structural)]
pub enum BackupType {
    Full,
    Incremental,
}

/// Metadata attached to every backup.
pub struct BackupMetadata {
    /// When the backup was created, as an RFC 3339 UTC timestamp.
    pub created_at: String,
    /// Version of the tool that produced the backup.
    pub tool_version: String,
    /// SHA-256 hex digest of the JSON payload taken with this field empty.
    pub checksum: String,
    /// Whether this is a full or incremental backup.
    pub backup_type: BackupType,
    /// For incremental backups: the id of the base snapshot.
    pub base_backup_id: Option<String>,
    /// Unique identifier of this backup (contract prefix and timestamp).
    pub backup_id: String,
    /// Whether the backup file is encrypted.
    pub encrypted: bool,
}

/// A full snapshot of contract state.
pub struct ContractState {
    /// Schema version for forward-compatibility checks.
    pub schema_version: u32,
    /// Contract id (strkey).
    pub contract_id: String,
    /// Network the backup was taken from.
    pub network: String,
    /// Ledger sequence at export time.
    pub ledger_sequence: u64,
    /// Ledger close time at export time.
    pub ledger_timestamp: u64,
    /// Instance storage entries: key and base64 XDR value.
    pub instance_entries: Vec<(String, String)>,
    /// Persistent storage entries: key and base64 XDR value.
    pub persistent_entries: Vec<(String, String)>,
    /// Metadata of this backup.
    pub metadata: BackupMetadata,
}

/// The changes between a base snapshot and the current state.
pub struct IncrementalDiff {
    pub schema_version: u32,
    pub contract_id: String,
    pub base_backup_id: String,
    pub ledger_sequence: u64,
    /// Entries the base snapshot lacks.
    pub added: Vec<(String, String)>,
    /// Entries whose value changed, with their new value.
    pub modified: Vec<(String, String)>,
    /// Keys the current state no longer holds.
    pub removed: Vec<String>,
    pub metadata: BackupMetadata,
}

impl ContractState {
    /// Each entry list names every key at most once, as the maps of a snapshot do.
    pub open spec fn wf(&self) -> bool {
        unique_keys(self.instance_entries@) && unique_keys(self.persistent_entries@)
    }
}

impl IncrementalDiff {
    /// The added and modified lists name every key at most once, and the removed list
    /// names every key at most once, as the maps and key list of a diff do.
    pub open spec fn wf(&self) -> bool {
        unique_keys(self.added@) && unique_keys(self.modified@) && unique_names(self.removed@)
    }
}

/// What a backup run reports.
pub struct BackupResult {
    pub backup_id: String,
    pub backup_type: BackupType,
    pub storage_location: String,
    pub checksum: String,
    pub encrypted: bool,
    pub size_bytes: u64,
}

/// What a restore run reports.
pub struct RestoreResult {
    pub backup_id: String,
    pub entries_restored: usize,
    pub verified: bool,
}

} // verus!
