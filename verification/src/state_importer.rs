//! Restore of contract state from a backup: integrity check, decryption key, the
//! entries a restore writes, and the command that writes one entry.

use vstd::prelude::*;
use crate::text::{owned, byte_prefix, prefix_len};
use crate::checksum::{checksum_of, sha256_hex};
use crate::crypto::{KeyError, spec_key_from_hex, key_from_hex};
use crate::types::{ContractState, IncrementalDiff, RestoreResult};
use crate::state_exporter::entries_view;
use vstd::utf8::{encode_utf8, is_char_boundary};
use vstd::string::StringSliceAdditionalSpecFns;

verus! {

/// The outcome of an integrity check: the checksum recomputed from the payload, and
/// whether it is the one the backup stores.
pub struct BackupCheck {
    pub computed: String,
    pub matches: bool,
}

/// Checks a backup's integrity: `payload` is the backup serialised with an empty checksum
/// field, `stored_checksum` the checksum the backup carries.
pub fn verify_backup(payload: &[u8], stored_checksum: &str) -> (r: BackupCheck)
    ensures
        r.computed@ == checksum_of(payload@),
        r.matches == (checksum_of(payload@) == stored_checksum@),
{
    let computed = sha256_hex(payload);
    let matches = crate::text::str_eq(computed.as_str(), stored_checksum);
    BackupCheck { computed, matches }
}

/// The decryption key for a restore: the given hexadecimal key, which is required.
pub fn resolve_key(opt: &Option<String>) -> (r: Result<[u8; 32], KeyError>)
    ensures
        match opt {
            Some(text) => match r {
                Ok(k) => spec_key_from_hex(text@) == Ok::<Seq<u8>, KeyError>(k@),
                Err(e) => spec_key_from_hex(text@) == Err::<Seq<u8>, KeyError>(e),
            },
            None => r == Err::<[u8; 32], KeyError>(KeyError::KeyRequired),
        },
{
    match opt {
        Some(text) => key_from_hex(text.as_str()),
        None => Err(KeyError::KeyRequired),
    }
}

fn copy_entries(into: &mut Vec<(String, String)>, from: &Vec<(String, String)>)
    ensures
        entries_view(final(into)@) == entries_view(old(into)@) + entries_view(from@),
{
    let ghost start = into@;
    for i in 0..from.len()
        invariant
            entries_view(into@) == entries_view(start) + entries_view(from@.take(i as int)),
    {
        let ghost before = into@;
        into.push((from[i].0.clone(), from[i].1.clone()));
        assert(entries_view(into@) =~= entries_view(before).push((from@[i as int].0@, from@[i as int].1@)));
        assert(entries_view(from@.take(i + 1)) =~= entries_view(from@.take(i as int)).push(
            (from@[i as int].0@, from@[i as int].1@),
        ));
    }
    assert(from@.take(from@.len() as int) =~= from@);
}

/// The entries a full restore writes: the instance entries, then the persistent ones.
pub fn full_restore_entries(state: &ContractState) -> (r: Vec<(String, String)>)
    ensures
        entries_view(r@) == entries_view(state.instance_entries@) + entries_view(state.persistent_entries@),
{
    let mut all: Vec<(String, String)> = Vec::new();
    assert(entries_view(all@) =~= Seq::empty());
    copy_entries(&mut all, &state.instance_entries);
    copy_entries(&mut all, &state.persistent_entries);
    all
}

/// The entries an incremental restore writes: the added entries, then the modified ones;
/// removed keys are not written.
pub fn incremental_restore_entries(diff: &IncrementalDiff) -> (r: Vec<(String, String)>)
    ensures
        entries_view(r@) == entries_view(diff.added@) + entries_view(diff.modified@),
{
    let mut all: Vec<(String, String)> = Vec::new();
    assert(entries_view(all@) =~= Seq::empty());
    copy_entries(&mut all, &diff.added);
    copy_entries(&mut all, &diff.modified);
    all
}

/// What a completed restore reports: every entry written, integrity verified.
pub fn restore_result(backup_id: &str, entries_restored: usize) -> (r: RestoreResult)
    ensures
        r.backup_id@ == backup_id@,
        r.entries_restored == entries_restored,
        r.verified,
{
    RestoreResult { backup_id: owned(backup_id), entries_restored, verified: true }
}

/// What a dry run shows of a key: its first 40 bytes (all of it when shorter).
pub fn dry_run_preview(key_xdr: &str) -> (r: String)
    requires
        key_xdr.spec_bytes().len() <= usize::MAX,
        is_char_boundary(key_xdr.spec_bytes(), prefix_len(key_xdr, 40)),
    ensures
        encode_utf8(r@) == key_xdr.spec_bytes().take(prefix_len(key_xdr, 40)),
{
    byte_prefix(key_xdr, 40)
}

/// The arguments of the `stellar` command that restores one entry.
pub open spec fn spec_restore_args(
    contract_id: Seq<char>,
    source: Seq<char>,
    network: Seq<char>,
    key_xdr: Seq<char>,
    value_xdr: Seq<char>,
) -> Seq<Seq<char>> {
    seq![
        "contract"@,
        "invoke"@,
        "--id"@,
        contract_id,
        "--source"@,
        source,
        "--network"@,
        network,
        "--"@,
        "restore_entry"@,
        "--key"@,
        key_xdr,
        "--value"@,
        value_xdr,
    ]
}

/// The views of a list of strings.
pub open spec fn strings_view(s: Seq<String>) -> Seq<Seq<char>> {
    s.map_values(|x: String| x@)
}

/// The arguments of the `stellar` command that restores one entry.
pub fn restore_command_args(contract_id: &str, source: &str, network: &str, key_xdr: &str, value_xdr: &str) -> (r: Vec<String>)
    ensures
        strings_view(r@) == spec_restore_args(contract_id@, source@, network@, key_xdr@, value_xdr@),
{
    let mut v: Vec<String> = Vec::new();
    v.push(owned("contract"));
    v.push(owned("invoke"));
    v.push(owned("--id"));
    v.push(owned(contract_id));
    v.push(owned("--source"));
    v.push(owned(source));
    v.push(owned("--network"));
    v.push(owned(network));
    v.push(owned("--"));
    v.push(owned("restore_entry"));
    v.push(owned("--key"));
    v.push(owned(key_xdr));
    v.push(owned("--value"));
    v.push(owned(value_xdr));
    assert(strings_view(v@) =~= spec_restore_args(contract_id@, source@, network@, key_xdr@, value_xdr@));
    v
}

} // verus!
