use std::collections::HashMap;

use tipjar::checksum::sha256_hex;
use tipjar::crypto::{decrypt, encrypt};
use tipjar::state_exporter::compute_diff;
use tipjar::state_importer::verify_backup;
use tipjar::types::{BackupMetadata, BackupType, ContractState};

fn entries(map: &HashMap<String, String>) -> Vec<(String, String)> {
    map.iter().map(|(k, v)| (k.clone(), v.clone())).collect()
}

fn entries_value(list: &[(String, String)]) -> serde_json::Value {
    let mut m = serde_json::Map::new();
    for (k, v) in list {
        m.insert(k.clone(), serde_json::Value::String(v.clone()));
    }
    serde_json::Value::Object(m)
}

fn state_value(state: &ContractState) -> serde_json::Value {
    let md = &state.metadata;
    let mut meta = serde_json::Map::new();
    meta.insert("created_at".into(), serde_json::Value::String(md.created_at.clone()));
    meta.insert("tool_version".into(), serde_json::Value::String(md.tool_version.clone()));
    meta.insert("checksum".into(), serde_json::Value::String(md.checksum.clone()));
    let kind = match md.backup_type {
        BackupType::Full => "full",
        BackupType::Incremental => "incremental",
    };
    meta.insert("backup_type".into(), serde_json::Value::String(kind.into()));
    meta.insert(
        "base_backup_id".into(),
        match &md.base_backup_id {
            Some(b) => serde_json::Value::String(b.clone()),
            None => serde_json::Value::Null,
        },
    );
    meta.insert("backup_id".into(), serde_json::Value::String(md.backup_id.clone()));
    meta.insert("encrypted".into(), serde_json::Value::Bool(md.encrypted));
    let mut m = serde_json::Map::new();
    m.insert("schema_version".into(), serde_json::Value::from(state.schema_version));
    m.insert("contract_id".into(), serde_json::Value::String(state.contract_id.clone()));
    m.insert("network".into(), serde_json::Value::String(state.network.clone()));
    m.insert("ledger_sequence".into(), serde_json::Value::from(state.ledger_sequence));
    m.insert("ledger_timestamp".into(), serde_json::Value::from(state.ledger_timestamp));
    m.insert("instance_entries".into(), entries_value(&state.instance_entries));
    m.insert("persistent_entries".into(), entries_value(&state.persistent_entries));
    m.insert("metadata".into(), serde_json::Value::Object(meta));
    serde_json::Value::Object(m)
}

fn payload(state: &ContractState) -> String {
    serde_json::to_string_pretty(&state_value(state)).unwrap()
}

fn make_state(contract_id: &str, instance: HashMap<String, String>, persistent: HashMap<String, String>) -> ContractState {
    let backup_id = format!("backup_test_{}", chrono::Utc::now().timestamp());
    let mut state = ContractState {
        schema_version: 1,
        contract_id: contract_id.to_string(),
        network: "testnet".to_string(),
        ledger_sequence: 1000,
        ledger_timestamp: 1_700_000_000,
        instance_entries: entries(&instance),
        persistent_entries: entries(&persistent),
        metadata: BackupMetadata {
            created_at: chrono::Utc::now().to_rfc3339(),
            tool_version: "0.1.0".to_string(),
            checksum: String::new(),
            backup_type: BackupType::Full,
            base_backup_id: None,
            backup_id,
            encrypted: false,
        },
    };
    state.metadata.checksum = sha256_hex(payload(&state).as_bytes());
    state
}

fn verify_state_checksum(state: &ContractState) -> bool {
    let stored = state.metadata.checksum.clone();
    let mut value = state_value(state);
    value["metadata"]["checksum"] = serde_json::Value::String(String::new());
    let json = serde_json::to_string_pretty(&value).unwrap();
    verify_backup(json.as_bytes(), &stored).matches
}

fn has_key(list: &[(String, String)], key: &str) -> bool {
    list.iter().any(|(k, _)| k == key)
}

fn value_of<'a>(list: &'a [(String, String)], key: &str) -> &'a str {
    &list.iter().find(|(k, _)| k == key).expect("key present").1
}

#[test]
fn test_state_export_completeness() {
    let mut instance = HashMap::new();
    instance.insert("Admin".to_string(), "GABC123".to_string());
    instance.insert("Paused".to_string(), "false".to_string());

    let mut persistent = HashMap::new();
    persistent.insert("CreatorBalance(GCREATOR1,TOKEN1)".to_string(), "1000000".to_string());
    persistent.insert("CreatorTotal(GCREATOR1,TOKEN1)".to_string(), "5000000".to_string());
    persistent.insert("TipCounter".to_string(), "42".to_string());

    let state = make_state("CCONTRACT123", instance.clone(), persistent.clone());

    assert_eq!(state.schema_version, 1);
    assert_eq!(state.contract_id, "CCONTRACT123");
    assert_eq!(state.instance_entries.len(), instance.len());
    assert_eq!(state.persistent_entries.len(), persistent.len());
    assert!(has_key(&state.instance_entries, "Admin"));
    assert!(has_key(&state.persistent_entries, "TipCounter"));
}

#[test]
fn test_backup_checksum_valid() {
    let state = make_state("CCONTRACT123", HashMap::new(), HashMap::new());
    assert!(verify_state_checksum(&state), "Checksum should be valid for a freshly created backup");
}

#[test]
fn test_backup_checksum_detects_tampering() {
    let mut state = make_state("CCONTRACT123", HashMap::new(), HashMap::new());
    state.ledger_sequence = 9999;
    assert!(!verify_state_checksum(&state), "Checksum should fail after tampering");
}

#[test]
fn test_backup_serialization_roundtrip() {
    let mut persistent = HashMap::new();
    persistent.insert("CreatorBalance(GCREATOR,TOKEN)".to_string(), "500".to_string());

    let state = make_state("CTEST", HashMap::new(), persistent);
    let json = payload(&state);
    let restored: serde_json::Value = serde_json::from_str(&json).unwrap();

    assert_eq!(restored["contract_id"].as_str().unwrap(), state.contract_id);
    assert_eq!(restored["persistent_entries"], entries_value(&state.persistent_entries));
    assert_eq!(restored["metadata"]["backup_id"].as_str().unwrap(), state.metadata.backup_id);
}

#[test]
fn test_incremental_diff_added_entries() {
    let base = make_state("CTEST", HashMap::new(), HashMap::new());

    let mut new_persistent = HashMap::new();
    new_persistent.insert("CreatorBalance(GNEW,TOKEN)".to_string(), "100".to_string());

    let diff = compute_diff(&base, &Vec::new(), &entries(&new_persistent));
    assert_eq!(diff.0.len(), 1, "Should detect 1 added entry");
    assert!(has_key(&diff.0, "CreatorBalance(GNEW,TOKEN)"));
    assert!(diff.1.is_empty(), "No modified entries");
    assert!(diff.2.is_empty(), "No removed entries");
}

#[test]
fn test_incremental_diff_modified_entries() {
    let mut persistent = HashMap::new();
    persistent.insert("CreatorBalance(GCREATOR,TOKEN)".to_string(), "100".to_string());
    let base = make_state("CTEST", HashMap::new(), persistent);

    let mut new_persistent = HashMap::new();
    new_persistent.insert("CreatorBalance(GCREATOR,TOKEN)".to_string(), "200".to_string());

    let diff = compute_diff(&base, &Vec::new(), &entries(&new_persistent));
    assert!(diff.0.is_empty(), "No added entries");
    assert_eq!(diff.1.len(), 1, "Should detect 1 modified entry");
    assert_eq!(value_of(&diff.1, "CreatorBalance(GCREATOR,TOKEN)"), "200");
}

#[test]
fn test_incremental_diff_removed_entries() {
    let mut persistent = HashMap::new();
    persistent.insert("LockedTip(GCREATOR,1)".to_string(), "xdr_data".to_string());
    let base = make_state("CTEST", HashMap::new(), persistent);

    let diff = compute_diff(&base, &Vec::new(), &Vec::new());
    assert!(diff.0.is_empty());
    assert!(diff.1.is_empty());
    assert_eq!(diff.2.len(), 1, "Should detect 1 removed entry");
    assert_eq!(diff.2[0], "LockedTip(GCREATOR,1)");
}

#[test]
fn test_incremental_diff_no_changes() {
    let mut persistent = HashMap::new();
    persistent.insert("Admin".to_string(), "GADMIN".to_string());
    let base = make_state("CTEST", HashMap::new(), persistent.clone());

    let diff = compute_diff(&base, &Vec::new(), &entries(&persistent));
    assert!(diff.0.is_empty(), "No added");
    assert!(diff.1.is_empty(), "No modified");
    assert!(diff.2.is_empty(), "No removed");
}

#[test]
fn test_backup_encryption_roundtrip() {
    let key: [u8; 32] = rand::random();
    let plaintext = b"sensitive contract state data";

    let encrypted = encrypt(plaintext, &key).ok().expect("Encryption should succeed");
    assert_ne!(encrypted, plaintext, "Encrypted data should differ from plaintext");

    let decrypted = decrypt(&encrypted, &key).ok().expect("Decryption should succeed");
    assert_eq!(decrypted, plaintext, "Decrypted data should match original");
}

#[test]
fn test_backup_decryption_wrong_key_fails() {
    let key: [u8; 32] = rand::random();
    let wrong_key: [u8; 32] = rand::random();
    let plaintext = b"contract state";

    let encrypted = encrypt(plaintext, &key).ok().unwrap();
    let result = decrypt(&encrypted, &wrong_key);
    assert!(result.is_err(), "Decryption with wrong key should fail");
}

#[test]
fn test_backup_metadata_fields() {
    let state = make_state("CTEST", HashMap::new(), HashMap::new());
    assert_eq!(state.metadata.backup_type, BackupType::Full);
    assert!(state.metadata.base_backup_id.is_none());
    assert!(!state.metadata.encrypted);
    assert!(!state.metadata.checksum.is_empty());
    assert_eq!(state.metadata.tool_version, "0.1.0");
}

#[test]
fn applying_a_diff_to_its_base_gives_the_current_state() {
    let mut base_persistent = HashMap::new();
    base_persistent.insert("Keep".to_string(), "1".to_string());
    base_persistent.insert("Change".to_string(), "2".to_string());
    base_persistent.insert("Drop".to_string(), "3".to_string());
    let base = make_state("CTEST", HashMap::new(), base_persistent.clone());

    let mut current = HashMap::new();
    current.insert("Keep".to_string(), "1".to_string());
    current.insert("Change".to_string(), "20".to_string());
    current.insert("New".to_string(), "4".to_string());

    let (added, modified, removed) = compute_diff(&base, &Vec::new(), &entries(&current));
    let mut rebuilt = base_persistent;
    for k in &removed {
        rebuilt.remove(k);
    }
    for (k, v) in added.iter().chain(modified.iter()) {
        rebuilt.insert(k.clone(), v.clone());
    }
    assert_eq!(rebuilt, current);
    assert_eq!(removed, vec!["Drop".to_string()]);
}
