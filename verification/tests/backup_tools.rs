use aes_gcm::aead::{Aead, KeyInit};
use base64::Engine;
use tipjar::backup_scheduler::{backups_to_prune, exporter_args, is_json_file_name, BackupFile};
use tipjar::checksum::{sha256_hex, verify};
use tipjar::crypto::{decrypt, key_from_hex, CryptoError, KeyError};
use tipjar::json::JsonValue;
use tipjar::state_exporter::{
    dedup_entries, embed_checksum, export_metadata, incremental_diff, snapshot, TOOL_VERSION,
    backup_id_for, build_contract_instance_key, contract_data_request, ledger_entries_from, ledger_entries_request,
    result_u64, rpc_url_for,
};
use tipjar::state_importer::{dry_run_preview, restore_command_args, restore_result};
use tipjar::storage::{
    backup_source, ipfs_add_url, ipfs_cid_from_response, ipfs_download_url, ipfs_uri, s3_download_url,
    s3_upload_target, BackupSource, IpfsConfig, S3Config,
};
use tipjar::text::{hex_decode_str, hex_encode_bytes, parse_u64};
use tipjar::types::BackupType;

fn s(text: &str) -> JsonValue {
    JsonValue::Str(text.to_string())
}

fn obj(members: Vec<(&str, JsonValue)>) -> JsonValue {
    JsonValue::Object(members.into_iter().map(|(k, v)| (k.to_string(), v)).collect())
}

fn file(name: &str, secs: u64, nanos: u32) -> BackupFile {
    BackupFile { name: name.to_string(), modified_secs: secs, modified_nanos: nanos }
}

#[test]
fn sha256_known_digest() {
    assert_eq!(sha256_hex(b"abc"), "ba7816bf8f01cfea414140de5dae2223b00361a396177a9cb410ff61f20015ad");
    assert!(verify(b"abc", "ba7816bf8f01cfea414140de5dae2223b00361a396177a9cb410ff61f20015ad"));
    assert!(!verify(b"abd", "ba7816bf8f01cfea414140de5dae2223b00361a396177a9cb410ff61f20015ad"));
    assert!(!verify(b"abc", "BA7816BF8F01CFEA414140DE5DAE2223B00361A396177A9CB410FF61F20015AD"));
}

#[test]
fn hex_matches_hex_crate() {
    let data: Vec<u8> = (0u8..=255).collect();
    assert_eq!(hex_encode_bytes(&data), hex::encode(&data));
    assert_eq!(hex_decode_str("00ff10Ab"), Some(vec![0, 255, 16, 171]));
    assert_eq!(hex_decode_str("abc"), None);
    assert_eq!(hex_decode_str("zz"), None);
}

#[test]
fn parse_u64_like_std() {
    for text in ["0", "+7", "18446744073709551615", "18446744073709551616", "", "+", "-1", "1a", " 1"] {
        assert_eq!(parse_u64(text), text.parse::<u64>().ok(), "{text}");
    }
}

#[test]
fn decrypt_error_kinds() {
    let key = [7u8; 32];
    assert_eq!(decrypt(b"not base64!", &key).err(), Some(CryptoError::InvalidEncoding));
    assert_eq!(decrypt(b"AAAAAAAAAAAAAAAA", &key).err(), Some(CryptoError::TooShort));
    assert_eq!(CryptoError::TooShort.message(), "Ciphertext too short");
    assert_eq!(CryptoError::DecryptionFailed.message(), "Decryption failed (wrong key?): aead::Error");
}

#[test]
fn key_from_hex_cases() {
    let text = "00".repeat(31) + "ff";
    let key = key_from_hex(&text).ok().unwrap();
    assert_eq!(key[31], 255);
    assert_eq!(key_from_hex("00ff").err(), Some(KeyError::WrongLength));
    assert_eq!(key_from_hex("xyz").err(), Some(KeyError::InvalidHex));
}

#[test]
fn rpc_urls() {
    assert_eq!(rpc_url_for("mainnet"), "https://mainnet.sorobanrpc.com");
    assert_eq!(rpc_url_for("futurenet"), "https://rpc-futurenet.stellar.org");
    assert_eq!(rpc_url_for("testnet"), "https://soroban-testnet.stellar.org");
    assert_eq!(rpc_url_for("anything"), "https://soroban-testnet.stellar.org");
}

#[test]
fn instance_key_is_base64_placeholder() {
    assert_eq!(build_contract_instance_key("CABC"), "aW5zdGFuY2U6Q0FCQw==");
}

#[test]
fn ledger_entries_are_read() {
    let resp = obj(vec![(
        "result",
        obj(vec![
            (
                "entries",
                JsonValue::Array(vec![
                    obj(vec![("key", s("K1")), ("xdr", s("V1"))]),
                    obj(vec![("key", s("K2")), ("val", s("V2"))]),
                ]),
            ),
            ("latestLedger", JsonValue::Number("77".into())),
        ]),
    )]);
    let got = ledger_entries_from(&resp, "xdr");
    assert_eq!(got, vec![("K1".to_string(), "V1".to_string()), ("K2".to_string(), String::new())]);
    assert_eq!(result_u64(&resp, "latestLedger"), 77);
    assert_eq!(result_u64(&resp, "missing"), 0);
    assert!(ledger_entries_from(&obj(vec![]), "xdr").is_empty());
}

#[test]
fn rpc_requests_text() {
    assert_eq!(
        ledger_entries_request("KEY").to_text(),
        r#"{"id":1,"jsonrpc":"2.0","method":"getLedgerEntries","params":{"keys":["KEY"]}}"#
    );
    assert_eq!(
        contract_data_request("CID").to_text(),
        r#"{"id":2,"jsonrpc":"2.0","method":"getContractData","params":{"contract":"CID","durability":"persistent"}}"#
    );
}

#[test]
fn backup_ids() {
    assert_eq!(backup_id_for("CABCDEFGHIJK", 1700000000), "backup_CABCDEFG_1700000000");
    assert_eq!(backup_id_for("CAB", -5), "backup_CAB_-5");
}

#[test]
fn storage_locations() {
    let cfg = S3Config { bucket: "b".into(), region: "us-east-1".into(), prefix: "tipjar".into() };
    let t = s3_upload_target(&cfg, "backup_1");
    assert_eq!(t.url, "https://b.s3.us-east-1.amazonaws.com/tipjar/backup_1.json");
    assert_eq!(t.uri, "s3://b/tipjar/backup_1.json");
    assert_eq!(s3_download_url("s3://b/tipjar/backup_1.json"), "https://s3.amazonaws.com/b/tipjar/backup_1.json");
    let ipfs = IpfsConfig { api_url: "http://localhost:5001".into() };
    assert_eq!(ipfs_add_url(&ipfs), "http://localhost:5001/api/v0/add");
    assert_eq!(ipfs_uri("Qm1"), "ipfs://Qm1");
    assert_eq!(ipfs_download_url("ipfs://Qm1", &ipfs), "http://localhost:5001/api/v0/cat?arg=Qm1");
    assert_eq!(ipfs_cid_from_response(&obj(vec![("Hash", s("Qm2"))])).as_deref(), Some("Qm2"));
    assert_eq!(ipfs_cid_from_response(&obj(vec![("Hash", JsonValue::Null)])), None);
    assert_eq!(backup_source("s3://x"), BackupSource::S3);
    assert_eq!(backup_source("ipfs://x"), BackupSource::Ipfs);
    assert_eq!(backup_source("./x.json"), BackupSource::LocalFile);
}

#[test]
fn restore_commands() {
    let args = restore_command_args("CID", "GSRC", "testnet", "K", "V");
    assert_eq!(
        args,
        vec!["contract", "invoke", "--id", "CID", "--source", "GSRC", "--network", "testnet", "--", "restore_entry", "--key", "K", "--value", "V"]
    );
    let r = restore_result("backup_1", 3);
    assert_eq!(r.backup_id, "backup_1");
    assert_eq!(r.entries_restored, 3);
    assert!(r.verified);
    assert_eq!(dry_run_preview("0123456789012345678901234567890123456789ABC"), "0123456789012345678901234567890123456789");
    assert_eq!(dry_run_preview("short"), "short");
}

#[test]
fn exporter_arguments() {
    let args = exporter_args("C", "testnet", "https://rpc", "out/b.json", true, &Some("k".into()), true, Some("base"));
    assert_eq!(
        args,
        vec![
            "--contract", "C", "--network", "testnet", "--rpc-url", "https://rpc", "--output", "out/b.json", "--encrypt",
            "--key", "k", "--incremental", "--base", "base"
        ]
    );
    let plain = exporter_args("C", "n", "r", "o", false, &Some("k".into()), true, None);
    assert_eq!(plain.len(), 8);
}

#[test]
fn json_extension() {
    assert!(is_json_file_name("backup_1.json"));
    assert!(is_json_file_name("a.b.json"));
    assert!(!is_json_file_name(".json"));
    assert!(!is_json_file_name("backup.json.gz"));
    assert!(!is_json_file_name("json"));
}

#[test]
fn prune_keeps_newest_backups() {
    let files = vec![
        file("c.json", 30, 0),
        file("notes.txt", 1, 0),
        file("a.json", 10, 0),
        file("b.json", 20, 0),
        file("d.json", 10, 0),
    ];
    assert_eq!(backups_to_prune(&files, 2), vec![2, 4]);
    assert_eq!(backups_to_prune(&files, 0), Vec::<usize>::new());
    assert_eq!(backups_to_prune(&files, 4), Vec::<usize>::new());
    assert_eq!(backups_to_prune(&files, 1), vec![2, 3, 4]);
    let ties = vec![file("x.json", 5, 9), file("y.json", 5, 9), file("z.json", 5, 8)];
    assert_eq!(backups_to_prune(&ties, 1), vec![0, 2]);
}

#[test]
fn export_metadata_fields() {
    let m = export_metadata("2024-01-01T00:00:00Z".into(), true, Some("base".into()), "backup_X".into(), false);
    assert_eq!(m.tool_version, TOOL_VERSION);
    assert_eq!(m.tool_version, "0.1.0");
    assert!(m.checksum.is_empty());
    assert_eq!(m.backup_type, BackupType::Incremental);
    assert_eq!(m.base_backup_id.as_deref(), Some("base"));
    assert_eq!(export_metadata(String::new(), false, None, String::new(), true).backup_type, BackupType::Full);
}

#[test]
fn checksum_is_embedded_in_diff_text() {
    let json = "{\n  \"metadata\": {\n    \"checksum\": \"\",\n    \"x\": 1\n  }\n}";
    let filled = embed_checksum(json, "abc123");
    assert_eq!(filled, json.replace("\"checksum\": \"\"", "\"checksum\": \"abc123\""));
    assert!(filled.contains("\"checksum\": \"abc123\""));
}

#[test]
fn hex_round_trip() {
    let data = vec![0u8, 1, 127, 128, 254, 255];
    assert_eq!(hex_decode_str(&hex_encode_bytes(&data)), Some(data));
}

#[test]
fn encryption_with_a_given_nonce_is_nonce_then_ciphertext() {
    let key = [9u8; 32];
    let nonce = [3u8; 12];
    let plaintext = b"state";
    let out = tipjar::crypto::encrypt_with_nonce(plaintext, &key, &nonce).ok().unwrap();
    let cipher = aes_gcm::Aes256Gcm::new(aes_gcm::Key::<aes_gcm::Aes256Gcm>::from_slice(&key));
    let ct = cipher.encrypt(aes_gcm::Nonce::from_slice(&nonce), plaintext.as_slice()).unwrap();
    let mut combined = nonce.to_vec();
    combined.extend_from_slice(&ct);
    assert_eq!(out, base64::engine::general_purpose::STANDARD.encode(&combined).into_bytes());
    assert_eq!(base64::engine::general_purpose::STANDARD.decode(&out).unwrap().len(), plaintext.len() + 28);
    assert_eq!(decrypt(&out, &key).ok().unwrap(), plaintext);
}

fn pairs(items: &[(&str, &str)]) -> Vec<(String, String)> {
    items.iter().map(|(k, v)| (k.to_string(), v.to_string())).collect()
}

#[test]
fn dedup_keeps_last_value_per_key() {
    let got = dedup_entries(&pairs(&[("a", "1"), ("b", "2"), ("a", "3")]));
    assert_eq!(got, pairs(&[("b", "2"), ("a", "3")]));
}

#[test]
fn snapshot_and_incremental_diff() {
    let meta = export_metadata("t".into(), false, None, "backup_1".into(), false);
    let base = snapshot(
        "C".into(),
        "testnet".into(),
        10,
        20,
        &pairs(&[("k", "1"), ("k", "2")]),
        &pairs(&[("p", "x"), ("gone", "y")]),
        meta,
    );
    assert_eq!(base.schema_version, 1);
    assert_eq!(base.instance_entries, pairs(&[("k", "2")]));
    assert_eq!(base.persistent_entries.len(), 2);
    let meta2 = export_metadata("t2".into(), true, Some("backup_1".into()), "backup_2".into(), false);
    let diff = incremental_diff("C".into(), "backup_1".into(), 11, &base, &pairs(&[("k", "3")]), &pairs(&[("p", "x"), ("n", "z")]), meta2);
    assert_eq!(diff.schema_version, 1);
    assert_eq!(diff.base_backup_id, "backup_1");
    assert_eq!(diff.added, pairs(&[("n", "z")]));
    assert_eq!(diff.modified, pairs(&[("k", "3")]));
    assert_eq!(diff.removed, vec!["gone".to_string()]);
}
