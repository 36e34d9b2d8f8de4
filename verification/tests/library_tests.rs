use mtbctl::backup::{
    backup_id, backup_order_key, check_restorable, entry_index, hex_sha256, latest_index, newest_first,
    is_manifest_name, make_backup, manifest_file_name, sanitize_reason, BackupCounter, transaction_backup_index, Backup, BackupEntry,
};
use mtbctl::bandlock::{parse_band_list, plan_bandlock_set, summarize_bandlock, MaskKind, ALL_LTE_BANDS, ALL_NR_BANDS};
use mtbctl::cells::{parse_asdiv_line, parse_tx_power};
use mtbctl::cli::{flag_values, parse_slot};
use mtbctl::config::Config;
use mtbctl::features::{all_features, classify_feature_status, failed_read_paths, feature_status, find_feature, read_failure_message};
use mtbctl::importer::import_commands;
use mtbctl::json::parse_json_text;
use mtbctl::nv::{
    check_nv_target, check_nv_write, delete_verified, efs_delete_args, efs_read_args, efs_write_args,
    after_delete, after_write, rollback_action, rollback_checks, read_back_hex_matches, read_back_matches, write_verified, ChangeOutcome,
};
use mtbctl::rpc::{args_are_document, probe_status, restore_id, route, unknown_command_message, Route};
use mtbctl::rpc::{allow_empty_param, check_request, command_base, decode_base64url, parse_rpc_request, slot_param, str_param};
use mtbctl::util::{bytes_to_hex, parse_hex, parse_space_dec, EfsRead};

const LTE_PATH: &str = "/nv/item_files/modem/mmode/lte_bandpref";

fn strings(v: &[&str]) -> Vec<String> {
    v.iter().map(|s| s.to_string()).collect()
}

// --- hex -------------------------------------------------------------------

#[test]
fn hex_roundtrip_gives_bytes_back() {
    let bytes = vec![0u8, 1, 0x7f, 0xab, 0xff];
    let hex = bytes_to_hex(&bytes);
    assert_eq!(hex, "00017fabff");
    assert_eq!(parse_hex(&hex).unwrap(), bytes);
    let full: Vec<u8> = (0..=255u8).chain(0..=255u8).collect();
    assert_eq!(parse_hex(&bytes_to_hex(&full)).unwrap(), full);
}

#[test]
fn hex_errors_in_order() {
    assert_eq!(parse_hex("abc").unwrap_err(), "Hex string must have an even length");
    assert_eq!(
        parse_hex(&"0".repeat(1026)).unwrap_err(),
        "Hex string length exceeds maximum of 1024 characters"
    );
    assert_eq!(parse_hex("zz").unwrap_err(), "Hex string contains non-hex characters");
    assert_eq!(parse_hex("AbCd").unwrap(), vec![0xab, 0xcd]);
}

#[test]
fn hex_rewritten_is_lowercase() {
    for text in ["AbCd", "00FF", "0a0B", ""] {
        assert_eq!(bytes_to_hex(&parse_hex(text).unwrap()), text.to_ascii_lowercase());
    }
}

// --- backups -----------------------------------------------------------------

#[test]
fn backup_id_carries_its_order_key() {
    let id = backup_id(1754273400123, 456789123, 1234, 2, "bandlock set!");
    assert_eq!(id, "1754273400123_456789123_1234_2_bandlock_set_");
    assert_eq!(backup_order_key(&id), Some((1754273400123, 456789123, 2, 1234)));
    let id2 = backup_id(u64::MAX, 0, u32::MAX, 7, "");
    assert_eq!(backup_order_key(&id2), Some((u64::MAX, 0, 7, u32::MAX)));
}

#[test]
fn backup_id_names_its_manifest() {
    let id = backup_id(1700000000123, 456, 42, 7, "feature disable/x");
    assert_eq!(id, "1700000000123_456_42_7_feature_disable_x");
    assert!(mtbctl::util::validate_backup_id(&id).is_ok());
    let file = manifest_file_name(&id);
    assert_eq!(file, format!("{}.json", id));
    assert!(is_manifest_name(&file));
    // a reason whose letters are not ASCII gives an id the check refuses
    let id = backup_id(1, 2, 3, 4, "é");
    assert!(mtbctl::util::validate_backup_id(&id).is_err());
}

#[test]
fn space_dec_reads_back_decimals() {
    assert_eq!(parse_space_dec("0 5 20 255").unwrap(), vec![0, 5, 20, 255]);
    assert_eq!(parse_space_dec("").unwrap(), Vec::<u8>::new());
}

#[test]
fn backup_ids_differ_when_their_makings_differ() {
    let a = backup_id(1000, 200, 7, 1, "x");
    let b = backup_id(1000, 200, 7, 2, "x");
    let c = backup_id(1000, 200, 8, 1, "x");
    assert_ne!(a, b);
    assert_ne!(a, c);
    assert_eq!(a, backup_id(1000, 200, 7, 1, "x"));
}

#[test]
fn listing_does_not_depend_on_discovery_order() {
    let ids = ["5_1_1_1_a", "5_1_1_2_b", "4_9_9_9_c", "6_0_0_0_d"];
    let one = strings(&ids);
    let two = strings(&[ids[3], ids[1], ids[0], ids[2]]);
    let l1: Vec<String> = newest_first(&one).into_iter().map(|i| one[i].clone()).collect();
    let l2: Vec<String> = newest_first(&two).into_iter().map(|i| two[i].clone()).collect();
    assert_eq!(l1, l2);
    assert_eq!(l1, strings(&["6_0_0_0_d", "5_1_1_2_b", "5_1_1_1_a", "4_9_9_9_c"]));
    assert_eq!(one[latest_index(&one).unwrap()], two[latest_index(&two).unwrap()]);
}

#[test]
fn sanitize_keeps_alphanumerics_and_underscores() {
    assert_eq!(sanitize_reason("feature_disable_dss"), "feature_disable_dss");
    assert_eq!(sanitize_reason("a b/c.d"), "a_b_c_d");
    assert_eq!(sanitize_reason("é-x"), "é_x");
}

#[test]
fn order_key_rejects_out_of_range_fields() {
    assert!(backup_order_key("1_2_4294967296_3_r").is_none()); // pid beyond u32
    assert!(backup_order_key("1_2_3").is_none());
    assert_eq!(backup_order_key("1_2_3_4"), Some((1, 2, 4, 3)));
    assert!(backup_order_key("1__3_4_r").is_none());
}

#[test]
fn newest_first_sorts_and_keeps_ties() {
    let ids = strings(&["1_0_0_0_a", "bogus", "3_0_0_0_b", "2_5_0_0_c", "3_0_0_0_d", "other"]);
    let order = newest_first(&ids);
    assert_eq!(order, vec![2, 4, 3, 0, 1, 5]);
    assert_eq!(latest_index(&ids), Some(2));
    assert_eq!(order[0], latest_index(&ids).unwrap());
    assert_eq!(latest_index(&[]), None);
    assert!(newest_first(&[]).is_empty());
}

#[test]
fn manifest_file_names() {
    assert_eq!(manifest_file_name("1_2_3_4_r"), "1_2_3_4_r.json");
    assert_eq!(manifest_file_name("1_2_3_4_r.json"), "1_2_3_4_r.json");
    assert!(is_manifest_name("1_2_3_4_r.json"));
    assert!(!is_manifest_name("latest.json"));
    assert!(!is_manifest_name(".json"));
    assert!(!is_manifest_name("1_2_3_4_r.json.tmp"));
    assert!(is_manifest_name("x.json"));
}

#[test]
fn fresh_entry_verifies_and_records_checksum() {
    let e = BackupEntry::new(1, LTE_PATH.to_string(), Some("0102".to_string()));
    assert_eq!(e.size, 2);
    assert_eq!(e.sha256, "a12871fee210fb8619291eaea194581cbd2531e4b23759d225f6806923f63222");
    assert!(e.verify_integrity().is_ok());
    assert_eq!(hex_sha256(&[]), "e3b0c44298fc1c149afbf4c8996fb92427ae41e4649b934ca495991b7852b855");
}

#[test]
fn tampered_entry_fails() {
    let e = BackupEntry::new(0, LTE_PATH.to_string(), Some("0102".to_string()));
    let mut t = e.clone();
    t.size = 3;
    assert_eq!(t.verify_integrity().unwrap_err(), format!("Backup entry size mismatch for {}: 2 != 3", LTE_PATH));
    let mut t2 = e.clone();
    t2.sha256 = "0".repeat(64);
    assert_eq!(t2.verify_integrity().unwrap_err(), format!("Backup entry checksum mismatch for {}", LTE_PATH));
    let mut t3 = e.clone();
    t3.sha256 = "A".repeat(64);
    assert_eq!(t3.verify_integrity().unwrap_err(), format!("missing/invalid checksum for {}", LTE_PATH));
    let mut t4 = e.clone();
    t4.bytes = Some("0g".to_string());
    assert_eq!(t4.verify_integrity().unwrap_err(), format!("Backup entry has invalid hex for {}", LTE_PATH));
    let t5 = BackupEntry::new(0, "/etc/passwd".to_string(), None);
    assert!(t5.verify_integrity().is_err());
    let mut t6 = BackupEntry::new(0, LTE_PATH.to_string(), None);
    t6.size = 1;
    assert_eq!(
        t6.verify_integrity().unwrap_err(),
        format!("Backup entry size mismatch (absent item) for {}", LTE_PATH)
    );
}

fn backup(version: u32, entries: Vec<BackupEntry>) -> Backup {
    Backup {
        version,
        id: "1_2_3_4_r".to_string(),
        time: 1,
        reason: "r".to_string(),
        device: "d".to_string(),
        createdAt: "t".to_string(),
        entries,
    }
}

#[test]
fn restore_checks_version_slots_and_entries() {
    let good = BackupEntry::new(0, LTE_PATH.to_string(), Some("01".to_string()));
    let fine = backup(2, vec![good.clone(), BackupEntry::new(1, LTE_PATH.to_string(), None)]);
    assert!(check_restorable(&fine).is_ok());
    for e in &fine.entries {
        assert!(e.verify_integrity().is_ok());
    }
    assert_eq!(
        check_restorable(&backup(1, vec![good.clone()])).unwrap_err(),
        "Unsupported backup version 1 (expected 2)"
    );
    let wrong_slot = BackupEntry::new(3, LTE_PATH.to_string(), None);
    assert_eq!(
        check_restorable(&backup(2, vec![good.clone(), wrong_slot])).unwrap_err(),
        "Invalid slot: 3. Must be 0 or 1"
    );
    let mut bad = good.clone();
    bad.size = 9;
    assert!(check_restorable(&backup(2, vec![good, bad])).is_err());
}

fn backup_for(reason: &str, entries: Vec<BackupEntry>) -> Backup {
    let mut b = backup(2, entries);
    b.reason = reason.to_string();
    b
}

#[test]
fn restore_source_is_one_whole_transaction() {
    let other = BackupEntry::new(0, "/nv/item_files/modem/mmode/x".to_string(), None);
    let a0 = BackupEntry::new(0, LTE_PATH.to_string(), Some("01".to_string()));
    let a1 = BackupEntry::new(1, LTE_PATH.to_string(), Some("02".to_string()));
    let list = vec![
        backup_for("feature_disable_dss", vec![other.clone()]),
        backup_for("nv_write", vec![a0.clone(), other.clone()]),
        backup_for("feature_disable_dss", vec![other.clone(), a1.clone(), a0.clone()]),
        backup_for("feature_disable_dss", vec![a0.clone(), other.clone()]),
    ];
    let paths = [LTE_PATH, "/nv/item_files/modem/mmode/x"];
    assert_eq!(transaction_backup_index(&list, "feature_disable_dss", 0, &paths), Some(2));
    assert_eq!(transaction_backup_index(&list, "feature_disable_dss", 1, &paths), None);
    assert_eq!(transaction_backup_index(&list, "nv_write", 0, &paths), Some(1));
    assert_eq!(entry_index(&list[2].entries, 0, LTE_PATH), Some(2));
    assert_eq!(entry_index(&list[2].entries, 1, LTE_PATH), Some(1));
    assert_eq!(entry_index(&list[2].entries, 1, "/nv/item_files/modem/mmode/y"), None);
}

#[test]
fn feature_table_is_consistent() {
    let feats = all_features();
    for (i, f) in feats.iter().enumerate() {
        for g in &feats[i + 1..] {
            assert_ne!(f.id, g.id);
        }
        for p in f.reads.iter().chain(f.writes.iter().map(|w| &w.path)) {
            assert!(mtbctl::util::validate_nv_path(p).is_ok(), "{} is on the allowlist", p);
        }
    }
}

// --- features -----------------------------------------------------------------

#[test]
fn every_feature_reads_disabled_after_its_writes() {
    let feats = all_features();
    assert_eq!(feats.len(), 12);
    for f in &feats {
        assert_eq!(f.reads.len(), f.writes.len());
        let written: Vec<Vec<u8>> = f.writes.iter().map(|w| parse_space_dec(w.bytes).unwrap()).collect();
        let slices: Vec<&[u8]> = written.iter().map(|v| v.as_slice()).collect();
        for (r, w) in f.reads.iter().zip(f.writes.iter()) {
            assert_eq!(*r, w.path);
        }
        assert!(f.is_disabled_fn(&slices), "{} must read as disabled", f.id);
        let reads: Vec<EfsRead> = written.iter().map(|v| EfsRead::Present(v.clone())).collect();
        assert_eq!(classify_feature_status(&reads, &|a: &[&[u8]]| f.is_disabled_fn(a)), "disabled");
    }
}

#[test]
fn features_are_found_by_id() {
    assert_eq!(find_feature("dss").unwrap().label, "Disable DSS");
    assert!(find_feature("nope").is_none());
    let f = find_feature("r16_2t1t").unwrap();
    assert!(!f.is_disabled_fn(&[&[0u8, 0]]));
}

// --- NV operations ------------------------------------------------------------

#[test]
fn efs_argument_lists() {
    assert_eq!(efs_read_args(1, LTE_PATH), strings(&["4", "4", "1", LTE_PATH]));
    assert_eq!(efs_delete_args(0, LTE_PATH), strings(&["4", "6", "0", LTE_PATH]));
    assert_eq!(efs_write_args(-1, LTE_PATH, &[0, 7, 255]), strings(&["4", "5", "-1", LTE_PATH, "0", "7", "255"]));
}

#[test]
fn write_checks_in_order() {
    assert_eq!(
        check_nv_write("/etc/x", "zz", 5).unwrap_err(),
        "Path '/etc/x' does not match allowed NV prefixes"
    );
    assert_eq!(check_nv_write(LTE_PATH, "zz", 5).unwrap_err(), "Invalid slot: 5. Must be 0 or 1");
    assert_eq!(check_nv_write(LTE_PATH, "zz", 0).unwrap_err(), "Hex string contains non-hex characters");
    assert_eq!(check_nv_write(LTE_PATH, "0A0b", 1).unwrap(), vec![0x0a, 0x0b]);
    assert!(check_nv_target("/nv/item_files/modem/mmode/../x", 0).is_err());
    assert!(check_nv_target(LTE_PATH, 1).is_ok());
}

#[test]
fn read_back_decisions() {
    let present = EfsRead::Present(vec![0x0a, 0x0b]);
    assert!(write_verified(0, "0A0B", &present));
    assert!(!write_verified(1, "0a0b", &present));
    assert!(!write_verified(0, "0a0c", &present));
    assert!(!write_verified(0, "0a0b", &EfsRead::Absent));
    assert!(delete_verified(0, &EfsRead::Absent));
    assert!(!delete_verified(0, &present));
    assert!(!delete_verified(2, &EfsRead::Absent));
    assert!(read_back_matches(Some(&[0x0a, 0x0b]), &present));
    assert!(!read_back_matches(Some(&[0x0a]), &present));
    assert!(read_back_matches(None, &EfsRead::Absent));
    assert!(!read_back_matches(None, &EfsRead::Error("e".to_string())));
    assert!(read_back_hex_matches("0a0b", &present));
    assert!(!read_back_hex_matches("0A0B", &present));
}

#[test]
fn change_outcomes_and_stages() {
    let present = EfsRead::Present(vec![0x0a, 0x0b]);
    assert_eq!(after_write(0, "0A0B", &present), ChangeOutcome::Landed);
    assert_eq!(after_write(0, "0a0c", &present), ChangeOutcome::RollBack);
    assert_eq!(after_write(3, "0a0c", &present), ChangeOutcome::Failed);
    assert_eq!(after_delete(0, &EfsRead::Absent), ChangeOutcome::Landed);
    assert_eq!(after_delete(0, &present), ChangeOutcome::RollBack);
    assert_eq!(after_delete(1, &present), ChangeOutcome::Failed);
    assert_eq!(ChangeOutcome::RollBack.stage(), "rollback");
    assert_eq!(ChangeOutcome::Landed.stage(), "verify");
    assert_eq!(ChangeOutcome::Failed.stage(), "verify");
}

// --- band lock ------------------------------------------------------------------

#[test]
fn bandlock_plan_and_reading() {
    let plan = plan_bandlock_set(1, Some("1,3"), None, Some("78"), false).unwrap();
    assert_eq!(plan.len(), 3);
    assert_eq!(plan[0].path, "/nv/item_files/modem/mmode/lte_bandpref_Subscription01");
    assert_eq!(plan[0].bytes, vec![0x05, 0, 0, 0, 0, 0, 0, 0]);
    assert_eq!(plan[2].path, "/nv/item_files/modem/mmode/nr_band_pref_Subscription01");
    assert_eq!(
        plan_bandlock_set(0, None, None, None, false).unwrap_err(),
        "refusing zero-band mask: no band categories provided"
    );
    assert!(plan_bandlock_set(2, Some("1"), None, None, false).is_err());
    // a list that holds no band needs allowEmpty, however it is written
    assert_eq!(
        plan_bandlock_set(0, Some(","), None, None, false).unwrap_err(),
        "empty band list for lte requires allowEmpty"
    );
    assert_eq!(parse_band_list(Some(","), &ALL_LTE_BANDS, "lte", false).unwrap_err(), "empty band list for lte requires allowEmpty");
    assert_eq!(parse_band_list(Some(" , "), &ALL_NR_BANDS, "nrSa", true).unwrap(), Some(Vec::<i32>::new()));
    assert_eq!(plan_bandlock_set(0, Some(","), None, None, true).unwrap()[0].bytes, vec![0u8; 8]);
    let _ = MaskKind::Nr;

    let r = summarize_bandlock(
        &EfsRead::Present(plan[0].bytes.clone()),
        &EfsRead::Absent,
        &EfsRead::Error("x".to_string()),
        &EfsRead::Present(plan[2].bytes.clone()),
    );
    assert!(!r.ok);
    assert_eq!(r.lte, vec![1, 3]);
    assert_eq!(r.nr_sa, vec![78]);
    assert!(r.nr_nsa.is_empty());
    assert_eq!(r.lte_extension_hex, "");
}

// --- cells ----------------------------------------------------------------------

#[test]
fn asdiv_fields_last_value_wins_and_first_line_only() {
    let raw = "noise\n  ASDIV DATA: a: 1, b : 2 , a: 3, junk\nASDIV DATA: a: 9";
    let f = parse_asdiv_line(raw);
    assert_eq!(f.get("a").map(|s| s.as_str()), Some("3"));
    assert_eq!(f.get("b").map(|s| s.as_str()), Some("2"));
    assert!(f.get("junk").is_none());
    assert!(!f.is_empty());
}

#[test]
fn tx_power_first_parsable_value() {
    assert_eq!(parse_tx_power("TX INFO: mode = 1, tx_power = x, tx_power = -3"), Some(-3));
    assert_eq!(parse_tx_power("TX INFO: tx_power = x\nTX INFO: tx_power = 7"), Some(7));
    assert_eq!(parse_tx_power("TX INFO: other = 1"), None);
    assert_eq!(parse_tx_power("nothing"), None);
}

// --- command line -----------------------------------------------------------------

#[test]
fn slot_option_is_taken_out() {
    let (slot, rest) = parse_slot(&strings(&["--slot", "1", "a", "--slot", "x", "b"]));
    assert_eq!(slot, 1);
    assert_eq!(rest, strings(&["a", "b"]));
    let (slot, rest) = parse_slot(&strings(&["p", "--slot"]));
    assert_eq!(slot, 0);
    assert_eq!(rest, strings(&["p", "--slot"]));
}

#[test]
fn flags_take_the_next_argument() {
    let v = flag_values(&strings(&["--lte", "--nrNsa", "5", "--nrSa", "78", "--lte", "1"]), &["--lte", "--nrNsa", "--nrSa"]);
    assert_eq!(v, vec![Some("1".to_string()), None, Some("78".to_string())]);
    let v = flag_values(&strings(&["--reason"]), &["--reason"]);
    assert_eq!(v, vec![None]);
}

// --- RPC ------------------------------------------------------------------------------

#[test]
fn command_base_reads_dots_as_spaces() {
    assert_eq!(command_base("nv.read"), "nv read");
    assert_eq!(command_base("backup restore latest"), "backup restore");
    assert_eq!(command_base("probe"), "probe");
    assert_eq!(command_base("a.b.c"), "a b");
}

#[test]
fn params_from_json() {
    let p = parse_json_text(r#"{"slot": 1, "path": "/x", "allowEmpty": "true"}"#).unwrap();
    assert_eq!(slot_param(&p), 1);
    assert_eq!(str_param(&p, "path"), Some("/x".to_string()));
    assert_eq!(str_param(&p, "slot"), None);
    assert!(allow_empty_param(&p));
    let q = parse_json_text(r#"{"slot": " 1 ", "allowEmpty": false}"#).unwrap();
    assert_eq!(slot_param(&q), 1);
    assert!(!allow_empty_param(&q));
    let r = parse_json_text(r#"{"slot": 1.5}"#).unwrap();
    assert_eq!(slot_param(&r), 0);
    let s = parse_json_text(r#"{"slot": 4294967297}"#).unwrap();
    assert_eq!(slot_param(&s), 1);
    assert!(parse_json_text("{").is_err());
}

#[test]
fn rpc_front_door_errors() {
    assert_eq!(parse_rpc_request("__4").unwrap_err(), "rpc payload is not UTF-8");
    assert_eq!(decode_base64url("Zm9v$").unwrap_err(), "invalid base64url character: '$'");
    assert_eq!(parse_rpc_request("Zm9v$").unwrap_err(), "rpc decode: invalid base64url character: '$'");
    let ok = parse_rpc_request("eyJtZXRob2QiOiJudi5yZWFkIiwicGFyYW1zIjp7InNsb3QiOiIxIn19").unwrap();
    assert_eq!(ok.method, "nv.read");
    assert_eq!(slot_param(&ok.params), 1);
}

#[test]
fn rpc_request_checks_on_parsed_json() {
    let r = check_request(parse_json_text(r#"{"method":"nv.read","params":{"slot":"1"}}"#).unwrap()).unwrap();
    assert_eq!(r.method, "nv.read");
    assert_eq!(slot_param(&r.params), 1);
    let r = check_request(parse_json_text(r#"{"method":"probe"}"#).unwrap()).unwrap();
    assert_eq!(r.method, "probe");
    assert_eq!(check_request(parse_json_text(r#"{"method":"rm"}"#).unwrap()).unwrap_err(), "Unknown RPC method: rm");
    assert_eq!(check_request(parse_json_text("[1]").unwrap()).unwrap_err(), "Unknown RPC method: ");
    assert_eq!(
        check_request(parse_json_text(r#"{"method":"probe","params":3}"#).unwrap()).unwrap_err(),
        "rpc params must be an object"
    );
}

#[test]
fn import_commands_on_parsed_json() {
    let root = parse_json_text(r#"{"sim1":{"/nv/item_files/modem/mmode/":{"x":{"op":"w","data":"0A"},"y":{"op":"d"}}}}"#).unwrap();
    let cs = import_commands(&root).unwrap();
    assert_eq!(cs.len(), 2);
    assert_eq!((cs[0].slot, cs[0].op.as_str(), cs[0].path.as_str()), (1, "w", "/nv/item_files/modem/mmode/x"));
    assert_eq!(cs[0].bytes.as_deref(), Some("0a"));
    assert_eq!((cs[1].op.as_str(), cs[1].bytes.clone()), ("d", None));
    assert_eq!(import_commands(&parse_json_text("[]").unwrap()).unwrap_err(), "JSON root must be an object");
    assert_eq!(import_commands(&parse_json_text("{}").unwrap()).unwrap_err(), "No sim slot key found in JSON");
}

#[test]
fn failed_reads_are_named_once_in_order() {
    let paths = strings(&["/a", "/b", "/a", "/c"]);
    let err = || EfsRead::Error("x".to_string());
    let reads = vec![err(), EfsRead::Absent, err(), err()];
    let failed = failed_read_paths(&paths, &reads);
    assert_eq!(failed, strings(&["/a", "/c"]));
    assert_eq!(read_failure_message(&failed).unwrap(), "read failed for /a, /c");
    let none = failed_read_paths(&paths, &vec![EfsRead::Absent, EfsRead::Absent, EfsRead::Present(vec![1]), EfsRead::Absent]);
    assert!(none.is_empty());
    assert_eq!(read_failure_message(&none), None);
}

// --- config ---------------------------------------------------------------------------

#[test]
fn config_defaults() {
    let c = Config::default();
    assert!(c.manual_lte.is_empty() && c.manual_nr_nsa.is_empty() && c.manual_nr_sa.is_empty());
    assert_eq!(c.slot, 0);
}

// --- routing, probe, rollback, numbering, feature status ------------------------

#[test]
fn dot_and_space_forms_reach_one_handler() {
    for (m, r) in [("nv.read", Route::NvRead), ("nv read", Route::NvRead), ("backup.restore.abc", Route::BackupRestore), ("probe", Route::Probe), ("config.set", Route::ConfigSet)] {
        assert_eq!(route(m), Some(r));
    }
    assert_eq!(route("nv.format"), None);
    assert_eq!(route("nv"), None);
    assert_eq!(unknown_command_message("nv.format"), "Unknown command: nv.format");
    let num = parse_json_text(r#"{"slot": 1}"#).unwrap();
    let text = parse_json_text(r#"{"slot": " 1 "}"#).unwrap();
    assert_eq!(slot_param(&num), slot_param(&text));
}

#[test]
fn restore_id_and_document_arguments() {
    let none = parse_json_text("{}").unwrap();
    assert_eq!(restore_id("backup.restore.123_x", &none), "123_x");
    assert_eq!(restore_id("backup restore", &none), "latest");
    let with_id = parse_json_text(r#"{"id":"abc"}"#).unwrap();
    assert_eq!(restore_id("backup.restore.123_x", &with_id), "abc");
    let doc = parse_json_text(r#"{"sim0":{}}"#).unwrap();
    assert!(args_are_document("import.apply", &doc));
    assert!(args_are_document("config set", &doc));
    assert!(!args_are_document("import.apply", &parse_json_text(r#"{"json":"{}"}"#).unwrap()));
    assert!(!args_are_document("nv.read", &doc));
}

#[test]
fn probe_findings() {
    let st = probe_status(true, 0, "");
    assert!(st.exists && st.executable && st.responds && st.ok);
    let st = probe_status(true, 2, "usage: mtb ...\n");
    assert!(st.exists && !st.executable && st.responds && !st.ok);
    let st = probe_status(true, 2, "  \n");
    assert!(!st.responds && !st.ok);
    let st = probe_status(false, 0, "x");
    assert!(!st.exists && !st.executable && !st.responds && !st.ok);
}

#[test]
fn rollback_report_checks() {
    assert_eq!(rollback_action(&Some(vec![1])), "write");
    assert_eq!(rollback_action(&None), "delete");
    let befores = vec![Some(vec![1u8, 2]), None, Some(vec![3])];
    let (each, all) = rollback_checks(&befores, &vec![EfsRead::Present(vec![1, 2]), EfsRead::Absent, EfsRead::Present(vec![4])]);
    assert_eq!(each, vec![true, true, false]);
    assert!(!all);
    let (each, all) = rollback_checks(&befores, &vec![EfsRead::Present(vec![1, 2]), EfsRead::Absent, EfsRead::Present(vec![3])]);
    assert_eq!(each, vec![true, true, true]);
    assert!(all);
}

#[test]
fn successive_backups_get_distinct_ids() {
    let mut counter = BackupCounter { next: 0 };
    let a = make_backup(&mut counter, 5, 6, 0, 7, "r x", "dev".to_string(), "t".to_string(), Vec::new());
    let b = make_backup(&mut counter, 5, 6, 0, 7, "r x", "dev".to_string(), "t".to_string(), Vec::new());
    assert_eq!(a.id, "5_6_7_0_r_x");
    assert_eq!(b.id, "5_6_7_1_r_x");
    assert_ne!(a.id, b.id);
    assert_eq!((a.version, a.reason.as_str(), a.device.as_str()), (2, "r_x", "dev"));
    assert_eq!(counter.next, 2);
    let mut last = BackupCounter { next: u64::MAX };
    assert_eq!(last.take(), u64::MAX);
    assert_eq!(last.next, 0);
}

#[test]
fn landed_writes_read_disabled_through_status() {
    for f in all_features() {
        let reads: Vec<EfsRead> = f.writes.iter().map(|w| EfsRead::Present(parse_space_dec(w.bytes).unwrap())).collect();
        assert_eq!(feature_status(&f, &reads), "disabled", "{}", f.id);
    }
    let f = find_feature("dss").unwrap();
    assert_eq!(feature_status(&f, &[EfsRead::Present(vec![1, 0])]), "enabled");
    assert_eq!(feature_status(&f, &[EfsRead::Absent]), "absent");
    assert_eq!(feature_status(&f, &[EfsRead::Error("e".to_string())]), "error");
}
