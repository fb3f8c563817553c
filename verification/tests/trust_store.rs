use json_env::trust::{
    config_dir_path, encode_trust_record, is_trusted, is_trusted_in, parse_trust_record,
    trust_store_path, trust_update, TrustOutcome,
};

#[test]
fn never_trusted_path_is_untrusted() {
    let record_text = encode_trust_record(&vec!["/some/other/.env.json".to_string()]);
    assert!(!is_trusted(&Some(record_text), &"/home/user/.env.json".to_string()));
}

#[test]
fn missing_store_trusts_nothing() {
    assert!(!is_trusted(&None, &"/home/user/.env.json".to_string()));
}

#[test]
fn unreadable_store_trusts_nothing() {
    assert!(!is_trusted(&Some("not a record".to_string()), &"/p/.env.json".to_string()));
    assert!(!is_trusted(&Some("{\"items\":[]}".to_string()), &"/p/.env.json".to_string()));
}

#[test]
fn trusted_path_is_trusted() {
    let path = "/home/user/project/.env.json".to_string();
    let updated = match trust_update(Vec::new(), &path) {
        TrustOutcome::Updated(list) => list,
        TrustOutcome::AlreadyTrusted => panic!("empty record cannot list the path"),
    };
    let record_text = encode_trust_record(&updated);
    assert!(is_trusted(&Some(record_text), &path));
}

#[test]
fn trusting_twice_keeps_one_entry() {
    let path = "/home/user/.env.json".to_string();
    let first = match trust_update(Vec::new(), &path) {
        TrustOutcome::Updated(list) => list,
        TrustOutcome::AlreadyTrusted => panic!("empty record cannot list the path"),
    };
    assert_eq!(first.len(), 1);
    assert_eq!(first[0], path);
    match trust_update(first.clone(), &path) {
        TrustOutcome::AlreadyTrusted => {}
        TrustOutcome::Updated(_) => panic!("second ask must not change the record"),
    }
    assert_eq!(first.iter().filter(|p| **p == path).count(), 1);
}

#[test]
fn record_round_trips_through_the_store_text() {
    let record = vec!["/a/.env.json".to_string(), "/b/.env.json".to_string()];
    let text = encode_trust_record(&record);
    let reparsed = parse_trust_record(&text).unwrap();
    assert_eq!(reparsed, record);
}

#[test]
fn membership_check_compares_whole_paths() {
    let record = vec!["/a/.env.json".to_string()];
    assert!(is_trusted_in(&record, &"/a/.env.json".to_string()));
    assert!(!is_trusted_in(&record, &"/a/.env".to_string()));
    assert!(!is_trusted_in(&record, &"/a/.env.json2".to_string()));
}

#[test]
fn store_paths_are_fixed_per_user() {
    assert_eq!(config_dir_path("/home/user"), "/home/user/.config/json_env");
    assert_eq!(trust_store_path("/home/user"), "/home/user/.config/json_env/whitelist.json");
}
