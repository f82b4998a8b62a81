use indexmap::IndexMap;
use radiolocate::fingerprint::RadioMap;

#[test]
fn signal_order_survives_json_round_trip() {
    // The persisted store keeps each fingerprint's `signals` as a JSON object
    // whose key order is load-bearing: feature vectors truncate in stored
    // order. IndexMap's serde support carries that order through a
    // serialize/deserialize round trip unchanged.
    let mut signals: IndexMap<String, i8> = IndexMap::new();
    signals.insert("CC:00:00:00:00:01".to_string(), -30);
    signals.insert("AA:00:00:00:00:02".to_string(), -42);
    signals.insert("BB:00:00:00:00:03".to_string(), -77);
    let json = serde_json::to_string(&signals).unwrap();
    let back: IndexMap<String, i8> = serde_json::from_str(&json).unwrap();
    let entries: Vec<(String, i8)> = back.into_iter().collect();
    assert_eq!(
        entries,
        vec![
            ("CC:00:00:00:00:01".to_string(), -30),
            ("AA:00:00:00:00:02".to_string(), -42),
            ("BB:00:00:00:00:03".to_string(), -77),
        ]
    );
}

#[test]
fn store_fields_match_the_data_contract() {
    // The store carries a schema version, a creation timestamp and the
    // ordered fingerprint sequence; a fresh store starts at version 1.
    let map = RadioMap::new();
    assert_eq!(map.version, 1);
    assert!(!map.created.is_empty());
    assert!(map.fingerprints.is_empty());
}
