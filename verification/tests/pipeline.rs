use indexmap::IndexMap;
use radiolocate::fingerprint::RadioMap;
use radiolocate::matcher::{
    confidence_band, euclidean_distance, extract_top10_features, find_nearest_match, pad_to_10,
    Confidence,
};
use radiolocate::session::{SamplingSession, SessionError};
use radiolocate::signals::{signals_get_index, signals_len};

/// A well-formed management-frame buffer carrying the given identifier and
/// antenna-signal value.
fn mgmt_buffer(mac: [u8; 6], rssi: i8) -> Vec<u8> {
    let mut buf = vec![0u8; 8];
    buf[2] = 12;
    buf.extend_from_slice(&[5, 1, rssi as u8, 0]);
    buf.extend_from_slice(&[0x00, 0x00, 0, 0]);
    buf.extend_from_slice(&[0x11; 6]);
    buf.extend_from_slice(&[0x22; 6]);
    buf.extend_from_slice(&mac);
    buf.extend_from_slice(&[0, 0]);
    buf
}

fn signals_of(pairs: &[(&str, i8)]) -> IndexMap<String, i8> {
    let mut m = IndexMap::new();
    for (k, v) in pairs {
        m.insert(k.to_string(), *v);
    }
    m
}

#[test]
fn pad_keeps_prefix_and_pads_with_sentinel() {
    let padded = pad_to_10(&[-40, -55, -62]);
    assert_eq!(padded.len(), 10);
    assert_eq!(&padded[..3], &[-40, -55, -62]);
    assert!(padded[3..].iter().all(|&x| x == -100));
}

#[test]
fn pad_of_empty_is_all_sentinel() {
    let padded = pad_to_10(&[]);
    assert_eq!(padded, vec![-100i8; 10]);
}

#[test]
fn pad_of_full_vector_is_unchanged() {
    let v: Vec<i8> = (0..10).map(|i| -(i as i8)).collect();
    assert_eq!(pad_to_10(&v), v);
}

#[test]
fn distance_exact_value() {
    // (3-0)^2 + (-4-0)^2 = 25: a squared distance of 25 means distance 5.
    assert_eq!(euclidean_distance(&[3, -4], &[0, 0]), 25);
    assert_eq!(euclidean_distance(&[-40, -50], &[-40, -50]), 0);
}

#[test]
fn distance_is_symmetric() {
    let a: Vec<i8> = vec![-40, -55, -62, 0, 127, -128];
    let b: Vec<i8> = vec![-41, -50, -70, -3, -128, 127];
    assert_eq!(euclidean_distance(&a, &b), euclidean_distance(&b, &a));
    assert_eq!(euclidean_distance(&[], &[]), 0);
}

#[test]
fn top10_features_follow_stored_order() {
    let m = signals_of(&[("A", -40), ("B", -50), ("C", -60)]);
    assert_eq!(extract_top10_features(&m), vec![-40, -50, -60]);
    let many: Vec<(String, i8)> = (0..12).map(|i| (format!("AP{}", i), -(i as i8))).collect();
    let mut im = IndexMap::new();
    for (k, v) in many {
        im.insert(k, v);
    }
    let feats = extract_top10_features(&im);
    assert_eq!(feats.len(), 10);
    assert_eq!(feats[9], -9);
}

#[test]
fn matches_identical_fingerprint_with_high_confidence() {
    let mut map = RadioMap::new();
    map.add_fingerprint("A".to_string(), signals_of(&[("X", -40), ("Y", -50)]));
    map.add_fingerprint("B".to_string(), signals_of(&[("X", -60), ("Y", -70)]));
    let live = extract_top10_features(&signals_of(&[("X", -40), ("Y", -50)]));
    let (label, dist) = find_nearest_match(&live, &map).unwrap();
    assert_eq!(label, "A");
    assert_eq!(dist, 0);
    assert_eq!(confidence_band(dist), Confidence::High);
}

#[test]
fn empty_store_yields_no_candidates() {
    let map = RadioMap::new();
    assert_eq!(find_nearest_match(&[-40, -50], &map), None);
}

#[test]
fn first_fingerprint_wins_exact_ties() {
    let mut map = RadioMap::new();
    map.add_fingerprint("first".to_string(), signals_of(&[("X", -40)]));
    map.add_fingerprint("second".to_string(), signals_of(&[("X", -40)]));
    let live = vec![-40i8];
    let (label, dist) = find_nearest_match(&live, &map).unwrap();
    assert_eq!(label, "first");
    assert_eq!(dist, 0);
}

#[test]
fn confidence_tiers() {
    assert_eq!(confidence_band(0), Confidence::High);
    assert_eq!(confidence_band(99), Confidence::High);
    assert_eq!(confidence_band(100), Confidence::Medium);
    assert_eq!(confidence_band(899), Confidence::Medium);
    assert_eq!(confidence_band(900), Confidence::Low);
    assert_eq!(confidence_band(u64::MAX), Confidence::Low);
}

#[test]
fn empty_session_fails_distinctly() {
    let session = SamplingSession::new();
    assert_eq!(session.finish().err(), Some(SessionError::NoSignalCaptured));
}

#[test]
fn session_of_garbage_only_fails_distinctly() {
    let mut session = SamplingSession::new();
    assert!(!session.feed(&[]));
    assert!(!session.feed(&[0xde; 20]));
    assert!(!session.feed(&[0x00; 60]));
    assert_eq!(session.finish().err(), Some(SessionError::NoSignalCaptured));
}

#[test]
fn session_averages_and_ranks() {
    let ap1 = [0x10, 0, 0, 0, 0, 1];
    let ap2 = [0x10, 0, 0, 0, 0, 2];
    let mut session = SamplingSession::new();
    // ap1 averages (-40 + -45) / 2 = -42 (truncated); ap2 stays at -30.
    assert!(session.feed(&mgmt_buffer(ap1, -40)));
    assert!(session.feed(&mgmt_buffer(ap1, -45)));
    assert!(session.feed(&mgmt_buffer(ap2, -30)));
    let m = session.finish().unwrap();
    assert_eq!(signals_len(&m), 2);
    let first = signals_get_index(&m, 0).unwrap();
    let second = signals_get_index(&m, 1).unwrap();
    assert_eq!(first, ("10:00:00:00:00:02".to_string(), -30));
    assert_eq!(second, ("10:00:00:00:00:01".to_string(), -42));
    assert_eq!(signals_get_index(&m, 2), None);
}

#[test]
fn session_keeps_first_seen_order_on_ties() {
    let ap1 = [0x20, 0, 0, 0, 0, 1];
    let ap2 = [0x20, 0, 0, 0, 0, 2];
    let mut session = SamplingSession::new();
    assert!(session.feed(&mgmt_buffer(ap1, -50)));
    assert!(session.feed(&mgmt_buffer(ap2, -50)));
    let m = session.finish().unwrap();
    assert_eq!(
        signals_get_index(&m, 0).unwrap().0,
        "20:00:00:00:00:01".to_string()
    );
    assert_eq!(
        signals_get_index(&m, 1).unwrap().0,
        "20:00:00:00:00:02".to_string()
    );
}

#[test]
fn session_keeps_only_strongest_ten() {
    let mut session = SamplingSession::new();
    for i in 0..13u8 {
        let mac = [0x30, 0, 0, 0, 0, i + 1];
        assert!(session.feed(&mgmt_buffer(mac, -30 - (i as i8))));
    }
    let m = session.finish().unwrap();
    assert_eq!(signals_len(&m), 10);
    // Strongest first; the three weakest fell off.
    assert_eq!(signals_get_index(&m, 0).unwrap().1, -30);
    assert_eq!(signals_get_index(&m, 9).unwrap().1, -39);
}

#[test]
fn store_appends_without_merging() {
    let mut map = RadioMap::new();
    assert_eq!(map.version, 1);
    assert!(!map.created.is_empty());
    assert_eq!(map.fingerprints.len(), 0);
    map.add_fingerprint("desk".to_string(), signals_of(&[("X", -40)]));
    map.add_fingerprint("desk".to_string(), signals_of(&[("X", -41)]));
    assert_eq!(map.fingerprints.len(), 2);
    assert_eq!(map.fingerprints[0].label, "desk");
    assert_eq!(map.fingerprints[1].label, "desk");
    assert_eq!(map.fingerprints[1].signals.get("X"), Some(&-41));
}

#[test]
fn default_store_is_empty_at_version_one() {
    let map = RadioMap::default();
    assert_eq!(map.version, 1);
    assert!(map.fingerprints.is_empty());
}
