use radiolocate::decoder::{
    bssid_field, extract_rssi_from_radiotap, extract_signal_dbm, frame_matches_target,
    AddressField,
};
use radiolocate::macaddr::render_mac;

/// Build a capture buffer: an 8-byte prefix header with the given total
/// prefix length, the given tagged fields, then the frame bytes.
fn build_buffer(prefix_len: usize, fields: &[u8], frame: &[u8]) -> Vec<u8> {
    let mut buf = vec![0u8; 8];
    buf[2] = (prefix_len & 0xff) as u8;
    buf[3] = (prefix_len >> 8) as u8;
    buf.extend_from_slice(fields);
    while buf.len() < prefix_len {
        buf.push(0);
    }
    buf.extend_from_slice(frame);
    buf
}

/// A 24-byte frame header with the given frame-control bytes and addresses.
fn frame_header(fc0: u8, fc1: u8, a1: [u8; 6], a2: [u8; 6], a3: [u8; 6]) -> Vec<u8> {
    let mut f = vec![fc0, fc1, 0, 0];
    f.extend_from_slice(&a1);
    f.extend_from_slice(&a2);
    f.extend_from_slice(&a3);
    f.extend_from_slice(&[0, 0]);
    f
}

const MAC: [u8; 6] = [0xAA, 0xBB, 0xCC, 0xDD, 0xEE, 0xFF];
const OTHER: [u8; 6] = [0x11, 0x22, 0x33, 0x44, 0x55, 0x66];

/// Antenna-signal field (type 5, length 1) holding the given value.
fn signal_field(rssi: i8) -> Vec<u8> {
    vec![5, 1, rssi as u8]
}

#[test]
fn decodes_management_frame() {
    // Management frame (type 0): identifier is Address 3.
    let frame = frame_header(0x00, 0x00, OTHER, OTHER, MAC);
    let buf = build_buffer(12, &signal_field(-45), &frame);
    let reading = extract_rssi_from_radiotap(&buf);
    assert_eq!(reading, Some(("AA:BB:CC:DD:EE:FF".to_string(), -45)));
}

#[test]
fn decodes_data_frame_to_ds() {
    // Data frame (type 2), ToDS=1, FromDS=0: identifier is Address 1.
    let frame = frame_header(0x08, 0x01, MAC, OTHER, OTHER);
    let buf = build_buffer(12, &signal_field(-60), &frame);
    let reading = extract_rssi_from_radiotap(&buf);
    assert_eq!(reading, Some(("AA:BB:CC:DD:EE:FF".to_string(), -60)));
}

#[test]
fn decodes_data_frame_from_ds() {
    // Data frame (type 2), ToDS=0, FromDS=1: identifier is Address 2.
    let frame = frame_header(0x08, 0x02, OTHER, MAC, OTHER);
    let buf = build_buffer(12, &signal_field(-71), &frame);
    let reading = extract_rssi_from_radiotap(&buf);
    assert_eq!(reading, Some(("AA:BB:CC:DD:EE:FF".to_string(), -71)));
}

#[test]
fn decodes_data_frame_no_ds() {
    // Data frame (type 2), ToDS=0, FromDS=0: identifier is Address 3.
    let frame = frame_header(0x08, 0x00, OTHER, OTHER, MAC);
    let buf = build_buffer(12, &signal_field(-30), &frame);
    let reading = extract_rssi_from_radiotap(&buf);
    assert_eq!(reading, Some(("AA:BB:CC:DD:EE:FF".to_string(), -30)));
}

#[test]
fn rejects_wds_frame() {
    // Data frame with both direction bits set: four-address format.
    let frame = frame_header(0x08, 0x03, MAC, MAC, MAC);
    let buf = build_buffer(12, &signal_field(-45), &frame);
    assert_eq!(extract_rssi_from_radiotap(&buf), None);
}

#[test]
fn rejects_control_frame() {
    // Control frame (type 1) has no stable identifier field.
    let frame = frame_header(0x04, 0x00, MAC, MAC, MAC);
    let buf = build_buffer(12, &signal_field(-45), &frame);
    assert_eq!(extract_rssi_from_radiotap(&buf), None);
}

#[test]
fn rejects_empty_buffer() {
    assert_eq!(extract_rssi_from_radiotap(&[]), None);
}

#[test]
fn rejects_short_buffer() {
    assert_eq!(extract_rssi_from_radiotap(&[0u8; 35]), None);
}

#[test]
fn rejects_prefix_longer_than_buffer() {
    let frame = frame_header(0x00, 0x00, OTHER, OTHER, MAC);
    let mut buf = build_buffer(12, &signal_field(-45), &frame);
    // Declare a metadata prefix longer than the whole buffer.
    buf[2] = 0xff;
    buf[3] = 0xff;
    assert_eq!(extract_rssi_from_radiotap(&buf), None);
}

#[test]
fn rejects_missing_signal_field() {
    let frame = frame_header(0x00, 0x00, OTHER, OTHER, MAC);
    // Prefix carries an unrelated field (type 9) only.
    let buf = build_buffer(12, &[9, 1, 0x40], &frame);
    assert_eq!(extract_rssi_from_radiotap(&buf), None);
}

#[test]
fn rejects_out_of_range_signal() {
    let frame = frame_header(0x00, 0x00, OTHER, OTHER, MAC);
    // -120 dBm is below the plausible range.
    let buf = build_buffer(12, &signal_field(-120), &frame);
    assert_eq!(extract_rssi_from_radiotap(&buf), None);
}

#[test]
fn rejects_all_zero_identifier() {
    let frame = frame_header(0x00, 0x00, MAC, MAC, [0u8; 6]);
    let buf = build_buffer(12, &signal_field(-45), &frame);
    assert_eq!(extract_rssi_from_radiotap(&buf), None);
}

#[test]
fn rejects_buffer_too_short_for_frame_header() {
    // Above the minimum viable size, but fewer than 24 frame bytes follow
    // the prefix.
    let frame = frame_header(0x00, 0x00, OTHER, OTHER, MAC);
    let buf = build_buffer(20, &signal_field(-45), &frame[..20]);
    assert_eq!(buf.len(), 40);
    assert_eq!(extract_rssi_from_radiotap(&buf), None);
}

#[test]
fn rejects_field_running_past_prefix() {
    let frame = frame_header(0x00, 0x00, OTHER, OTHER, MAC);
    // Field declares 200 value bytes inside a 12-byte prefix.
    let buf = build_buffer(12, &[5, 200, 0xd3], &frame);
    assert_eq!(extract_rssi_from_radiotap(&buf), None);
}

#[test]
fn skips_other_fields_before_signal() {
    let frame = frame_header(0x00, 0x00, OTHER, OTHER, MAC);
    let mut fields = vec![1, 2, 0x10, 0x20];
    fields.extend_from_slice(&signal_field(-52));
    let buf = build_buffer(16, &fields, &frame);
    let reading = extract_rssi_from_radiotap(&buf);
    assert_eq!(reading, Some(("AA:BB:CC:DD:EE:FF".to_string(), -52)));
}

#[test]
fn total_over_arbitrary_buffers() {
    // A decoder fed pseudo-random garbage of many lengths returns without
    // panicking, and every produced reading is well-formed.
    let mut state: u64 = 0x2545_f491_4f6c_dd1d;
    for len in 0..200usize {
        let mut buf = Vec::with_capacity(len);
        for _ in 0..len {
            state = state.wrapping_mul(6364136223846793005).wrapping_add(1442695040888963407);
            buf.push((state >> 33) as u8);
        }
        if let Some((mac, rssi)) = extract_rssi_from_radiotap(&buf) {
            assert_eq!(mac.len(), 17);
            assert!((-100..=0).contains(&rssi));
        }
    }
}

#[test]
fn address_field_table() {
    assert_eq!(bssid_field(0, false, false), AddressField::Address3);
    assert_eq!(bssid_field(0, true, true), AddressField::Address3);
    assert_eq!(bssid_field(2, false, false), AddressField::Address3);
    assert_eq!(bssid_field(2, true, false), AddressField::Address1);
    assert_eq!(bssid_field(2, false, true), AddressField::Address2);
    assert_eq!(bssid_field(2, true, true), AddressField::Unsupported);
    assert_eq!(bssid_field(1, false, false), AddressField::Unsupported);
    assert_eq!(bssid_field(3, false, true), AddressField::Unsupported);
}

#[test]
fn renders_mac_uppercase_colon_hex() {
    assert_eq!(render_mac(&[0x00, 0x1a, 0x2b, 0x3c, 0x4d, 0x5e]), "00:1A:2B:3C:4D:5E");
    assert_eq!(render_mac(&MAC), "AA:BB:CC:DD:EE:FF");
}

#[test]
fn extracts_signal_without_frame() {
    let buf = build_buffer(12, &signal_field(-77), &[]);
    assert_eq!(extract_signal_dbm(&buf), Some(-77));
    assert_eq!(extract_signal_dbm(&[]), None);
    let no_field = build_buffer(12, &[9, 1, 0x40], &[]);
    assert_eq!(extract_signal_dbm(&no_field), None);
}

#[test]
fn matches_target_at_transmitter_offset() {
    let frame = frame_header(0x08, 0x02, OTHER, MAC, OTHER);
    let buf = build_buffer(12, &signal_field(-45), &frame);
    assert!(frame_matches_target(&buf, &MAC));
    assert!(!frame_matches_target(&buf, &OTHER));
    assert!(!frame_matches_target(&[], &MAC));
    assert!(!frame_matches_target(&buf[..14], &MAC));
}
