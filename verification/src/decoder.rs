//! Frame decoder: turns one raw monitor-mode capture buffer into an optional
//! (access-point identifier, signal strength) reading.
//!
//! A captured buffer starts with a metadata prefix: a fixed 8-byte header
//! (version, pad, a little-endian 16-bit total prefix length, and a 4-byte
//! flags word) followed by tagged variable-length fields, each a 1-byte field
//! type, a 1-byte field length and that many value bytes. The antenna-signal
//! field (type 5) carries the received power as one signed byte. The 802.11
//! frame itself begins right after the prefix.
//!
//! The decoder is total over arbitrary byte input: every malformed, truncated
//! or implausible buffer yields `None`; nothing is ever read outside the
//! buffer and no input can make it panic.

use vstd::prelude::*;
use crate::macaddr::{mac_string, render_mac};

verus! {

/// Minimum viable buffer: an 8-byte prefix header plus some frame content.
pub const MIN_FRAME_LEN: usize = 36;

/// The tagged fields of the metadata prefix start after its fixed header.
pub const PREFIX_FIELDS_OFFSET: usize = 8;

/// Field type of the antenna-signal field inside the metadata prefix.
pub const SIGNAL_FIELD_TYPE: u8 = 5;

/// Lower bound of the plausible received-power range, in dBm.
pub const RSSI_MIN: i8 = -100;

/// Upper bound of the plausible received-power range, in dBm.
pub const RSSI_MAX: i8 = 0;

/// The little-endian 16-bit value stored as (low byte, high byte).
pub open spec fn le16(lo: u8, hi: u8) -> int {
    lo + 256 * hi
}

/// Total length of the buffer's metadata prefix, read from its fixed header.
pub open spec fn prefix_len(p: Seq<u8>) -> int
    recommends
        p.len() >= 4,
{
    le16(p[2], p[3])
}

/// Walk the tagged fields of the metadata prefix within `p[cur..end]` and
/// return the value of the first antenna-signal field, if any. A field whose
/// declared length runs past the prefix ends the walk with nothing found.
pub open spec fn scan_signal(p: Seq<u8>, cur: int, end: int) -> Option<i8>
    recommends
        0 <= cur,
        end <= p.len(),
    decreases end - cur,
{
    if cur + 2 > end {
        None
    } else {
        let t = p[cur];
        let l = p[cur + 1];
        if cur + 2 + l > end {
            None
        } else if t == SIGNAL_FIELD_TYPE && l == 1 {
            Some(p[cur + 2] as i8)
        } else {
            scan_signal(p, cur + 2 + l, end)
        }
    }
}

/// Which header field of a captured frame carries the access-point
/// identifier, by frame type and the ToDS/FromDS direction bits.
#[derive(Clone, Copy, Debug, PartialEq, Eq, Structural)]
pub enum AddressField {
    Address1,
    Address2,
    Address3,
    Unsupported,
}

/// The identifier field for one (frame type, ToDS, FromDS) combination:
/// management frames carry it in Address 3; data frames by direction; WDS
/// (both direction bits set), control and reserved types have no stable
/// identifier field.
pub open spec fn spec_bssid_field(frame_type: u16, to_ds: bool, from_ds: bool) -> AddressField {
    if frame_type == 0 {
        AddressField::Address3
    } else if frame_type == 2 {
        if !to_ds && !from_ds {
            AddressField::Address3
        } else if to_ds && !from_ds {
            AddressField::Address1
        } else if !to_ds && from_ds {
            AddressField::Address2
        } else {
            AddressField::Unsupported
        }
    } else {
        AddressField::Unsupported
    }
}

/// Byte offset of an address field from the start of the 802.11 frame.
pub open spec fn field_offset(f: AddressField) -> int {
    match f {
        AddressField::Address1 => 4,
        AddressField::Address2 => 10,
        AddressField::Address3 => 16,
        AddressField::Unsupported => 0,
    }
}

/// All six identifier bytes are zero (no meaningful access-point identifier).
pub open spec fn all_zero(b: Seq<u8>) -> bool {
    forall|i: int| 0 <= i < b.len() ==> b[i] == 0
}

/// What one raw capture buffer decodes to. The decoder rejects, in order:
/// buffers below the minimum viable size; buffers shorter than their declared
/// metadata prefix; prefixes without an antenna-signal field; signal values
/// outside the plausible physical range; buffers too short for a full frame
/// header; frame types without a stable identifier field; and an all-zero
/// identifier. Otherwise the reading is the identifier's canonical uppercase
/// colon-hex rendering paired with the signal value.
pub open spec fn decode_frame(p: Seq<u8>) -> Option<(Seq<char>, i8)> {
    if p.len() < MIN_FRAME_LEN {
        None
    } else {
        let fl = prefix_len(p);
        if p.len() < fl {
            None
        } else {
            match scan_signal(p, PREFIX_FIELDS_OFFSET as int, fl) {
                None => None,
                Some(rssi) => {
                    if !(RSSI_MIN <= rssi && rssi <= RSSI_MAX) {
                        None
                    } else if p.len() < fl + 24 {
                        None
                    } else {
                        let fc = (le16(p[fl], p[fl + 1])) as u16;
                        let ft = (fc >> 2) & 3;
                        let to_ds = (fc >> 8) & 1 == 1;
                        let from_ds = (fc >> 9) & 1 == 1;
                        let f = spec_bssid_field(ft, to_ds, from_ds);
                        if f == AddressField::Unsupported {
                            None
                        } else {
                            let off = fl + field_offset(f);
                            let bssid = p.subrange(off, off + 6);
                            if all_zero(bssid) {
                                None
                            } else {
                                Some((mac_string(bssid), rssi))
                            }
                        }
                    }
                }
            }
        }
    }
}


/// Every reading the decoder can produce is well-formed: the identifier is a
/// canonical 17-character rendering and the strength lies within the
/// plausible physical range. Together with the decoder having no
/// precondition, this is the decoder's totality: any buffer yields `None` or
/// such a reading.
pub proof fn lemma_decode_reading_well_formed(p: Seq<u8>)
    ensures
        decode_frame(p) matches Some(rd) ==> rd.0.len() == 17 && RSSI_MIN <= rd.1 <= RSSI_MAX,
{
}

/// Identifier field selection, as an executable table for callers and tests.
pub fn bssid_field(frame_type: u16, to_ds: bool, from_ds: bool) -> (r: AddressField)
    ensures
        r == spec_bssid_field(frame_type, to_ds, from_ds),
{
    if frame_type == 0 {
        AddressField::Address3
    } else if frame_type == 2 {
        if !to_ds && !from_ds {
            AddressField::Address3
        } else if to_ds && !from_ds {
            AddressField::Address1
        } else if !to_ds && from_ds {
            AddressField::Address2
        } else {
            AddressField::Unsupported
        }
    } else {
        AddressField::Unsupported
    }
}

/// Walk the prefix fields of `p[PREFIX_FIELDS_OFFSET..end]` for the
/// antenna-signal value.
fn scan_for_signal(p: &[u8], end: usize) -> (r: Option<i8>)
    requires
        end <= p@.len(),
    ensures
        r == scan_signal(p@, PREFIX_FIELDS_OFFSET as int, end as int),
{
    let mut cur: usize = PREFIX_FIELDS_OFFSET;
    while end >= 2 && cur <= end - 2
        invariant
            PREFIX_FIELDS_OFFSET <= cur,
            end <= p@.len(),
            scan_signal(p@, PREFIX_FIELDS_OFFSET as int, end as int) == scan_signal(
                p@,
                cur as int,
                end as int,
            ),
        decreases end - cur,
    {
        let t = p[cur];
        let l = p[cur + 1] as usize;
        if l > end - (cur + 2) {
            return None;
        }
        if t == SIGNAL_FIELD_TYPE && l == 1 {
            return Some(p[cur + 2] as i8);
        }
        cur = cur + 2 + l;
    }
    None
}

/// Decode one raw capture buffer into an optional reading: the access-point
/// identifier in canonical uppercase colon-hex form and the received power in
/// dBm. Total over arbitrary input; every rejection yields `None`.
pub fn extract_rssi_from_radiotap(packet: &[u8]) -> (r: Option<(String, i8)>)
    ensures
        match r {
            Some(pr) => decode_frame(packet@) == Some((pr.0@, pr.1)),
            None => decode_frame(packet@) is None,
        },
{
    if packet.len() < MIN_FRAME_LEN {
        return None;
    }
    let fl = packet[2] as usize + 256 * (packet[3] as usize);
    if packet.len() < fl {
        return None;
    }
    let rssi = match scan_for_signal(packet, fl) {
        Some(v) => v,
        None => {
            return None;
        },
    };
    if !(RSSI_MIN <= rssi && rssi <= RSSI_MAX) {
        return None;
    }
    if packet.len() < fl + 24 {
        return None;
    }
    let fc: u16 = packet[fl] as u16 + 256 * (packet[fl + 1] as u16);
    let ft = (fc >> 2) & 3;
    let to_ds = (fc >> 8) & 1 == 1;
    let from_ds = (fc >> 9) & 1 == 1;
    let field = bssid_field(ft, to_ds, from_ds);
    let off: usize = match field {
        AddressField::Address1 => fl + 4,
        AddressField::Address2 => fl + 10,
        AddressField::Address3 => fl + 16,
        AddressField::Unsupported => {
            return None;
        },
    };
    let bssid = &packet[off..off + 6];
    if bssid[0] == 0 && bssid[1] == 0 && bssid[2] == 0 && bssid[3] == 0 && bssid[4] == 0
        && bssid[5] == 0 {
        proof {
            assert(all_zero(packet@.subrange(off as int, off as int + 6)));
        }
        return None;
    }
    proof {
        assert(!all_zero(packet@.subrange(off as int, off as int + 6)));
    }
    Some((render_mac(bssid), rssi))
}


/// The signal value alone: the metadata prefix is walked for the
/// antenna-signal field with no demand on the frame behind it. For pipelines
/// that already trust the frame layout, such as a filtered motion watch.
pub open spec fn spec_signal_of(p: Seq<u8>) -> Option<i8> {
    if p.len() < PREFIX_FIELDS_OFFSET {
        None
    } else {
        let fl = prefix_len(p);
        if p.len() < fl {
            None
        } else {
            scan_signal(p, PREFIX_FIELDS_OFFSET as int, fl)
        }
    }
}

/// Extract only the received power from a capture buffer, without decoding
/// the frame behind the metadata prefix.
pub fn extract_signal_dbm(packet: &[u8]) -> (r: Option<i8>)
    ensures
        r == spec_signal_of(packet@),
{
    if packet.len() < PREFIX_FIELDS_OFFSET {
        return None;
    }
    let fl = packet[2] as usize + 256 * (packet[3] as usize);
    if packet.len() < fl {
        return None;
    }
    scan_for_signal(packet, fl)
}

/// The buffer carries a frame whose transmitter address equals the target:
/// the six bytes at offset 10 of the frame (Address 2, direction assumed)
/// match. A deliberately narrower, faster filter than the full frame-type
/// table, for watching one known access point.
pub open spec fn spec_matches_target(p: Seq<u8>, t: Seq<u8>) -> bool {
    &&& p.len() >= PREFIX_FIELDS_OFFSET
    &&& prefix_len(p) + 16 <= p.len()
    &&& p.subrange(prefix_len(p) + 10, prefix_len(p) + 16) == t
}

/// Byte-level match of a capture buffer's transmitter address against one
/// 6-byte target address.
pub fn frame_matches_target(packet: &[u8], target: &[u8]) -> (r: bool)
    requires
        target@.len() == 6,
    ensures
        r == spec_matches_target(packet@, target@),
{
    if packet.len() < PREFIX_FIELDS_OFFSET {
        return false;
    }
    let fl = packet[2] as usize + 256 * (packet[3] as usize);
    if packet.len() < fl + 16 {
        return false;
    }
    let ghost sub = packet@.subrange(fl as int + 10, fl as int + 16);
    let mut i: usize = 0;
    while i < 6
        invariant
            i <= 6,
            fl + 16 <= packet@.len(),
            fl == prefix_len(packet@),
            target@.len() == 6,
            sub == packet@.subrange(fl as int + 10, fl as int + 16),
            forall|j: int| 0 <= j < i ==> sub[j] == target@[j],
        decreases 6 - i,
    {
        if packet[fl + 10 + i] != target[i] {
            proof {
                assert(sub[i as int] != target@[i as int]);
            }
            return false;
        }
        i = i + 1;
    }
    proof {
        assert(sub =~= target@);
    }
    true
}

} // verus!
