//! The fingerprint data model: a labeled snapshot of ranked access-point
//! signal strengths, and the append-only store of such snapshots.

use vstd::prelude::*;
use indexmap::IndexMap;
use crate::signals::{index_entries, keys_unique};

verus! {

/// A fingerprint keeps at most this many ranked signal entries.
pub const TOP_N: usize = 10;

/// One labeled snapshot of a location's radio environment. The signal
/// mapping's insertion order is descending strength and is semantically
/// meaningful: feature vectors are truncated in stored order.
pub struct RadioFingerprint {
    pub label: String,
    pub timestamp: i64,
    pub signals: IndexMap<String, i8>,
}

impl RadioFingerprint {
    /// Keys are unique and at most `TOP_N` entries are kept.
    pub open spec fn wf(self) -> bool {
        &&& keys_unique(index_entries(self.signals))
        &&& index_entries(self.signals).len() <= TOP_N
    }
}

/// The versioned, ordered, append-only collection of labeled fingerprints.
/// Labels are not unique keys: duplicates are independent candidates.
pub struct RadioMap {
    pub version: u32,
    pub created: String,
    pub fingerprints: Vec<RadioFingerprint>,
}

/// Relies on chrono::Utc::now and DateTime::to_rfc3339: the current time
/// rendered as a non-empty RFC 3339 timestamp string.
#[verifier::external_body]
fn now_rfc3339() -> (r: String)
    ensures
        r@.len() > 0,
{
    chrono::Utc::now().to_rfc3339()
}

/// Relies on chrono::Utc::now and DateTime::timestamp: the current Unix time
/// in whole seconds. Nothing is assumed of the value returned.
#[verifier::external_body]
fn now_unix_seconds() -> i64 {
    chrono::Utc::now().timestamp()
}

impl RadioMap {
    /// Every stored fingerprint is well-formed.
    pub open spec fn wf(self) -> bool {
        forall|i: int| 0 <= i < self.fingerprints@.len() ==> self.fingerprints@[i].wf()
    }

    /// An empty store at schema version 1, stamped with the creation time.
    pub fn new() -> (r: Self)
        ensures
            r.version == 1,
            r.fingerprints@.len() == 0,
            r.created@.len() > 0,
            r.wf(),
    {
        RadioMap { version: 1, created: now_rfc3339(), fingerprints: Vec::new() }
    }

    /// Append one fingerprint with the given label and signal mapping,
    /// stamped with the current time. Never deduplicates or merges by label:
    /// the store grows by exactly one entry at the end and keeps all earlier
    /// entries unchanged.
    pub fn add_fingerprint(&mut self, label: String, signals: IndexMap<String, i8>)
        requires
            keys_unique(index_entries(signals)),
            index_entries(signals).len() <= TOP_N,
        ensures
            final(self).version == old(self).version,
            final(self).created == old(self).created,
            final(self).fingerprints@.len() == old(self).fingerprints@.len() + 1,
            final(self).fingerprints@ == old(self).fingerprints@.push(
                final(self).fingerprints@.last(),
            ),
            final(self).fingerprints@.last().label == label,
            final(self).fingerprints@.last().signals == signals,
            old(self).wf() ==> final(self).wf(),
    {
        let fp = RadioFingerprint { label, timestamp: now_unix_seconds(), signals };
        self.fingerprints.push(fp);
        proof {
            assert(self.fingerprints@ =~= old(self).fingerprints@.push(self.fingerprints@.last()));
        }
    }
}

impl Default for RadioMap {
    /// An empty store, as `RadioMap::new` builds it.
    fn default() -> (r: Self)
        ensures
            r.version == 1,
            r.fingerprints@.len() == 0,
            r.created@.len() > 0,
            r.wf(),
    {
        RadioMap::new()
    }
}

} // verus!
