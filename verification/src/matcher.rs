//! Nearest-neighbor matching of a live ranked signal mapping against the
//! stored fingerprints, by Euclidean distance on fixed-length feature
//! vectors.
//!
//! Distances appear everywhere as the *squared* Euclidean distance: squaring
//! is monotone on nonnegative reals, so the nearest neighbor and the
//! confidence bands come out exactly as with the rooted distance, while every
//! value stays an integer.

use vstd::prelude::*;
use indexmap::IndexMap;
use crate::fingerprint::{RadioFingerprint, RadioMap};
use crate::signals::{index_entries, signals_get_index, signals_len};

verus! {

/// Feature vectors are padded to exactly this length.
pub const FEATURE_LEN: usize = 10;

/// Sentinel strength used to right-pad short feature vectors, in dBm.
pub const PAD_VALUE: i8 = -100;

/// A vector right-padded with the sentinel up to length 10; a vector already
/// of length 10 or more is unchanged.
pub open spec fn spec_pad_to_10(v: Seq<i8>) -> Seq<i8> {
    if v.len() >= FEATURE_LEN {
        v
    } else {
        v + Seq::new((FEATURE_LEN - v.len()) as nat, |i: int| PAD_VALUE)
    }
}

/// The strengths of the first (up to) 10 entries of a signal mapping, in
/// stored order.
pub open spec fn spec_features(entries: Seq<(Seq<char>, i8)>) -> Seq<i8> {
    if entries.len() <= FEATURE_LEN {
        entries.map_values(|e: (Seq<char>, i8)| e.1)
    } else {
        entries.take(FEATURE_LEN as int).map_values(|e: (Seq<char>, i8)| e.1)
    }
}

/// Sum of squared pairwise differences, over the shorter of the two vectors.
pub open spec fn spec_dist_sq(a: Seq<i8>, b: Seq<i8>) -> int
    decreases a.len(),
{
    if a.len() == 0 || b.len() == 0 {
        0
    } else {
        (a[0] - b[0]) * (a[0] - b[0]) + spec_dist_sq(a.drop_first(), b.drop_first())
    }
}

/// The squared distance is symmetric in its two vectors: exchanging them
/// never changes it, whatever their lengths or contents.
pub proof fn lemma_euclidean_distance_symmetric(a: Seq<i8>, b: Seq<i8>)
    ensures
        spec_dist_sq(a, b) == spec_dist_sq(b, a),
    decreases a.len(),
{
    if a.len() == 0 || b.len() == 0 {
    } else {
        let x = a[0] as int;
        let y = b[0] as int;
        assert((x - y) * (x - y) == (y - x) * (y - x)) by (nonlinear_arith);
        lemma_euclidean_distance_symmetric(a.drop_first(), b.drop_first());
    }
}

/// Each squared difference of two signed bytes is at most 65025 = 255 * 255.
proof fn lemma_sq_diff_bounds(x: int, y: int)
    requires
        -128 <= x <= 127,
        -128 <= y <= 127,
    ensures
        0 <= (x - y) * (x - y) <= 65025,
{
    assert(0 <= (x - y) * (x - y) <= 65025) by (nonlinear_arith)
        requires
            -255 <= x - y <= 255,
    ;
}

/// Take up to the first 10 strengths of a signal mapping, in stored order.
pub fn extract_top10_features(signals: &IndexMap<String, i8>) -> (r: Vec<i8>)
    ensures
        r@ == spec_features(index_entries(*signals)),
{
    let ghost target = spec_features(index_entries(*signals));
    let n = signals_len(signals);
    let k = if n < FEATURE_LEN {
        n
    } else {
        FEATURE_LEN
    };
    let mut r: Vec<i8> = Vec::new();
    let mut i: usize = 0;
    while i < k
        invariant
            i <= k,
            k == if n < FEATURE_LEN { n as int } else { FEATURE_LEN as int },
            n == index_entries(*signals).len(),
            target == spec_features(index_entries(*signals)),
            target.len() == k,
            r@ == target.take(i as int),
        decreases k - i,
    {
        let e = match signals_get_index(signals, i) {
            Some(e) => e,
            None => (String::new(), 0i8),
        };
        r.push(e.1);
        proof {
            assert(r@ =~= target.take(i as int + 1));
        }
        i = i + 1;
    }
    proof {
        assert(r@ =~= target);
    }
    r
}

/// Right-pad a vector with the sentinel strength to length 10; the first
/// `min(len, 10)` entries are kept unchanged, and a vector of length 10 or
/// more comes back as it was.
pub fn pad_to_10(values: &[i8]) -> (r: Vec<i8>)
    ensures
        r@ == spec_pad_to_10(values@),
        r@.len() == if values@.len() >= FEATURE_LEN {
            values@.len() as int
        } else {
            FEATURE_LEN as int
        },
        forall|i: int| 0 <= i < values@.len() ==> r@[i] == values@[i],
        forall|i: int| values@.len() <= i < r@.len() ==> r@[i] == PAD_VALUE,
{
    let mut padded: Vec<i8> = Vec::new();
    let mut i: usize = 0;
    while i < values.len()
        invariant
            i <= values@.len(),
            padded@ == values@.take(i as int),
        decreases values@.len() - i,
    {
        padded.push(values[i]);
        proof {
            assert(padded@ =~= values@.take(i as int + 1));
        }
        i = i + 1;
    }
    proof {
        assert(padded@ =~= values@);
    }
    while padded.len() < FEATURE_LEN
        invariant
            values@.len() <= padded@.len(),
            padded@.len() <= FEATURE_LEN || padded@.len() == values@.len(),
            padded@.take(values@.len() as int) == values@,
            forall|j: int| values@.len() <= j < padded@.len() ==> padded@[j] == PAD_VALUE,
        decreases FEATURE_LEN - padded@.len(),
    {
        padded.push(PAD_VALUE);
    }
    proof {
        assert(padded@ =~= spec_pad_to_10(values@));
    }
    padded
}

/// Squared Euclidean distance of two vectors, over their common prefix.
pub fn euclidean_distance(a: &[i8], b: &[i8]) -> (r: u64)
    requires
        a@.len() <= 0xffff_ffff || b@.len() <= 0xffff_ffff,
    ensures
        r == spec_dist_sq(a@, b@),
{
    let n = if a.len() <= b.len() {
        a.len()
    } else {
        b.len()
    };
    let mut acc: u64 = 0;
    let mut i: usize = 0;
    proof {
        assert(a@.skip(0) =~= a@);
        assert(b@.skip(0) =~= b@);
    }
    while i < n
        invariant
            i <= n,
            n == if a@.len() <= b@.len() {
                a@.len()
            } else {
                b@.len()
            },
            n <= 0xffff_ffff,
            acc <= 65025 * (i as int),
            acc + spec_dist_sq(a@.skip(i as int), b@.skip(i as int)) == spec_dist_sq(a@, b@),
        decreases n - i,
    {
        let d: i32 = a[i] as i32 - b[i] as i32;
        proof {
            lemma_sq_diff_bounds(a@[i as int] as int, b@[i as int] as int);
            assert(a@.skip(i as int).drop_first() =~= a@.skip(i as int + 1));
            assert(b@.skip(i as int).drop_first() =~= b@.skip(i as int + 1));
        }
        acc = acc + (d * d) as u64;
        i = i + 1;
    }
    proof {
        assert(spec_dist_sq(a@.skip(i as int), b@.skip(i as int)) == 0);
    }
    acc
}

/// The squared distance of the live features to one stored fingerprint, both
/// padded to length 10.
pub open spec fn spec_fp_distance(current: Seq<i8>, fp: RadioFingerprint) -> int {
    spec_dist_sq(spec_pad_to_10(current), spec_pad_to_10(spec_features(index_entries(fp.signals))))
}

/// The squared distances of the live features to every stored fingerprint.
pub open spec fn spec_distances(current: Seq<i8>, fps: Seq<RadioFingerprint>) -> Seq<int> {
    fps.map_values(|fp: RadioFingerprint| spec_fp_distance(current, fp))
}

/// The position of the first minimum of a nonempty sequence: a strictly
/// smaller value is needed to displace the running best, so the earliest
/// position wins all exact ties.
pub open spec fn first_min_index(s: Seq<int>) -> int
    recommends
        s.len() > 0,
    decreases s.len(),
{
    if s.len() <= 1 {
        0
    } else {
        let m = first_min_index(s.drop_last());
        if s.last() < s[m] {
            s.len() - 1
        } else {
            m
        }
    }
}

/// The first minimum is within bounds, no value is smaller, and every value
/// before it is strictly larger than it.
pub proof fn lemma_first_min_index_props(s: Seq<int>)
    requires
        s.len() > 0,
    ensures
        0 <= first_min_index(s) < s.len(),
        forall|j: int| 0 <= j < s.len() ==> s[first_min_index(s)] <= #[trigger] s[j],
        forall|j: int| 0 <= j < first_min_index(s) ==> s[first_min_index(s)] < #[trigger] s[j],
    decreases s.len(),
{
    if s.len() <= 1 {
    } else {
        lemma_first_min_index_props(s.drop_last());
        assert(forall|j: int| 0 <= j < s.len() - 1 ==> s[j] == s.drop_last()[j]);
    }
}

/// Find the stored fingerprint nearest to the live features: the label and
/// squared distance of the first fingerprint, in store order, attaining the
/// minimal distance. `None` exactly when the store holds no fingerprints.
pub fn find_nearest_match(current_features: &[i8], radio_map: &RadioMap) -> (r: Option<
    (String, u64),
>)
    ensures
        r is None <==> radio_map.fingerprints@.len() == 0,
        r matches Some(pr) ==> {
            let dists = spec_distances(current_features@, radio_map.fingerprints@);
            let w = first_min_index(dists);
            &&& pr.0@ == radio_map.fingerprints@[w].label@
            &&& pr.1 == dists[w]
            &&& forall|j: int| 0 <= j < dists.len() ==> pr.1 <= #[trigger] dists[j]
        },
{
    let ghost dists = spec_distances(current_features@, radio_map.fingerprints@);
    let padded_current = pad_to_10(current_features);
    let n = radio_map.fingerprints.len();
    if n == 0 {
        return None;
    }
    let mut best_label: String = String::new();
    let mut best_distance: u64 = 0;
    let ghost mut best_w: int = 0;
    let mut started = false;
    let mut i: usize = 0;
    while i < n
        invariant
            i <= n,
            n == radio_map.fingerprints@.len(),
            dists == spec_distances(current_features@, radio_map.fingerprints@),
            dists.len() == n,
            padded_current@ == spec_pad_to_10(current_features@),
            started <==> i > 0,
            started ==> {
                &&& best_w == first_min_index(dists.take(i as int))
                &&& 0 <= best_w < i
                &&& best_distance == dists[best_w]
                &&& best_label@ == radio_map.fingerprints@[best_w].label@
            },
        decreases n - i,
    {
        let fp = &radio_map.fingerprints[i];
        let features = extract_top10_features(&fp.signals);
        let padded_saved = pad_to_10(features.as_slice());
        let distance = euclidean_distance(padded_current.as_slice(), padded_saved.as_slice());
        proof {
            assert(dists[i as int] == spec_fp_distance(
                current_features@,
                radio_map.fingerprints@[i as int],
            ));
            assert(dists.take(i as int + 1).drop_last() =~= dists.take(i as int));
            assert(dists.take(i as int + 1).last() == dists[i as int]);
        }
        if !started || distance < best_distance {
            best_label = fp.label.clone();
            best_distance = distance;
            proof {
                best_w = i as int;
            }
            started = true;
        } else {
            started = true;
        }
        i = i + 1;
    }
    proof {
        assert(dists.take(n as int) =~= dists);
        lemma_first_min_index_props(dists);
    }
    Some((best_label, best_distance))
}

/// Confidence band of a match, over the squared distance: a rooted distance
/// below 10 (squared: below 100) is high, below 30 (squared: below 900)
/// medium, anything farther low. Purely presentational; selection never uses
/// it.
#[derive(Clone, Copy, Debug, PartialEq, Eq, Structural)]
pub enum Confidence {
    High,
    Medium,
    Low,
}

/// Band a squared distance into the three confidence tiers.
pub fn confidence_band(dist_sq: u64) -> (r: Confidence)
    ensures
        r == Confidence::High <==> dist_sq < 100,
        r == Confidence::Medium <==> (100 <= dist_sq && dist_sq < 900),
        r == Confidence::Low <==> dist_sq >= 900,
{
    if dist_sq < 100 {
        Confidence::High
    } else if dist_sq < 900 {
        Confidence::Medium
    } else {
        Confidence::Low
    }
}

} // verus!
