//! A bounded-duration sampling session: every captured buffer is fed through
//! the frame decoder, readings are aggregated per access-point identifier,
//! and at session end the aggregate is reduced to a ranked top-10 mapping of
//! integer-truncated mean strengths.
//!
//! The caller owns the capture device and the wall clock: it feeds raw
//! buffers in as long as it pleases and then asks for the reduction.

use vstd::prelude::*;
use indexmap::IndexMap;
use crate::decoder::decode_frame;
use crate::decoder::extract_rssi_from_radiotap;
use crate::decoder::RSSI_MAX;
use crate::decoder::RSSI_MIN;
use crate::fingerprint::TOP_N;
use crate::signals::{index_entries, keys_unique, signals_insert, signals_new};

verus! {

/// How a sampling session can fail.
#[derive(Clone, Copy, Debug, PartialEq, Eq, Structural)]
pub enum SessionError {
    /// The session decoded no reading at all. Reported distinctly so that
    /// callers never mistake a dead capture for an empty but valid result.
    NoSignalCaptured,
}

/// View of an aggregation log: identifier and the strengths read for it.
pub open spec fn log_view(v: Seq<(String, Vec<i8>)>) -> Seq<(Seq<char>, Seq<i8>)> {
    v.map_values(|e: (String, Vec<i8>)| (e.0@, e.1@))
}

/// View of a list of (identifier, strength) pairs.
pub open spec fn pairs_view(v: Seq<(String, i8)>) -> Seq<(Seq<char>, i8)> {
    v.map_values(|e: (String, i8)| (e.0@, e.1))
}

/// Sum of the negated strengths; nonnegative when all strengths are
/// nonpositive, as decoded readings are.
pub open spec fn spec_sum_neg(s: Seq<i8>) -> int
    decreases s.len(),
{
    if s.len() == 0 {
        0
    } else {
        (-(s[0] as int)) + spec_sum_neg(s.drop_first())
    }
}

/// The integer-truncated mean of a nonempty sequence of nonpositive
/// strengths: division truncates toward zero, so it is computed on the
/// negated, nonnegative sum.
pub open spec fn spec_mean(s: Seq<i8>) -> int
    recommends
        s.len() > 0,
{
    -(spec_sum_neg(s) / (s.len() as int))
}

/// Each aggregated identifier with the integer-truncated mean of its
/// readings.
pub open spec fn spec_averaged(log: Seq<(Seq<char>, Seq<i8>)>) -> Seq<(Seq<char>, i8)> {
    log.map_values(|e: (Seq<char>, Seq<i8>)| (e.0, spec_mean(e.1) as i8))
}

/// Insert one pair into a descending-by-strength list: it goes immediately
/// before the first entry strictly weaker than it, hence after every entry of
/// equal strength. This placement is what makes the sort stable.
pub open spec fn insert_desc(s: Seq<(Seq<char>, i8)>, e: (Seq<char>, i8)) -> Seq<(Seq<char>, i8)>
    decreases s.len(),
{
    if s.len() == 0 {
        seq![e]
    } else if e.1 > s[0].1 {
        seq![e] + s
    } else {
        seq![s[0]] + insert_desc(s.drop_first(), e)
    }
}

/// Stable sort by descending strength: insert each entry, left to right, into
/// the sorted list of the entries before it. Ties keep first-seen order.
pub open spec fn sort_desc(s: Seq<(Seq<char>, i8)>) -> Seq<(Seq<char>, i8)>
    decreases s.len(),
{
    if s.len() == 0 {
        Seq::empty()
    } else {
        insert_desc(sort_desc(s.drop_last()), s.last())
    }
}

/// Where [`insert_desc`] places a pair of strength `v`: before the first
/// entry strictly weaker than `v`.
pub open spec fn insert_pos(s: Seq<(Seq<char>, i8)>, v: i8) -> int
    decreases s.len(),
{
    if s.len() == 0 {
        0
    } else if s[0].1 < v {
        0
    } else {
        1 + insert_pos(s.drop_first(), v)
    }
}

/// Some entry of the list carries this key.
pub open spec fn contains_key(s: Seq<(Seq<char>, i8)>, key: Seq<char>) -> bool {
    exists|i: int| 0 <= i < s.len() && s[i].0 == key
}

/// The first (up to) `TOP_N` entries of a ranked list.
pub open spec fn take_top(s: Seq<(Seq<char>, i8)>) -> Seq<(Seq<char>, i8)> {
    if s.len() <= TOP_N {
        s
    } else {
        s.take(TOP_N as int)
    }
}

/// The reduction of an aggregation log: rank identifiers by descending mean
/// strength, stably, and keep the strongest ten.
pub open spec fn spec_ranked(log: Seq<(Seq<char>, Seq<i8>)>) -> Seq<(Seq<char>, i8)> {
    take_top(sort_desc(spec_averaged(log)))
}

/// [`insert_desc`] splits the list at [`insert_pos`]: everything before keeps
/// at least the new strength, the entry at the split (if any) is strictly
/// weaker.
proof fn lemma_insert_desc_shape(s: Seq<(Seq<char>, i8)>, e: (Seq<char>, i8))
    ensures
        0 <= insert_pos(s, e.1) <= s.len(),
        insert_desc(s, e) == s.take(insert_pos(s, e.1)).push(e) + s.skip(insert_pos(s, e.1)),
        forall|i: int| 0 <= i < insert_pos(s, e.1) ==> (#[trigger] s[i]).1 >= e.1,
        insert_pos(s, e.1) < s.len() ==> s[insert_pos(s, e.1)].1 < e.1,
    decreases s.len(),
{
    let j = insert_pos(s, e.1);
    if s.len() == 0 {
        assert(insert_desc(s, e) =~= s.take(0).push(e) + s.skip(0));
    } else if e.1 > s[0].1 {
        assert(insert_desc(s, e) =~= s.take(0).push(e) + s.skip(0));
    } else {
        let s1 = s.drop_first();
        lemma_insert_desc_shape(s1, e);
        let j1 = insert_pos(s1, e.1);
        assert(j == 1 + j1);
        assert(s.take(j) =~= seq![s[0]] + s1.take(j1));
        assert(s.skip(j) =~= s1.skip(j1));
        assert(insert_desc(s, e) =~= s.take(j).push(e) + s.skip(j));
        assert(forall|i: int| 0 <= i < j ==> (#[trigger] s[i]).1 >= e.1) by {
            assert(forall|i: int| 1 <= i < j ==> s[i] == s1[i - 1]);
        }
    }
}

/// Inserting a fresh key keeps the keys of a list, adds the new one, and
/// preserves key uniqueness.
proof fn lemma_insert_desc_keys(s: Seq<(Seq<char>, i8)>, e: (Seq<char>, i8))
    ensures
        insert_desc(s, e).len() == s.len() + 1,
        forall|key: Seq<char>|
            #[trigger] contains_key(insert_desc(s, e), key) <==> (contains_key(s, key) || e.0
                == key),
        keys_unique(s) && !contains_key(s, e.0) ==> keys_unique(insert_desc(s, e)),
{
    lemma_insert_desc_shape(s, e);
    let j = insert_pos(s, e.1);
    let t = insert_desc(s, e);
    assert(forall|i: int| 0 <= i < j ==> t[i] == s[i]);
    assert(t[j] == e);
    assert(forall|i: int| j < i < t.len() ==> t[i] == s[i - 1]);
    assert forall|key: Seq<char>| #[trigger]
        contains_key(t, key) implies (contains_key(s, key) || e.0 == key) by {
        let i = choose|i: int| 0 <= i < t.len() && t[i].0 == key;
        if i < j {
            assert(s[i].0 == key);
        } else if i == j {
            assert(e.0 == key);
        } else {
            assert(s[i - 1].0 == key);
        }
    }
    assert forall|key: Seq<char>| (contains_key(s, key) || e.0 == key) implies #[trigger]
        contains_key(t, key) by {
        if contains_key(s, key) {
            let i = choose|i: int| 0 <= i < s.len() && s[i].0 == key;
            if i < j {
                assert(t[i].0 == key);
            } else {
                assert(t[i + 1].0 == key);
            }
        } else {
            assert(t[j].0 == key);
        }
    }
    if keys_unique(s) && !contains_key(s, e.0) {
        assert forall|i1: int, i2: int| 0 <= i1 < i2 < t.len() implies t[i1].0 != t[i2].0 by {
            if t[i1].0 == t[i2].0 {
                if i1 == j {
                    assert(s[i2 - 1].0 == e.0);
                    assert(contains_key(s, e.0));
                } else if i2 == j {
                    assert(s[i1].0 == e.0);
                    assert(contains_key(s, e.0));
                } else {
                    let k1: int = if i1 < j {
                        i1
                    } else {
                        i1 - 1
                    };
                    let k2: int = if i2 < j {
                        i2
                    } else {
                        i2 - 1
                    };
                    assert(s[k1].0 == s[k2].0);
                    assert(k1 < k2);
                }
            }
        }
    }
}

/// The sort is a permutation in the ways the reduction needs: same length,
/// same keys, and key uniqueness is preserved.
proof fn lemma_sort_desc_keys(s: Seq<(Seq<char>, i8)>)
    ensures
        sort_desc(s).len() == s.len(),
        forall|key: Seq<char>|
            #[trigger] contains_key(sort_desc(s), key) <==> contains_key(s, key),
        keys_unique(s) ==> keys_unique(sort_desc(s)),
    decreases s.len(),
{
    if s.len() == 0 {
        assert(forall|key: Seq<char>| !contains_key(sort_desc(s), key) && !contains_key(s, key));
    } else {
        let s0 = s.drop_last();
        let e = s.last();
        lemma_sort_desc_keys(s0);
        lemma_insert_desc_keys(sort_desc(s0), e);
        assert(forall|i: int| 0 <= i < s0.len() ==> s0[i] == s[i]);
        assert forall|key: Seq<char>| #[trigger]
            contains_key(s, key) implies (contains_key(s0, key) || e.0 == key) by {
            let i = choose|i: int| 0 <= i < s.len() && s[i].0 == key;
            if i < s.len() - 1 {
                assert(s0[i].0 == key);
            }
        }
        assert forall|key: Seq<char>| (contains_key(s0, key) || e.0 == key) implies #[trigger]
            contains_key(s, key) by {
            if contains_key(s0, key) {
                let i = choose|i: int| 0 <= i < s0.len() && s0[i].0 == key;
                assert(s[i].0 == key);
            } else {
                assert(s[s.len() - 1].0 == key);
            }
        }
        if keys_unique(s) {
            assert(!contains_key(s0, e.0)) by {
                if contains_key(s0, e.0) {
                    let i = choose|i: int| 0 <= i < s0.len() && s0[i].0 == e.0;
                    assert(s[i].0 == s[s.len() - 1].0);
                }
            }
        }
    }
}

/// Stable insertion sort by descending strength, pinned to [`sort_desc`].
fn sort_pairs_desc(v: Vec<(String, i8)>) -> (r: Vec<(String, i8)>)
    ensures
        pairs_view(r@) == sort_desc(pairs_view(v@)),
{
    let ghost g = v@;
    let mut v = v;
    let mut out: Vec<(String, i8)> = Vec::new();
    let ghost mut idx: int = 0;
    proof {
        assert(g.skip(0) =~= g);
        assert(pairs_view(g.take(0)) =~= Seq::<(Seq<char>, i8)>::empty());
        assert(pairs_view(out@) =~= sort_desc(pairs_view(g.take(0))));
    }
    while v.len() > 0
        invariant
            idx + v@.len() == g.len(),
            v@ == g.skip(idx),
            out@.len() == idx,
            pairs_view(out@) == sort_desc(pairs_view(g.take(idx))),
        decreases v@.len(),
    {
        let e = v.remove(0);
        proof {
            assert(e == g[idx]);
            assert(v@ =~= g.skip(idx + 1));
        }
        let mut j: usize = 0;
        while j < out.len() && out[j].1 >= e.1
            invariant
                j <= out@.len(),
                forall|i: int| 0 <= i < j ==> (#[trigger] out@[i]).1 >= e.1,
            decreases out@.len() - j,
        {
            j = j + 1;
        }
        let ghost old_out = out@;
        out.insert(j, e);
        proof {
            let so = pairs_view(old_out);
            let se = (e.0@, e.1);
            lemma_insert_desc_shape(so, se);
            let js = insert_pos(so, e.1);
            assert(forall|i: int| 0 <= i < so.len() ==> so[i].1 == (#[trigger] old_out[i]).1);
            assert(js == j) by {
                if js < j {
                    assert(old_out[js].1 >= e.1);
                    assert(so[js].1 < e.1);
                } else if j < js {
                    assert(so[j as int].1 >= e.1);
                    assert(old_out[j as int].1 < e.1);
                }
            }
            assert(pairs_view(out@) =~= so.take(js).push(se) + so.skip(js));
            assert(g.take(idx + 1).drop_last() =~= g.take(idx));
            assert(pairs_view(g.take(idx + 1)).drop_last() =~= pairs_view(g.take(idx)));
            assert(pairs_view(g.take(idx + 1)).last() == se);
            assert(pairs_view(out@) == sort_desc(pairs_view(g.take(idx + 1))));
            idx = idx + 1;
        }
    }
    proof {
        assert(g.take(idx) =~= g);
    }
    out
}



/// The list is in descending strength order.
pub open spec fn sorted_desc(s: Seq<(Seq<char>, i8)>) -> bool {
    forall|i: int, j: int| 0 <= i < j < s.len() ==> (#[trigger] s[i]).1 >= (#[trigger] s[j]).1
}

/// Inserting into a descending list keeps it descending.
proof fn lemma_insert_desc_sorted(s: Seq<(Seq<char>, i8)>, e: (Seq<char>, i8))
    requires
        sorted_desc(s),
    ensures
        sorted_desc(insert_desc(s, e)),
{
    lemma_insert_desc_shape(s, e);
    let j = insert_pos(s, e.1);
    let t = insert_desc(s, e);
    assert(forall|i: int| 0 <= i < j ==> t[i] == s[i]);
    assert(t[j] == e);
    assert(forall|i: int| j < i < t.len() ==> t[i] == s[i - 1]);
    assert forall|i1: int, i2: int| 0 <= i1 < i2 < t.len() implies t[i1].1 >= t[i2].1 by {
        if i1 == j && i2 > j {
            assert(s[j].1 < e.1);
            assert(s[j].1 >= s[i2 - 1].1);
        } else if i2 == j && i1 < j {
            assert(s[i1].1 >= e.1);
        }
    }
}

/// The reduction really ranks: what [`sort_desc`] returns is in descending
/// strength order, whatever the input.
pub proof fn lemma_sort_desc_sorted(s: Seq<(Seq<char>, i8)>)
    ensures
        sorted_desc(sort_desc(s)),
    decreases s.len(),
{
    if s.len() > 0 {
        lemma_sort_desc_sorted(s.drop_last());
        lemma_insert_desc_sorted(sort_desc(s.drop_last()), s.last());
    }
}

/// A session's ranked reduction is in descending mean-strength order.
pub proof fn lemma_ranked_is_sorted(log: Seq<(Seq<char>, Seq<i8>)>)
    ensures
        sorted_desc(spec_ranked(log)),
{
    lemma_sort_desc_sorted(spec_averaged(log));
    let t = sort_desc(spec_averaged(log));
    assert(forall|i: int| 0 <= i < take_top(t).len() ==> #[trigger] take_top(t)[i] == t[i]);
}

/// One captured reading was appended to the aggregation log: to the entry
/// already carrying this identifier, or as a fresh entry at the end.
pub open spec fn spec_log_one(
    log: Seq<(Seq<char>, Seq<i8>)>,
    mac: Seq<char>,
    rssi: i8,
) -> Seq<(Seq<char>, Seq<i8>)> {
    if exists|k: int| 0 <= k < log.len() && log[k].0 == mac {
        let k = choose|k: int| 0 <= k < log.len() && log[k].0 == mac;
        log.update(k, (mac, log[k].1.push(rssi)))
    } else {
        log.push((mac, seq![rssi]))
    }
}

/// The decoder only emits strengths within the plausible physical range.
proof fn lemma_decode_rssi_range(p: Seq<u8>)
    ensures
        decode_frame(p) matches Some(rd) ==> RSSI_MIN <= rd.1 <= RSSI_MAX,
{
}

/// The position of the entry carrying this identifier, if any.
fn find_key(readings: &Vec<(String, Vec<i8>)>, mac: &String) -> (r: Option<usize>)
    ensures
        match r {
            Some(k) => k < readings@.len() && readings@[k as int].0@ == mac@,
            None => forall|j: int|
                0 <= j < readings@.len() ==> (#[trigger] readings@[j]).0@ != mac@,
        },
{
    let mut k: usize = 0;
    while k < readings.len()
        invariant
            k <= readings@.len(),
            forall|j: int| 0 <= j < k ==> (#[trigger] readings@[j]).0@ != mac@,
        decreases readings@.len() - k,
    {
        if readings[k].0 == *mac {
            return Some(k);
        }
        k = k + 1;
    }
    None
}

/// Integer-truncated mean of a nonempty list of in-range strengths.
fn mean_dbm(readings: &Vec<i8>) -> (m: i8)
    requires
        readings@.len() > 0,
        forall|i: int| 0 <= i < readings@.len() ==> RSSI_MIN <= #[trigger] readings@[i] <= RSSI_MAX,
    ensures
        m == spec_mean(readings@),
        RSSI_MIN <= m <= RSSI_MAX,
{
    let n = readings.len();
    let mut sum: u128 = 0;
    let mut i: usize = 0;
    proof {
        assert(readings@.skip(0) =~= readings@);
    }
    while i < n
        invariant
            i <= n,
            n == readings@.len(),
            forall|k: int| 0 <= k < readings@.len() ==> RSSI_MIN <= #[trigger] readings@[k] <= RSSI_MAX,
            sum <= 100 * (i as int),
            sum + spec_sum_neg(readings@.skip(i as int)) == spec_sum_neg(readings@),
        decreases n - i,
    {
        let x = readings[i];
        proof {
            assert(readings@.skip(i as int).drop_first() =~= readings@.skip(i as int + 1));
        }
        sum = sum + ((-(x as i32)) as u128);
        i = i + 1;
    }
    proof {
        assert(spec_sum_neg(readings@.skip(n as int)) == 0);
        assert((sum as int) / (n as int) <= 100) by (nonlinear_arith)
            requires
                sum as int <= 100 * (n as int),
                n as int > 0,
                sum as int >= 0,
        ;
    }
    let mean_neg: u128 = sum / (n as u128);
    let m: i8 = -((mean_neg as u8) as i8);
    m
}

/// The aggregation state of one sampling session. Treat the log as owned by
/// the session: it is read and grown only through [`SamplingSession::feed`]
/// and reduced by [`SamplingSession::finish`].
pub struct SamplingSession {
    pub readings: Vec<(String, Vec<i8>)>,
}

impl SamplingSession {
    /// The aggregation log: each identifier seen so far with every strength
    /// read for it, in first-seen order.
    pub open spec fn view_log(self) -> Seq<(Seq<char>, Seq<i8>)> {
        log_view(self.readings@)
    }

    /// Identifiers are unique, every entry has at least one reading, and all
    /// readings are within the plausible physical range.
    pub open spec fn wf(self) -> bool {
        &&& forall|i: int, j: int|
            0 <= i < j < self.readings@.len() ==> (#[trigger] self.readings@[i]).0@ != (
            #[trigger] self.readings@[j]).0@
        &&& forall|i: int|
            0 <= i < self.readings@.len() ==> (#[trigger] self.readings@[i]).1@.len() > 0
        &&& forall|i: int, k: int|
            0 <= i < self.readings@.len() && 0 <= k < self.readings@[i].1@.len() ==> RSSI_MIN <= (
            #[trigger] self.readings@[i].1@[k]) <= RSSI_MAX
    }

    /// A session that has decoded nothing yet.
    pub fn new() -> (r: SamplingSession)
        ensures
            r.wf(),
            r.view_log().len() == 0,
    {
        SamplingSession { readings: Vec::new() }
    }

    /// Feed one captured buffer through the decoder. A buffer that decodes to
    /// a reading is appended to the log under its identifier and `true` comes
    /// back; anything the decoder rejects leaves the session unchanged.
    pub fn feed(&mut self, packet: &[u8]) -> (got: bool)
        requires
            old(self).wf(),
        ensures
            final(self).wf(),
            match decode_frame(packet@) {
                Some(rd) => got && final(self).view_log() == spec_log_one(
                    old(self).view_log(),
                    rd.0,
                    rd.1,
                ),
                None => !got && final(self).view_log() == old(self).view_log(),
            },
    {
        proof {
            lemma_decode_rssi_range(packet@);
        }
        match extract_rssi_from_radiotap(packet) {
            None => false,
            Some((mac, rssi)) => {
                let ghost lg = old(self).view_log();
                match find_key(&self.readings, &mac) {
                    Some(k) => {
                        let mut entry = self.readings.remove(k);
                        entry.1.push(rssi);
                        let ghost new_entry = entry;
                        self.readings.insert(k, entry);
                        proof {
                            assert(self.readings@ =~= old(self).readings@.update(
                                k as int,
                                new_entry,
                            ));
                            assert(lg[k as int].0 == mac@);
                            let k2 = choose|k2: int| 0 <= k2 < lg.len() && lg[k2].0 == mac@;
                            assert(k2 == k as int);
                            assert(self.view_log() =~= spec_log_one(lg, mac@, rssi));
                        }
                        true
                    },
                    None => {
                        let mut first: Vec<i8> = Vec::new();
                        first.push(rssi);
                        self.readings.push((mac, first));
                        proof {
                            assert(!(exists|k2: int| 0 <= k2 < lg.len() && lg[k2].0 == mac@));
                            assert(self.view_log() =~= spec_log_one(lg, mac@, rssi));
                        }
                        true
                    },
                }
            },
        }
    }

    /// Reduce the session: the integer-truncated mean strength of each
    /// identifier, ranked by descending mean (stably: ties keep first-seen
    /// order) and truncated to the strongest ten. A session that decoded no
    /// reading at all fails with `NoSignalCaptured` instead of passing off an
    /// empty mapping as a result.
    pub fn finish(self) -> (r: Result<IndexMap<String, i8>, SessionError>)
        requires
            self.wf(),
        ensures
            match r {
                Ok(m) => {
                    &&& self.view_log().len() > 0
                    &&& index_entries(m) == spec_ranked(self.view_log())
                    &&& keys_unique(index_entries(m))
                    &&& 0 < index_entries(m).len() <= TOP_N
                },
                Err(e) => e == SessionError::NoSignalCaptured && self.view_log().len() == 0,
            },
    {
        let mut readings = self.readings;
        if readings.len() == 0 {
            return Err(SessionError::NoSignalCaptured);
        }
        let ghost g = readings@;
        let mut averaged: Vec<(String, i8)> = Vec::new();
        let ghost mut idx: int = 0;
        proof {
            assert(g.skip(0) =~= g);
            assert(pairs_view(averaged@) =~= spec_averaged(log_view(g.take(0))));
        }
        while readings.len() > 0
            invariant
                idx + readings@.len() == g.len(),
                readings@ == g.skip(idx),
                averaged@.len() == idx,
                pairs_view(averaged@) == spec_averaged(log_view(g.take(idx))),
                forall|i: int| 0 <= i < g.len() ==> (#[trigger] g[i]).1@.len() > 0,
                forall|i: int, k: int|
                    0 <= i < g.len() && 0 <= k < g[i].1@.len() ==> RSSI_MIN <= (
                    #[trigger] g[i].1@[k]) <= RSSI_MAX,
            decreases readings@.len(),
        {
            let entry = readings.remove(0);
            proof {
                assert(entry == g[idx]);
                assert(readings@ =~= g.skip(idx + 1));
            }
            let m = mean_dbm(&entry.1);
            let ghost prev = averaged@;
            averaged.push((entry.0, m));
            proof {
                assert(log_view(g.take(idx + 1)) =~= log_view(g.take(idx)).push(
                    (g[idx].0@, g[idx].1@),
                ));
                assert(spec_mean(g[idx].1@) == m as int);
                assert((spec_mean(g[idx].1@)) as i8 == m);
                assert(pairs_view(averaged@) =~= pairs_view(prev).push((g[idx].0@, m)));
                assert(spec_averaged(log_view(g.take(idx)).push((g[idx].0@, g[idx].1@))) =~= 
                    spec_averaged(log_view(g.take(idx))).push(
                    (g[idx].0@, spec_mean(g[idx].1@) as i8),
                ));
                assert(pairs_view(averaged@) =~= spec_averaged(log_view(g.take(idx + 1))));
                idx = idx + 1;
            }
        }
        proof {
            assert(g.take(idx) =~= g);
        }
        let ghost avg = spec_averaged(log_view(g));
        proof {
            assert(keys_unique(avg)) by {
                assert(forall|i: int| 0 <= i < avg.len() ==> avg[i].0 == (#[trigger] g[i]).0@);
            }
            lemma_sort_desc_keys(avg);
        }
        let mut ranked = sort_pairs_desc(averaged);
        ranked.truncate(TOP_N);
        proof {
            assert(pairs_view(ranked@) =~= spec_ranked(log_view(g)));
            assert(keys_unique(pairs_view(ranked@))) by {
                assert(forall|i: int|
                    0 <= i < ranked@.len() ==> pairs_view(ranked@)[i] == sort_desc(avg)[i]);
            }
        }
        let mut m = signals_new();
        let mut i: usize = 0;
        proof {
            assert(index_entries(m) =~= pairs_view(ranked@).take(0));
        }
        while i < ranked.len()
            invariant
                i <= ranked@.len(),
                index_entries(m) == pairs_view(ranked@).take(i as int),
                keys_unique(pairs_view(ranked@)),
            decreases ranked@.len() - i,
        {
            let key = ranked[i].0.clone();
            let val = ranked[i].1;
            proof {
                assert(key@ == pairs_view(ranked@)[i as int].0);
                assert(forall|l: int| 0 <= l < i ==> (#[trigger] index_entries(m)[l]).0 != key@)
                    by {
                    assert(forall|l: int|
                        0 <= l < i ==> #[trigger] index_entries(m)[l] == pairs_view(ranked@)[l]);
                }
            }
            signals_insert(&mut m, key, val);
            proof {
                assert(index_entries(m) =~= pairs_view(ranked@).take(i as int + 1));
            }
            i = i + 1;
        }
        proof {
            assert(pairs_view(ranked@).take(ranked@.len() as int) =~= pairs_view(ranked@));
        }
        Ok(m)
    }
}

} // verus!
