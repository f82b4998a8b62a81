//! The ordered signal mapping: access-point identifier to averaged signal
//! strength, in descending-strength insertion order.
//!
//! The mapping is an `indexmap::IndexMap<String, i8>`, kept behind a small
//! trusted surface. Its contents are modeled as the sequence of (key view,
//! value) entries in the map's insertion order, named by [`index_entries`].

use vstd::prelude::*;
use indexmap::IndexMap;

verus! {

#[verifier::external_type_specification]
#[verifier::external_body]
#[verifier::reject_recursive_types(K)]
#[verifier::reject_recursive_types(V)]
#[verifier::reject_recursive_types(S)]
pub struct ExIndexMap<K, V, S>(IndexMap<K, V, S>);

/// The entries of an ordered signal mapping, in insertion order.
pub uninterp spec fn index_entries(m: IndexMap<String, i8>) -> Seq<(Seq<char>, i8)>;

/// The keys of an entry sequence are pairwise distinct.
pub open spec fn keys_unique(entries: Seq<(Seq<char>, i8)>) -> bool {
    forall|i: int, j: int| 0 <= i < j < entries.len() ==> entries[i].0 != entries[j].0
}

/// Relies on IndexMap::new: creates an empty map.
#[verifier::external_body]
pub fn signals_new() -> (m: IndexMap<String, i8>)
    ensures
        index_entries(m) == Seq::<(Seq<char>, i8)>::empty(),
{
    IndexMap::new()
}

/// Relies on IndexMap::len: the number of key-value pairs in the map.
#[verifier::external_body]
pub fn signals_len(m: &IndexMap<String, i8>) -> (n: usize)
    ensures
        n == index_entries(*m).len(),
{
    m.len()
}

/// Relies on IndexMap::insert: a pair whose key is not yet present is
/// inserted last in order.
#[verifier::external_body]
pub fn signals_insert(m: &mut IndexMap<String, i8>, key: String, value: i8)
    requires
        forall|i: int|
            0 <= i < index_entries(*old(m)).len() ==> index_entries(*old(m))[i].0 != key@,
    ensures
        index_entries(*final(m)) == index_entries(*old(m)).push((key@, value)),
{
    m.insert(key, value);
}

/// Relies on IndexMap::get_index: the key-value pair at one position in the
/// insertion order, or `None` past the end.
#[verifier::external_body]
pub fn signals_get_index(m: &IndexMap<String, i8>, i: usize) -> (r: Option<(String, i8)>)
    ensures
        match r {
            Some(e) => i < index_entries(*m).len() && e.0@ == index_entries(*m)[i as int].0 && e.1
                == index_entries(*m)[i as int].1,
            None => i >= index_entries(*m).len(),
        },
{
    m.get_index(i).map(|e| (e.0.clone(), *e.1))
}

} // verus!
