//! Ordered maps of the container parameters, kept in indexmap's `IndexMap`.

use vstd::prelude::*;

use indexmap::IndexMap;

use crate::lowering::{MountSpec, MountSpecView};

verus! {

#[verifier::external_type_specification]
#[verifier::external_body]
#[verifier::reject_recursive_types(K)]
#[verifier::reject_recursive_types(V)]
#[verifier::reject_recursive_types(S)]
pub struct ExIndexMap<K, V, S>(IndexMap<K, V, S>);

/// Whether `s[i]` is the first pair with key `k`.
pub open spec fn first_with_key<V>(s: Seq<(Seq<char>, V)>, k: Seq<char>, i: int) -> bool {
    0 <= i < s.len() && s[i].0 == k && forall|j: int| 0 <= j < i ==> s[j].0 != k
}

/// Inserting into an ordered mapping: the value of an existing key is
/// replaced in place, a new key goes last.
pub open spec fn map_insert<V>(s: Seq<(Seq<char>, V)>, k: Seq<char>, v: V) -> Seq<(Seq<char>, V)> {
    if exists|i: int| first_with_key(s, k, i) {
        s.update(choose|i: int| first_with_key(s, k, i), (k, v))
    } else {
        s.push((k, v))
    }
}

/// The entries of an environment map, in order.
pub uninterp spec fn env_entries(m: IndexMap<String, String>) -> Seq<(Seq<char>, Seq<char>)>;

/// The entries of a mount map, in order.
pub uninterp spec fn mount_entries(m: IndexMap<String, MountSpec>) -> Seq<(Seq<char>, MountSpecView)>;

/// Relies on indexmap's `IndexMap::new`: a map with no entries.
#[verifier::external_body]
pub(crate) fn new_env_map() -> (r: IndexMap<String, String>)
    ensures
        env_entries(r) == Seq::<(Seq<char>, Seq<char>)>::empty(),
{
    IndexMap::new()
}

/// Relies on indexmap's `IndexMap::insert`: an existing key keeps its place
/// and takes the new value; a new key goes last.
#[verifier::external_body]
pub(crate) fn env_insert(m: &mut IndexMap<String, String>, k: String, v: String)
    ensures
        env_entries(*final(m)) == map_insert(env_entries(*old(m)), k@, v@),
{
    m.insert(k, v);
}

/// Relies on indexmap's `IndexMap::new`: a map with no entries.
#[verifier::external_body]
pub(crate) fn new_mount_map() -> (r: IndexMap<String, MountSpec>)
    ensures
        mount_entries(r) == Seq::<(Seq<char>, MountSpecView)>::empty(),
{
    IndexMap::new()
}

/// Relies on indexmap's `IndexMap::insert`: an existing key keeps its place
/// and takes the new value; a new key goes last.
#[verifier::external_body]
pub(crate) fn mount_insert(m: &mut IndexMap<String, MountSpec>, k: String, v: MountSpec)
    ensures
        mount_entries(*final(m)) == map_insert(mount_entries(*old(m)), k@, v@),
{
    m.insert(k, v);
}

} // verus!
