//! The argument table: an ordered mapping from binding name to value
//! expression. Insertion order is first-seen order and keys are unique —
//! the resolver checks for an existing key before every insertion.
//!
//! The table is an ordered map of an outside crate; its contents are named
//! by [`table_entries`], and each method the resolver calls is a trusted
//! wrapper whose contract speaks over that name.

use indexmap::IndexMap;
use vstd::prelude::*;

verus! {

#[verifier::external_type_specification]
#[verifier::external_body]
#[verifier::reject_recursive_types(K)]
#[verifier::reject_recursive_types(V)]
#[verifier::reject_recursive_types(S)]
pub struct ExIndexMap<K, V, S>(IndexMap<K, V, S>);

/// The `(key, value)` entries of the table, in insertion order.
pub uninterp spec fn table_entries(m: IndexMap<String, String>) -> Seq<(Seq<char>, Seq<char>)>;

/// No entry of `es` has the key `k`.
pub open spec fn table_lacks_key(es: Seq<(Seq<char>, Seq<char>)>, k: Seq<char>) -> bool {
    forall|i: int| 0 <= i < es.len() ==> (#[trigger] es[i]).0 != k
}

/// Relies on `IndexMap::new`: the new map is empty.
#[verifier::external_body]
pub(crate) fn table_new() -> (r: IndexMap<String, String>)
    ensures
        table_entries(r) == Seq::<(Seq<char>, Seq<char>)>::empty(),
{
    IndexMap::new()
}

/// Relies on `IndexMap::insert`: a key with no equivalent in the map is
/// inserted last in order, other entries untouched.
#[verifier::external_body]
pub(crate) fn table_insert(m: &mut IndexMap<String, String>, k: String, v: String)
    requires
        table_lacks_key(table_entries(*old(m)), k@),
    ensures
        table_entries(*final(m)) == table_entries(*old(m)).push((k@, v@)),
{
    m.insert(k, v);
}

/// Relies on `IndexMap::get_index_of`: the item index for the key if it is
/// present, else `None`.
#[verifier::external_body]
pub(crate) fn table_index_of(m: &IndexMap<String, String>, k: &String) -> (r: Option<usize>)
    ensures
        match r {
            Some(i) => i < table_entries(*m).len() && table_entries(*m)[i as int].0 == k@,
            None => table_lacks_key(table_entries(*m), k@),
        },
{
    m.get_index_of(k)
}

/// Relies on `IndexMap::into_values`: the values, in their map order.
#[verifier::external_body]
pub(crate) fn table_values(m: IndexMap<String, String>) -> (r: Vec<String>)
    ensures
        r@.map_values(|v: String| v@) == table_entries(m).map_values(
            |e: (Seq<char>, Seq<char>)| e.1,
        ),
{
    m.into_values().collect()
}

/// Relies on `IndexMap::len`: the number of entries.
#[verifier::external_body]
pub(crate) fn table_len(m: &IndexMap<String, String>) -> (r: usize)
    ensures
        r == table_entries(*m).len(),
{
    m.len()
}

} // verus!
