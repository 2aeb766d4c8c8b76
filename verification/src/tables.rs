//! The concurrent hash table: its type, and tables of numbers by number.

use dashmap::DashMap;
use vstd::prelude::*;

verus! {

/// `dashmap::DashMap`, opaque here: a table is read and changed through the functions that
/// name its contents.
#[verifier::external_type_specification]
#[verifier::external_body]
#[verifier::reject_recursive_types(K)]
#[verifier::reject_recursive_types(V)]
#[verifier::reject_recursive_types(S)]
pub struct ExDashMap<K, V, S>(dashmap::DashMap<K, V, S>);

/// The entries of a table of numbers.
pub uninterp spec fn number_table(m: DashMap<u32, u64>) -> Map<u32, u64>;

/// No entries.
pub open spec fn no_numbers() -> Map<u32, u64> {
    Map::empty()
}

/// Calls `DashMap::new`: the table is empty.
#[verifier::external_body]
pub(crate) fn table_new() -> (m: DashMap<u32, u64>)
    ensures
        number_table(m) == no_numbers(),
{
    DashMap::new()
}

/// Calls `DashMap::get` and copies the value out: `None` exactly when there is no entry.
#[verifier::external_body]
pub(crate) fn table_get(m: &DashMap<u32, u64>, k: u32) -> (r: Option<u64>)
    ensures
        match r {
            Some(v) => number_table(*m).contains_key(k) && number_table(*m)[k] == v,
            None => !number_table(*m).contains_key(k),
        },
{
    m.get(&k).map(|v| *v)
}

/// Calls `DashMap::insert`: the entry is there afterwards, and the others are as before.
#[verifier::external_body]
pub(crate) fn table_insert(m: &mut DashMap<u32, u64>, k: u32, v: u64)
    ensures
        number_table(*final(m)) == number_table(*old(m)).insert(k, v),
{
    m.insert(k, v);
}

/// Calls `DashMap::remove`: the entry is gone, and the others are as before.
#[verifier::external_body]
pub(crate) fn table_remove(m: &mut DashMap<u32, u64>, k: u32)
    ensures
        number_table(*final(m)) == number_table(*old(m)).remove(k),
{
    m.remove(&k);
}

/// Calls `DashMap::len`: the number of entries.
#[verifier::external_body]
pub(crate) fn table_len(m: &DashMap<u32, u64>) -> (n: usize)
    ensures
        n == number_table(*m).dom().len(),
{
    m.len()
}

/// Calls `DashMap::contains_key`.
#[verifier::external_body]
pub(crate) fn table_contains(m: &DashMap<u32, u64>, k: u32) -> (b: bool)
    ensures
        b == number_table(*m).contains_key(k),
{
    m.contains_key(&k)
}

} // verus!
