//! String-to-string maps that keep the order in which their keys came.
//!
//! The map itself is `indexmap::IndexMap`. What it holds is named
//! `map_entries`, and each of its methods that the library calls has a
//! wrapper whose contract says what the method does to those entries.

use indexmap::IndexMap;
use vstd::prelude::*;

verus! {

#[verifier::external_type_specification]
#[verifier::external_body]
#[verifier::reject_recursive_types(K)]
#[verifier::reject_recursive_types(V)]
#[verifier::reject_recursive_types(S)]
pub struct ExIndexMap<K, V, S>(IndexMap<K, V, S>);

/// The key-value pairs that a map holds, in its order.
pub uninterp spec fn map_entries(m: IndexMap<String, String>) -> Seq<(Seq<char>, Seq<char>)>;

/// The place of the first pair with the given key, or the number of pairs
/// if there is none.
pub open spec fn key_index(entries: Seq<(Seq<char>, Seq<char>)>, key: Seq<char>) -> int
    decreases entries.len(),
{
    if entries.len() == 0 {
        0
    } else if entries[0].0 == key {
        0
    } else {
        1 + key_index(entries.drop_first(), key)
    }
}

/// The pairs after `key` was given `value`: a pair with that key keeps its
/// place and takes the value; without one, the new pair comes last.
pub open spec fn entries_put(
    entries: Seq<(Seq<char>, Seq<char>)>,
    key: Seq<char>,
    value: Seq<char>,
) -> Seq<(Seq<char>, Seq<char>)> {
    let i = key_index(entries, key);
    if 0 <= i < entries.len() {
        entries.update(i, (entries[i].0, value))
    } else {
        entries.push((key, value))
    }
}

/// Calls `IndexMap::new`, which makes a map without pairs.
#[verifier::external_body]
pub(crate) fn entries_new() -> (m: IndexMap<String, String>)
    ensures
        map_entries(m) == Seq::<(Seq<char>, Seq<char>)>::empty(),
{
    IndexMap::new()
}

/// Calls `IndexMap::insert`. Where the map has the key, the pair keeps its
/// place and takes the new value; where it has not, the pair is added last.
#[verifier::external_body]
pub(crate) fn entries_insert(m: &mut IndexMap<String, String>, key: String, value: String)
    ensures
        map_entries(*final(m)) == entries_put(map_entries(*old(m)), key@, value@),
{
    m.insert(key, value);
}

/// Calls `IndexMap::len`, the number of pairs.
#[verifier::external_body]
pub(crate) fn entries_len(m: &IndexMap<String, String>) -> (n: usize)
    ensures
        n == map_entries(*m).len(),
{
    m.len()
}

/// Calls `IndexMap::get_index`, which hands out the pair at a place in the
/// map's order, if the map has that many pairs.
#[verifier::external_body]
pub(crate) fn entries_get(m: &IndexMap<String, String>, index: usize) -> (r: Option<
    (&String, &String),
>)
    ensures
        match r {
            Some((k, v)) => index < map_entries(*m).len() && k@ == map_entries(*m)[index as int].0
                && v@ == map_entries(*m)[index as int].1,
            None => index >= map_entries(*m).len(),
        },
{
    m.get_index(index)
}

/// Calls `IndexMap::clone`, which makes a map with the same pairs in the
/// same order.
#[verifier::external_body]
pub(crate) fn entries_clone(m: &IndexMap<String, String>) -> (r: IndexMap<String, String>)
    ensures
        map_entries(r) == map_entries(*m),
{
    m.clone()
}

/// The pairs of path and file identity that a map holds, in its order.
pub uninterp spec fn path_entries(m: IndexMap<String, u128>) -> Seq<(Seq<char>, u128)>;

/// The place of the first pair with the given path, or the number of pairs
/// if there is none.
pub open spec fn path_index(entries: Seq<(Seq<char>, u128)>, path: Seq<char>) -> int
    decreases entries.len(),
{
    if entries.len() == 0 {
        0
    } else if entries[0].0 == path {
        0
    } else {
        1 + path_index(entries.drop_first(), path)
    }
}

/// The pairs after `path` was given `id`: a pair with that path keeps its
/// place and takes the identity; without one, the new pair comes last.
pub open spec fn paths_put(entries: Seq<(Seq<char>, u128)>, path: Seq<char>, id: u128) -> Seq<
    (Seq<char>, u128),
> {
    let i = path_index(entries, path);
    if 0 <= i < entries.len() {
        entries.update(i, (entries[i].0, id))
    } else {
        entries.push((path, id))
    }
}

/// Calls `IndexMap::new`, which makes a map without pairs.
#[verifier::external_body]
pub(crate) fn paths_new() -> (m: IndexMap<String, u128>)
    ensures
        path_entries(m) == Seq::<(Seq<char>, u128)>::empty(),
{
    IndexMap::new()
}

/// Calls `IndexMap::insert`. Where the map has the key, the pair keeps its
/// place and takes the new value; where it has not, the pair is added last.
#[verifier::external_body]
pub(crate) fn paths_insert(m: &mut IndexMap<String, u128>, path: String, id: u128)
    ensures
        path_entries(*final(m)) == paths_put(path_entries(*old(m)), path@, id),
{
    m.insert(path, id);
}

/// Calls `IndexMap::clone`, which makes a map with the same pairs in the
/// same order.
#[verifier::external_body]
pub(crate) fn paths_clone(m: &IndexMap<String, u128>) -> (r: IndexMap<String, u128>)
    ensures
        path_entries(r) == path_entries(*m),
{
    m.clone()
}

} // verus!
