//! The ordered map from package id to planning record.

use vstd::prelude::*;
use indexmap::IndexMap;
use crate::steps::plan::PackageRelease;

verus! {

/// The insertion-ordered hash map of `indexmap`.
#[verifier::external_type_specification]
#[verifier::external_body]
#[verifier::reject_recursive_types(K)]
#[verifier::reject_recursive_types(V)]
#[verifier::reject_recursive_types(S)]
pub struct ExIndexMap<K, V, S>(IndexMap<K, V, S>);

/// What the map holds: its entries in their order, each the text of a
/// package id with the record stored under it.
pub uninterp spec fn packages(map: IndexMap<String, PackageRelease>) -> Seq<
    (Seq<char>, PackageRelease),
>;

/// The records of the map in its order.
pub open spec fn releases(map: IndexMap<String, PackageRelease>) -> Seq<PackageRelease> {
    Seq::new(packages(map).len(), |i: int| packages(map)[i].1)
}

/// The place of the first entry stored under `id`.
pub open spec fn place_of(entries: Seq<(Seq<char>, PackageRelease)>, id: Seq<char>) -> Option<int>
    decreases entries.len(),
{
    if entries.len() == 0 {
        None
    } else {
        match place_of(entries.drop_last(), id) {
            Some(i) => Some(i),
            None => if entries.last().0 == id {
                Some(entries.len() - 1)
            } else {
                None
            },
        }
    }
}

/// Calls `IndexMap::new`, which makes a map without entries.
#[verifier::external_body]
pub(crate) fn map_new() -> (map: IndexMap<String, PackageRelease>)
    ensures
        packages(map).len() == 0,
{
    IndexMap::new()
}

/// Calls `IndexMap::len`, the number of entries.
#[verifier::external_body]
pub(crate) fn map_len(map: &IndexMap<String, PackageRelease>) -> (n: usize)
    ensures
        n == packages(*map).len(),
{
    map.len()
}

/// Calls `IndexMap::get_index` and hands out the value. For an index below
/// the length that is the value of the entry at that place in the order.
#[verifier::external_body]
pub(crate) fn map_value(map: &IndexMap<String, PackageRelease>, i: usize) -> (value: &PackageRelease)
    requires
        i < packages(*map).len(),
    ensures
        *value == packages(*map)[i as int].1,
{
    map.get_index(i).unwrap().1
}

/// Calls `IndexMap::get_index_mut` and hands out the value for writing. The
/// entry keeps its place and its key; what is written becomes its value, and
/// no other entry changes.
#[verifier::external_body]
pub(crate) fn map_value_mut(map: &mut IndexMap<String, PackageRelease>, i: usize) -> (value:
    &mut PackageRelease)
    requires
        i < packages(*old(map)).len(),
    ensures
        *value == packages(*old(map))[i as int].1,
        packages(*final(map)) == packages(*old(map)).update(
            i as int,
            (packages(*old(map))[i as int].0, *final(value)),
        ),
{
    map.get_index_mut(i).unwrap().1
}

/// Calls `IndexMap::get_index_of`: the place of the entry stored under the
/// key, or `None` where the map holds no such entry.
#[verifier::external_body]
pub(crate) fn map_place(map: &IndexMap<String, PackageRelease>, id: &str) -> (place: Option<usize>)
    ensures
        match place {
            Some(i) => place_of(packages(*map), id@) == Some(i as int),
            None => place_of(packages(*map), id@) is None,
        },
{
    map.get_index_of(id)
}

/// Calls `IndexMap::insert`. Under a key that the map holds already the
/// value is replaced where it stands; under a new key the entry is added
/// last.
#[verifier::external_body]
pub(crate) fn map_insert(map: &mut IndexMap<String, PackageRelease>, id: String, value: PackageRelease)
    ensures
        packages(*final(map)) == match place_of(packages(*old(map)), id@) {
            Some(i) => packages(*old(map)).update(i, (id@, value)),
            None => packages(*old(map)).push((id@, value)),
        },
{
    map.insert(id, value);
}

/// Calls `IndexMap::into_values` and collects what it yields: the values in
/// the order of the map.
#[verifier::external_body]
pub(crate) fn map_into_values(map: IndexMap<String, PackageRelease>) -> (values: Vec<PackageRelease>)
    ensures
        values@ == releases(map),
{
    map.into_values().collect()
}

/// Where [`place_of`] finds an entry, it is stored under the id asked for,
/// and where it finds none, no entry is.
pub proof fn lemma_place_of(entries: Seq<(Seq<char>, PackageRelease)>, id: Seq<char>)
    ensures
        match place_of(entries, id) {
            Some(i) => 0 <= i < entries.len() && entries[i].0 == id,
            None => forall|j: int| 0 <= j < entries.len() ==> (#[trigger] entries[j]).0 != id,
        },
    decreases entries.len(),
{
    if entries.len() > 0 {
        lemma_place_of(entries.drop_last(), id);
        match place_of(entries.drop_last(), id) {
            Some(i) => {
                assert(entries.drop_last()[i] == entries[i]);
            },
            None => {
                assert forall|j: int| 0 <= j < entries.len() - 1 implies (#[trigger] entries[j]).0
                    != id by {
                    assert(entries.drop_last()[j] == entries[j]);
                }
            },
        }
    }
}

} // verus!
