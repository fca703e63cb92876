//! The hash sets and hash maps of `bevy_platform` that the library keeps its
//! tables in.
//!
//! Nothing in this file is proved. Each function below makes one call into
//! `bevy_platform::collections` and states what that call does to the
//! contents of the collection; the rest of the crate is verified against
//! these statements. The contents themselves are named, not defined: one
//! name for each kind of table, which stands for what the table holds.

use vstd::prelude::*;
use bevy_platform::collections::HashMap;
use bevy_platform::collections::HashSet;
use bevy_platform::hash::FixedHasher;
use crate::force::{Force, ForceView};

verus! {

/// `bevy_platform::hash::FixedHasher`, the hasher of every table here.
/// Nothing is said of it.
#[verifier::external_type_specification]
#[verifier::external_body]
pub struct ExFixedHasher(FixedHasher);

/// `bevy_platform::collections::HashSet`, as an opaque type.
#[verifier::external_type_specification]
#[verifier::external_body]
#[verifier::reject_recursive_types(T)]
#[verifier::reject_recursive_types(S)]
pub struct ExHashSet<T, S>(HashSet<T, S>);

/// `bevy_platform::collections::HashMap`, as an opaque type.
#[verifier::external_type_specification]
#[verifier::external_body]
#[verifier::reject_recursive_types(K)]
#[verifier::reject_recursive_types(V)]
#[verifier::reject_recursive_types(S)]
pub struct ExHashMap<K, V, S>(HashMap<K, V, S>);

/// A grid cell, by its integer coordinates.
pub type Cell = (i32, i32);

/// A set of entity identifiers.
pub type EntitySet = HashSet<u64>;

/// A set of grid cells.
pub type CellSet = HashSet<Cell>;

/// For each cell, the entities whose bounds reach into it.
pub type Buckets = HashMap<Cell, EntitySet>;

/// For each entity, the cells that its bounds reach into.
pub type Footprints = HashMap<u64, CellSet>;

/// The forces on one entity, by name.
pub type ForceTable = HashMap<String, Force>;

/// A set of pairs of entity identifiers.
pub type PairSet = HashSet<(u64, u64)>;

/// For each entity of a snapshot, the place where the snapshot holds it.
pub type SlotMap = HashMap<u64, usize>;

/// The entities that an `EntitySet` holds.
pub uninterp spec fn entities_in(s: EntitySet) -> Set<u64>;

/// The cells that a `CellSet` holds.
pub uninterp spec fn cells_in(s: CellSet) -> Set<Cell>;

/// The entries of a `Buckets` map: each key with the contents of its set.
pub uninterp spec fn bucket_entries(m: Buckets) -> Map<Cell, Set<u64>>;

/// The entries of a `Footprints` map: each key with the contents of its set.
pub uninterp spec fn footprint_entries(m: Footprints) -> Map<u64, Set<Cell>>;

/// The entries of a `ForceTable`: each key, as a sequence of characters, with
/// the force stored under it.
pub uninterp spec fn force_entries(m: ForceTable) -> Map<Seq<char>, ForceView>;

/// The pairs that a `PairSet` holds.
pub uninterp spec fn pairs_in(s: PairSet) -> Set<(u64, u64)>;

/// The entries of a `SlotMap`.
pub uninterp spec fn slot_entries(m: SlotMap) -> Map<u64, usize>;

/// `HashSet::new`: a set that holds nothing.
#[verifier::external_body]
pub(crate) fn entity_set_new() -> (r: EntitySet)
    ensures
        entities_in(r) == Set::<u64>::empty(),
{
    HashSet::new()
}

/// `HashSet::insert`: the value is in the set afterwards, and nothing else
/// changes; the result tells whether it was absent before.
#[verifier::external_body]
pub(crate) fn entity_set_insert(s: &mut EntitySet, e: u64) -> (r: bool)
    ensures
        entities_in(*final(s)) == entities_in(*old(s)).insert(e),
        r == !entities_in(*old(s)).contains(e),
{
    s.insert(e)
}

/// `HashSet::remove`: the value is gone afterwards, and nothing else changes;
/// the result tells whether it was present before.
#[verifier::external_body]
pub(crate) fn entity_set_remove(s: &mut EntitySet, e: u64) -> (r: bool)
    ensures
        entities_in(*final(s)) == entities_in(*old(s)).remove(e),
        r == entities_in(*old(s)).contains(e),
{
    s.remove(&e)
}

/// `HashSet::contains`: whether the set holds the value.
#[verifier::external_body]
pub(crate) fn entity_set_contains(s: &EntitySet, e: u64) -> (r: bool)
    ensures
        r == entities_in(*s).contains(e),
{
    s.contains(&e)
}

/// `Extend::extend` with another set: afterwards the set holds what it held
/// and what the other holds.
#[verifier::external_body]
pub(crate) fn entity_set_extend(s: &mut EntitySet, other: &EntitySet)
    ensures
        entities_in(*final(s)) == entities_in(*old(s)).union(entities_in(*other)),
{
    s.extend(other)
}

/// `HashSet::iter`: every value of the set once, in no particular order.
#[verifier::external_body]
pub(crate) fn entity_set_list(s: &EntitySet) -> (r: Vec<u64>)
    ensures
        r@.no_duplicates(),
        r@.to_set() == entities_in(*s),
{
    s.iter().copied().collect()
}

/// `HashSet::new`: a set that holds nothing.
#[verifier::external_body]
pub(crate) fn cell_set_new() -> (r: CellSet)
    ensures
        cells_in(r) == Set::<Cell>::empty(),
{
    HashSet::new()
}

/// `HashSet::insert`: the value is in the set afterwards, and nothing else
/// changes; the result tells whether it was absent before.
#[verifier::external_body]
pub(crate) fn cell_set_insert(s: &mut CellSet, c: Cell) -> (r: bool)
    ensures
        cells_in(*final(s)) == cells_in(*old(s)).insert(c),
        r == !cells_in(*old(s)).contains(c),
{
    s.insert(c)
}

/// `PartialEq::eq` of two sets: whether they hold the same values.
#[verifier::external_body]
pub(crate) fn cell_set_same(a: &CellSet, b: &CellSet) -> (r: bool)
    ensures
        r == (cells_in(*a) == cells_in(*b)),
{
    a == b
}

/// `HashSet::iter`: every value of the set once, in no particular order.
#[verifier::external_body]
pub(crate) fn cell_set_list(s: &CellSet) -> (r: Vec<Cell>)
    ensures
        r@.no_duplicates(),
        r@.to_set() == cells_in(*s),
{
    s.iter().copied().collect()
}

/// `HashMap::new`: a map without entries.
#[verifier::external_body]
pub(crate) fn buckets_new() -> (r: Buckets)
    ensures
        (bucket_entries(r) == Map::<Cell, Set<u64>>::empty()),
{
    HashMap::new()
}

/// `HashMap::get`: the set stored under the key, if there is one.
#[verifier::external_body]
pub(crate) fn buckets_get<'a>(m: &'a Buckets, c: Cell) -> (r: Option<&'a EntitySet>)
    ensures
        match r {
            Some(s) => bucket_entries(*m).contains_key(c) && entities_in(*s) == bucket_entries(*m)[c],
            None => !bucket_entries(*m).contains_key(c),
        },
{
    m.get(&c)
}

/// `HashMap::get_mut`: the set stored under the key, if there is one, to be
/// changed in place. The map afterwards holds under that key whatever the
/// caller left in the set, and its other entries as before.
#[verifier::external_body]
pub(crate) fn buckets_get_mut<'a>(m: &'a mut Buckets, c: Cell) -> (r: Option<&'a mut EntitySet>)
    ensures
        r.is_some() == bucket_entries(*old(m)).contains_key(c),
        match r {
            Some(s) => entities_in(*s) == bucket_entries(*old(m))[c] && bucket_entries(*final(m))
                == bucket_entries(*old(m)).insert(c, entities_in(*final(s))),
            None => bucket_entries(*final(m)) == bucket_entries(*old(m)),
        },
{
    m.get_mut(&c)
}

/// `HashMap::insert`: the key maps to the given set afterwards, and the other
/// entries stay.
#[verifier::external_body]
pub(crate) fn buckets_insert(m: &mut Buckets, c: Cell, s: EntitySet)
    ensures
        bucket_entries(*final(m)) == bucket_entries(*old(m)).insert(c, entities_in(s)),
{
    m.insert(c, s);
}

/// `HashMap::new`: a map without entries.
#[verifier::external_body]
pub(crate) fn footprints_new() -> (r: Footprints)
    ensures
        (footprint_entries(r) == Map::<u64, Set<Cell>>::empty()),
{
    HashMap::new()
}

/// `HashMap::get`: the set stored under the key, if there is one.
#[verifier::external_body]
pub(crate) fn footprints_get<'a>(m: &'a Footprints, e: u64) -> (r: Option<&'a CellSet>)
    ensures
        match r {
            Some(s) => footprint_entries(*m).contains_key(e) && cells_in(*s) == footprint_entries(*m)[e],
            None => !footprint_entries(*m).contains_key(e),
        },
{
    m.get(&e)
}

/// `HashMap::insert`: the key maps to the given set afterwards, and the other
/// entries stay.
#[verifier::external_body]
pub(crate) fn footprints_insert(m: &mut Footprints, e: u64, s: CellSet)
    ensures
        footprint_entries(*final(m)) == footprint_entries(*old(m)).insert(e, cells_in(s)),
{
    m.insert(e, s);
}

/// `HashMap::remove`: the entry under the key is gone afterwards and the
/// others stay; the result is the set that was stored there, if any.
#[verifier::external_body]
pub(crate) fn footprints_remove(m: &mut Footprints, e: u64) -> (r: Option<CellSet>)
    ensures
        footprint_entries(*final(m)) == footprint_entries(*old(m)).remove(e),
        match r {
            Some(s) => footprint_entries(*old(m)).contains_key(e) && cells_in(s) == footprint_entries(
                *old(m),
            )[e],
            None => !footprint_entries(*old(m)).contains_key(e),
        },
{
    m.remove(&e)
}

/// `HashMap::keys`: every key of the map once, in no particular order.
#[verifier::external_body]
pub(crate) fn footprints_keys(m: &Footprints) -> (r: Vec<u64>)
    ensures
        r@.no_duplicates(),
        r@.to_set() == footprint_entries(*m).dom(),
{
    m.keys().copied().collect()
}

/// `HashMap::new`: a map without entries.
#[verifier::external_body]
pub(crate) fn force_table_new() -> (r: ForceTable)
    ensures
        (force_entries(r) == Map::<Seq<char>, ForceView>::empty()),
{
    HashMap::new()
}

/// `HashMap::get`: the force stored under the key, if there is one.
#[verifier::external_body]
pub(crate) fn force_table_get<'a>(m: &'a ForceTable, id: &String) -> (r: Option<&'a Force>)
    ensures
        match r {
            Some(f) => force_entries(*m).contains_key(id@) && f@ == force_entries(*m)[id@],
            None => !force_entries(*m).contains_key(id@),
        },
{
    m.get(id)
}

/// `HashMap::insert`: the key maps to the given force afterwards, and the
/// other entries stay.
#[verifier::external_body]
pub(crate) fn force_table_insert(m: &mut ForceTable, id: String, f: Force)
    ensures
        force_entries(*final(m)) == force_entries(*old(m)).insert(id@, f@),
{
    m.insert(id, f);
}

/// `HashMap::keys`: every key of the map once, in no particular order.
#[verifier::external_body]
pub(crate) fn force_table_keys(m: &ForceTable) -> (r: Vec<String>)
    ensures
        r.deep_view().no_duplicates(),
        r.deep_view().to_set() == force_entries(*m).dom(),
{
    m.keys().cloned().collect()
}

/// `HashSet::new`: a set that holds nothing.
#[verifier::external_body]
pub(crate) fn pair_set_new() -> (r: PairSet)
    ensures
        (pairs_in(r) == Set::<(u64, u64)>::empty()),
{
    HashSet::new()
}

/// `HashSet::insert`: the value is in the set afterwards, and nothing else
/// changes; the result tells whether it was absent before.
#[verifier::external_body]
pub(crate) fn pair_set_insert(s: &mut PairSet, pair: (u64, u64)) -> (r: bool)
    ensures
        pairs_in(*final(s)) == pairs_in(*old(s)).insert(pair),
        r == !pairs_in(*old(s)).contains(pair),
{
    s.insert(pair)
}

/// `HashMap::new`: a map without entries.
#[verifier::external_body]
pub(crate) fn slot_map_new() -> (r: SlotMap)
    ensures
        (slot_entries(r) == Map::<u64, usize>::empty()),
{
    HashMap::new()
}

/// `HashMap::insert`: the key maps to the given value afterwards, and the
/// other entries stay.
#[verifier::external_body]
pub(crate) fn slot_map_insert(m: &mut SlotMap, e: u64, slot: usize)
    ensures
        slot_entries(*final(m)) == slot_entries(*old(m)).insert(e, slot),
{
    m.insert(e, slot);
}

/// `HashMap::get`: the value stored under the key, if there is one.
#[verifier::external_body]
pub(crate) fn slot_map_get(m: &SlotMap, e: u64) -> (r: Option<usize>)
    ensures
        match r {
            Some(slot) => slot_entries(*m).contains_key(e) && slot == slot_entries(*m)[e],
            None => !slot_entries(*m).contains_key(e),
        },
{
    m.get(&e).copied()
}

} // verus!
