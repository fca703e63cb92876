//! Broad phase: a uniform grid that records, for every tracked entity, the
//! cells that its bounding box reaches into, and for every cell the entities
//! that reach into it.

use vstd::prelude::*;
use vstd::arithmetic::div_mod::lemma_div_is_ordered;
use vstd::arithmetic::div_mod::lemma_fundamental_div_mod;
use vstd::arithmetic::div_mod::lemma_fundamental_div_mod_converse;
use crate::components::{Collider, Position};
use crate::snapshot::{lemma_slot_of, slot_of, Body};
use crate::scalar::wide_magnitude_of;
use crate::tables::{
    bucket_entries, buckets_get, buckets_get_mut, buckets_insert, buckets_new, cell_set_insert,
    cell_set_list, cell_set_new, cell_set_same, cells_in, entities_in, entity_set_extend,
    entity_set_contains, entity_set_insert, entity_set_new, entity_set_remove, footprint_entries, footprints_get,
    footprints_insert, footprints_keys, footprints_new, footprints_remove, Buckets, Cell, CellSet,
    EntitySet, Footprints,
};

verus! {

/// The value `v`, held to the range of a cell coordinate.
pub open spec fn clamp_coordinate(v: int) -> int {
    if v < i32::MIN {
        i32::MIN as int
    } else if v > i32::MAX {
        i32::MAX as int
    } else {
        v
    }
}

/// The coordinate of the cell that holds the scalar `bound`, for cells of
/// side `cell_size`: the quotient rounded down.
pub open spec fn cell_index(bound: int, cell_size: int) -> int {
    clamp_coordinate(bound / cell_size)
}

/// Lower edge, along one axis, of a box of the given full size around `center`.
pub open spec fn low_edge(center: int, size: int) -> int {
    center - size / 2
}

/// Upper edge, along one axis, of a box of the given full size around `center`.
pub open spec fn high_edge(center: int, size: int) -> int {
    center + size / 2
}

/// Whether the bounding box of a collider at `pos` reaches into the cell `c`.
pub open spec fn reaches(pos: Position, col: Collider, cell_size: int, c: Cell) -> bool {
    &&& cell_index(low_edge(pos.0.x as int, col.size().x as int), cell_size) <= c.0
    &&& c.0 <= cell_index(high_edge(pos.0.x as int, col.size().x as int), cell_size)
    &&& cell_index(low_edge(pos.0.y as int, col.size().y as int), cell_size) <= c.1
    &&& c.1 <= cell_index(high_edge(pos.0.y as int, col.size().y as int), cell_size)
}

/// The cells that the bounding box of a collider at `pos` reaches into: every
/// cell from the one that holds its lower corner through the one that holds
/// its upper corner, on both axes. The rounding of the corners is ignored.
pub open spec fn covering(pos: Position, col: Collider, cell_size: int) -> Set<Cell> {
    Set::new(|c: Cell| reaches(pos, col, cell_size, c))
}

/// Whether the map gives the entity at least one cell.
pub open spec fn occupies_some(m: Map<u64, Set<Cell>>, e: u64) -> bool {
    exists|c: Cell| lists(m, e, c)
}

/// The cell that holds the lower corner of the bounding box of a collider.
pub open spec fn lower_cell(pos: Position, col: Collider, cell_size: int) -> Cell {
    (
        cell_index(low_edge(pos.0.x as int, col.size().x as int), cell_size) as i32,
        cell_index(low_edge(pos.0.y as int, col.size().y as int), cell_size) as i32,
    )
}

/// A collider reaches into at least one cell: the one that holds the lower
/// corner of its bounding box.
pub proof fn lemma_covering_nonempty(pos: Position, col: Collider, cell_size: int)
    requires
        cell_size > 0,
        col.valid(),
    ensures
        covering(pos, col, cell_size).contains(lower_cell(pos, col, cell_size)),
{
    let low_x = low_edge(pos.0.x as int, col.size().x as int);
    let high_x = high_edge(pos.0.x as int, col.size().x as int);
    let low_y = low_edge(pos.0.y as int, col.size().y as int);
    let high_y = high_edge(pos.0.y as int, col.size().y as int);
    assert(low_x <= high_x && low_y <= high_y);
    lemma_div_is_ordered(low_x, high_x, cell_size);
    lemma_div_is_ordered(low_y, high_y, cell_size);
    assert(reaches(pos, col, cell_size, lower_cell(pos, col, cell_size)));
}

/// Whether the map `m` lists `inner` under the key `outer`.
pub open spec fn lists<K, V>(m: Map<K, Set<V>>, outer: K, inner: V) -> bool {
    m.contains_key(outer) && m[outer].contains(inner)
}

fn cell_coordinate(bound: i128, cell_size: i64) -> (r: i32)
    requires
        cell_size > 0,
        -0x2_0000_0000_0000_0000 < bound < 0x2_0000_0000_0000_0000,
    ensures
        r == cell_index(bound as int, cell_size as int),
{
    let d: u128 = cell_size as u128;
    if bound >= 0 {
        let q: u128 = (bound as u128) / d;
        if q > 2147483647 {
            i32::MAX
        } else {
            q as i32
        }
    } else {
        let m: u128 = wide_magnitude_of(bound);
        let q: u128 = (m + d - 1) / d;
        proof {
            let rest = ((m + d - 1) % (d as int)) as int;
            lemma_fundamental_div_mod(m + d - 1, d as int);
            assert((-(q as int)) * d == -(d * q)) by (nonlinear_arith);
            lemma_fundamental_div_mod_converse(bound as int, d as int, -(q as int), d - 1 - rest);
        }
        if q > 2147483648 {
            i32::MIN
        } else {
            let signed: i128 = -(q as i128);
            signed as i32
        }
    }
}

/// Takes the entity out of the bucket of one cell, if the cell has a bucket.
fn bucket_drop(buckets: &mut Buckets, c: Cell, e: u64)
    ensures
        forall|c2: Cell, n: u64| #[trigger]
            lists(bucket_entries(*final(buckets)), c2, n) == (lists(
                bucket_entries(*old(buckets)),
                c2,
                n,
            ) && !(c2 == c && n == e)),
{
    match buckets_get_mut(buckets, c) {
        Some(bucket) => {
            entity_set_remove(bucket, e);
        },
        None => {},
    }
}

/// Puts the entity into the bucket of one cell, making the bucket if the cell
/// has none.
fn bucket_add(buckets: &mut Buckets, c: Cell, e: u64)
    ensures
        forall|c2: Cell, n: u64| #[trigger]
            lists(bucket_entries(*final(buckets)), c2, n) == (lists(
                bucket_entries(*old(buckets)),
                c2,
                n,
            ) || (c2 == c && n == e)),
{
    match buckets_get_mut(buckets, c) {
        Some(bucket) => {
            entity_set_insert(bucket, e);
        },
        None => {
            let mut bucket = entity_set_new();
            entity_set_insert(&mut bucket, e);
            buckets_insert(buckets, c, bucket);
        },
    }
}

/// Takes the entity out of the buckets of all the listed cells.
fn buckets_drop_all(buckets: &mut Buckets, cells: &Vec<Cell>, e: u64)
    ensures
        forall|c: Cell, n: u64| #[trigger]
            lists(bucket_entries(*final(buckets)), c, n) == (lists(
                bucket_entries(*old(buckets)),
                c,
                n,
            ) && !(n == e && cells@.contains(c))),
{
    let mut i: usize = 0;
    while i < cells.len()
        invariant
            i <= cells.len(),
            forall|c: Cell, n: u64| #[trigger]
                lists(bucket_entries(*buckets), c, n) == (lists(
                    bucket_entries(*old(buckets)),
                    c,
                    n,
                ) && !(n == e && cells@.take(i as int).contains(c))),
        decreases cells.len() - i,
    {
        let ghost before = bucket_entries(*buckets);
        bucket_drop(buckets, cells[i], e);
        proof {
            assert forall|c: Cell, n: u64| #[trigger]
                lists(bucket_entries(*buckets), c, n) == (lists(
                    bucket_entries(*old(buckets)),
                    c,
                    n,
                ) && !(n == e && cells@.take(i + 1).contains(c))) by {
                assert(lists(bucket_entries(*buckets), c, n) == (lists(before, c, n) && !(c
                    == cells@[i as int] && n == e)));
                assert(cells@.take(i + 1) =~= cells@.take(i as int).push(cells@[i as int]));
                if cells@.take(i as int).contains(c) {
                    let j = choose|j: int|
                        0 <= j < cells@.take(i as int).len() && cells@.take(i as int)[j] == c;
                    assert(cells@.take(i + 1)[j] == c);
                }
                if c == cells@[i as int] {
                    assert(cells@.take(i + 1)[i as int] == c);
                }
            }
        }
        i = i + 1;
    }
    proof {
        assert(cells@.take(cells.len() as int) =~= cells@);
    }
}

/// Puts the entity into the buckets of all the listed cells.
fn buckets_add_all(buckets: &mut Buckets, cells: &Vec<Cell>, e: u64)
    ensures
        forall|c: Cell, n: u64| #[trigger]
            lists(bucket_entries(*final(buckets)), c, n) == (lists(
                bucket_entries(*old(buckets)),
                c,
                n,
            ) || (n == e && cells@.contains(c))),
{
    let mut i: usize = 0;
    while i < cells.len()
        invariant
            i <= cells.len(),
            forall|c: Cell, n: u64| #[trigger]
                lists(bucket_entries(*buckets), c, n) == (lists(
                    bucket_entries(*old(buckets)),
                    c,
                    n,
                ) || (n == e && cells@.take(i as int).contains(c))),
        decreases cells.len() - i,
    {
        let ghost before = bucket_entries(*buckets);
        bucket_add(buckets, cells[i], e);
        proof {
            assert forall|c: Cell, n: u64| #[trigger]
                lists(bucket_entries(*buckets), c, n) == (lists(
                    bucket_entries(*old(buckets)),
                    c,
                    n,
                ) || (n == e && cells@.take(i + 1).contains(c))) by {
                assert(lists(bucket_entries(*buckets), c, n) == (lists(before, c, n) || (c
                    == cells@[i as int] && n == e)));
                assert(cells@.take(i + 1) =~= cells@.take(i as int).push(cells@[i as int]));
                if cells@.take(i as int).contains(c) {
                    let j = choose|j: int|
                        0 <= j < cells@.take(i as int).len() && cells@.take(i as int)[j] == c;
                    assert(cells@.take(i + 1)[j] == c);
                }
                if c == cells@[i as int] {
                    assert(cells@.take(i + 1)[i as int] == c);
                }
            }
        }
        i = i + 1;
    }
    proof {
        assert(cells@.take(cells.len() as int) =~= cells@);
    }
}

/// A uniform spatial hash grid.
///
/// The grid keeps two maps that mirror each other: from each tracked entity
/// to the cells it occupies, and from each cell to its occupants.
pub struct SpatialHashGrid {
    cell_size: i64,
    grid_to_ent: Buckets,
    ent_to_grid: Footprints,
}

impl View for SpatialHashGrid {
    type V = Map<u64, Set<Cell>>;

    /// The cells that each tracked entity occupies.
    closed spec fn view(&self) -> Map<u64, Set<Cell>> {
        footprint_entries(self.ent_to_grid)
    }
}

impl SpatialHashGrid {
    /// Raw value of the default side of a cell: twenty units.
    pub const DEFAULT_CELL_SIZE: i64 = 20_000_000;

    /// Side of a cell.
    pub closed spec fn spec_cell_size(&self) -> i64 {
        self.cell_size
    }

    /// The occupants of each cell that ever had one.
    pub closed spec fn occupants(&self) -> Map<Cell, Set<u64>> {
        bucket_entries(self.grid_to_ent)
    }

    /// The side of a cell is positive; the two maps are inverses of each
    /// other: an entity is among the occupants of a cell exactly when the
    /// cell is among the cells of the entity; and every entity that the grid
    /// knows occupies at least one cell.
    pub open spec fn wf(&self) -> bool {
        &&& self.spec_cell_size() > 0
        &&& forall|e: u64, c: Cell| #[trigger]
            lists(self@, e, c) == #[trigger] lists(self.occupants(), c, e)
        &&& forall|e: u64| #[trigger] self@.contains_key(e) ==> occupies_some(self@, e)
    }

    /// Whether the grid has an entry for the entity.
    pub open spec fn tracks(&self, e: u64) -> bool {
        self@.contains_key(e)
    }

    /// The entities that share at least one cell with `e`.
    pub open spec fn sharing(&self, e: u64) -> Set<u64> {
        Set::new(|n: u64| exists|c: Cell| lists(self@, e, c) && #[trigger] lists(self@, n, c))
    }

    /// An empty grid with cells of the given side.
    pub fn new(cell_size: i64) -> (r: SpatialHashGrid)
        requires
            cell_size > 0,
        ensures
            r.wf(),
            r.spec_cell_size() == cell_size,
            r@ == Map::<u64, Set<Cell>>::empty(),
    {
        SpatialHashGrid {
            cell_size,
            grid_to_ent: buckets_new(),
            ent_to_grid: footprints_new(),
        }
    }

    #[verifier::when_used_as_spec(spec_cell_size)]
    pub fn cell_size(&self) -> (r: i64)
        ensures
            r == self.spec_cell_size(),
    {
        self.cell_size
    }

    /// The cells that the bounding box of the collider reaches into.
    pub fn find_cells(&self, pos: &Position, coll: &Collider) -> (cells: CellSet)
        requires
            self.wf(),
        ensures
            cells_in(cells) == covering(*pos, *coll, self.spec_cell_size() as int),
    {
        let size = coll.size();
        let half_x: i128 = (size.x / 2) as i128;
        let half_y: i128 = (size.y / 2) as i128;
        let min_x: i32 = cell_coordinate(pos.0.x as i128 - half_x, self.cell_size);
        let max_x: i32 = cell_coordinate(pos.0.x as i128 + half_x, self.cell_size);
        let min_y: i32 = cell_coordinate(pos.0.y as i128 - half_y, self.cell_size);
        let max_y: i32 = cell_coordinate(pos.0.y as i128 + half_y, self.cell_size);

        let mut cells = cell_set_new();
        let mut x: i64 = min_x as i64;
        while x <= max_x as i64
            invariant
                min_x <= x,
                x <= max_x + 1 || x == min_x,
                cells_in(cells) =~= Set::new(
                    |c: Cell| min_x <= c.0 < x && min_y <= c.1 <= max_y,
                ),
            decreases max_x + 1 - x,
        {
            let mut y: i64 = min_y as i64;
            while y <= max_y as i64
                invariant
                    min_x <= x <= max_x,
                    min_y <= y,
                    y <= max_y + 1 || y == min_y,
                    cells_in(cells) =~= Set::new(
                        |c: Cell|
                            (min_x <= c.0 < x && min_y <= c.1 <= max_y) || (c.0 == x && min_y
                                <= c.1 < y),
                    ),
                decreases max_y + 1 - y,
            {
                cell_set_insert(&mut cells, (x as i32, y as i32));
                y = y + 1;
            }
            x = x + 1;
        }
        cells
    }

    /// Records the cells that the entity occupies at `pos`.
    ///
    /// Where the entity already has exactly these cells, nothing is touched.
    /// Otherwise the entity leaves the buckets of its former cells, enters the
    /// buckets of the new ones, and its entry is replaced.
    pub fn insert_or_update(&mut self, ent: u64, pos: &Position, coll: &Collider)
        requires
            old(self).wf(),
        ensures
            final(self).wf(),
            final(self).spec_cell_size() == old(self).spec_cell_size(),
            final(self)@ == old(self)@.insert(
                ent,
                covering(*pos, *coll, old(self).spec_cell_size() as int),
            ),
            lists_same_cells(old(self)@, ent, covering(*pos, *coll, old(self).spec_cell_size() as int))
                ==> *final(self) == *old(self),
    {
        let cells = self.find_cells(pos, coll);
        let mut unchanged: bool = false;
        let mut former: Vec<Cell> = Vec::new();
        match footprints_get(&self.ent_to_grid, ent) {
            Some(existing) => {
                unchanged = cell_set_same(existing, &cells);
                if !unchanged {
                    former = cell_set_list(existing);
                }
            },
            None => {},
        }
        if unchanged {
            proof {
                assert(self@ =~= self@.insert(ent, cells_in(cells)));
            }
            return ;
        }
        proof {
            use_type_invariant(coll);
            lemma_covering_nonempty(*pos, *coll, self.spec_cell_size() as int);
        }
        let ghost had = if self@.contains_key(ent) {
            self@[ent]
        } else {
            Set::<Cell>::empty()
        };
        assert(former@.to_set() =~= had);
        buckets_drop_all(&mut self.grid_to_ent, &former, ent);
        let latter: Vec<Cell> = cell_set_list(&cells);
        footprints_insert(&mut self.ent_to_grid, ent, cells);
        buckets_add_all(&mut self.grid_to_ent, &latter, ent);
        proof {
            assert forall|e: u64, c: Cell| #[trigger]
                lists(self@, e, c) == #[trigger] lists(self.occupants(), c, e) by {
                assert(lists(old(self)@, e, c) == lists(old(self).occupants(), c, e));
                assert(former@.contains(c) == former@.to_set().contains(c));
                assert(latter@.contains(c) == latter@.to_set().contains(c));
            }
            assert forall|e: u64| #[trigger] self@.contains_key(e) implies occupies_some(
                self@,
                e,
            ) by {
                if e == ent {
                    assert(lists(
                        self@,
                        e,
                        lower_cell(*pos, *coll, old(self).spec_cell_size() as int),
                    ));
                } else {
                    assert(old(self)@.contains_key(e));
                    let c = choose|c: Cell| lists(old(self)@, e, c);
                    assert(lists(self@, e, c));
                }
            }
        }
    }

    /// Forgets the entity: it leaves the buckets of its cells and its entry
    /// is dropped.
    pub fn remove(&mut self, ent: u64)
        requires
            old(self).wf(),
        ensures
            final(self).wf(),
            final(self).spec_cell_size() == old(self).spec_cell_size(),
            final(self)@ == old(self)@.remove(ent),
            !final(self).tracks(ent),
            forall|c: Cell| !#[trigger] lists(final(self).occupants(), c, ent),
    {
        match footprints_remove(&mut self.ent_to_grid, ent) {
            Some(cells) => {
                let former: Vec<Cell> = cell_set_list(&cells);
                buckets_drop_all(&mut self.grid_to_ent, &former, ent);
                proof {
                    assert forall|e: u64, c: Cell| #[trigger]
                        lists(self@, e, c) == #[trigger] lists(self.occupants(), c, e) by {
                        assert(lists(old(self)@, e, c) == lists(old(self).occupants(), c, e));
                        assert(former@.contains(c) == former@.to_set().contains(c));
                    }
                }
            },
            None => {
                proof {
                    assert(self@ =~= old(self)@);
                    assert forall|e: u64, c: Cell| #[trigger]
                        lists(self@, e, c) == #[trigger] lists(self.occupants(), c, e) by {
                        assert(lists(old(self)@, e, c) == lists(old(self).occupants(), c, e));
                    }
                }
            },
        }
        proof {
            assert forall|c: Cell| !#[trigger] lists(self.occupants(), c, ent) by {
                assert(lists(self@, ent, c) == lists(self.occupants(), c, ent));
            }
            assert forall|e: u64| #[trigger] self@.contains_key(e) implies occupies_some(
                self@,
                e,
            ) by {
                assert(old(self)@.contains_key(e));
                let c = choose|c: Cell| lists(old(self)@, e, c);
                assert(lists(self@, e, c));
            }
        }
    }

    /// The entities that share a cell with `ent`, itself among them, or
    /// `None` where the grid does not track `ent`.
    pub fn iter(&self, ent: u64) -> (r: Option<EntitySet>)
        requires
            self.wf(),
        ensures
            match r {
                Some(found) => self.tracks(ent) && entities_in(found) == self.sharing(ent)
                    && entities_in(found).contains(ent),
                None => !self.tracks(ent),
            },
    {
        match footprints_get(&self.ent_to_grid, ent) {
            Some(cell_set) => {
                let cells: Vec<Cell> = cell_set_list(cell_set);
                let mut entities = entity_set_new();
                let mut i: usize = 0;
                while i < cells.len()
                    invariant
                        i <= cells.len(),
                        self.wf(),
                        self.tracks(ent),
                        cells@.to_set() == self@[ent],
                        entities_in(entities) =~= Set::new(
                            |n: u64|
                                exists|j: int|
                                    0 <= j < i && #[trigger] lists(self.occupants(), cells@[j], n),
                        ),
                    decreases cells.len() - i,
                {
                    let ghost before = entities_in(entities);
                    proof {
                        assert(cells@.to_set().contains(cells@[i as int]));
                        assert(lists(self@, ent, cells@[i as int]) == lists(
                            self.occupants(),
                            cells@[i as int],
                            ent,
                        ));
                    }
                    match buckets_get(&self.grid_to_ent, cells[i]) {
                        Some(bucket) => {
                            entity_set_extend(&mut entities, bucket);
                            proof {
                                let bucket_items = self.occupants()[cells@[i as int]];
                                assert forall|n: u64|
                                    before.union(bucket_items).contains(n) == (exists|j: int|
                                        0 <= j < i + 1 && #[trigger] lists(
                                            self.occupants(),
                                            cells@[j],
                                            n,
                                        )) by {
                                    if before.contains(n) {
                                        let j = choose|j: int|
                                            0 <= j < i && #[trigger] lists(
                                                self.occupants(),
                                                cells@[j],
                                                n,
                                            );
                                        assert(lists(self.occupants(), cells@[j], n));
                                    }
                                    if bucket_items.contains(n) {
                                        assert(lists(self.occupants(), cells@[i as int], n));
                                    }
                                }
                            }
                        },
                        None => {
                            return None;
                        },
                    }
                    i = i + 1;
                }
                proof {
                    assert forall|n: u64|
                        entities_in(entities).contains(n) == self.sharing(ent).contains(n) by {
                        if entities_in(entities).contains(n) {
                            let j = choose|j: int|
                                0 <= j < i && #[trigger] lists(self.occupants(), cells@[j], n);
                            let c = cells@[j];
                            assert(cells@.to_set().contains(c));
                            assert(lists(self@, n, c) == lists(self.occupants(), c, n));
                            assert(lists(self@, ent, c) && lists(self@, n, c));
                        }
                        if self.sharing(ent).contains(n) {
                            let c = choose|c: Cell|
                                lists(self@, ent, c) && #[trigger] lists(self@, n, c);
                            assert(cells@.to_set().contains(c));
                            let j = choose|j: int| 0 <= j < cells@.len() && cells@[j] == c;
                            assert(lists(self@, n, c) == lists(self.occupants(), c, n));
                            assert(lists(self.occupants(), cells@[j], n));
                        }
                    }
                    assert(entities_in(entities) =~= self.sharing(ent));
                    let own = choose|c: Cell| lists(self@, ent, c);
                    assert(lists(self@, ent, own) && lists(self@, ent, own));
                }
                Some(entities)
            },
            None => None,
        }
    }

    /// The entities that the grid knows, each once, in no particular order.
    pub fn entities(&self) -> (r: Vec<u64>)
        ensures
            r@.no_duplicates(),
            r@.to_set() == self@.dom(),
    {
        footprints_keys(&self.ent_to_grid)
    }
}

impl Default for SpatialHashGrid {
    /// An empty grid with cells of the default side.
    fn default() -> (r: SpatialHashGrid)
        ensures
            r.wf(),
            r.spec_cell_size() == SpatialHashGrid::DEFAULT_CELL_SIZE,
            r@ == Map::<u64, Set<Cell>>::empty(),
    {
        SpatialHashGrid::new(SpatialHashGrid::DEFAULT_CELL_SIZE)
    }
}

/// What a grid with cells of side `cell_size` records once it has been
/// brought up to date with a snapshot: for each entity of the snapshot, the
/// cells that it covers where the snapshot has it, and nothing else.
pub open spec fn refreshed(bodies: Seq<Body>, cell_size: int) -> Map<u64, Set<Cell>> {
    Map::new(
        |e: u64| slot_of(bodies, e) is Some,
        |e: u64|
            covering(
                bodies[slot_of(bodies, e).unwrap()].position,
                bodies[slot_of(bodies, e).unwrap()].collider,
                cell_size,
            ),
    )
}

/// Brings the grid up to date with a snapshot of the live bodies: every body
/// of the snapshot is recorded with the cells it covers now, and every entity
/// that the grid knew and the snapshot lacks is forgotten.
pub fn update_spatial_hash_grid(grid: &mut SpatialHashGrid, bodies: &Vec<Body>)
    requires
        old(grid).wf(),
    ensures
        final(grid).wf(),
        final(grid).spec_cell_size() == old(grid).spec_cell_size(),
        final(grid)@ == refreshed(bodies@, old(grid).spec_cell_size() as int),
{
    let ghost size = grid.spec_cell_size() as int;
    let ghost target = refreshed(bodies@, size);
    let mut live = entity_set_new();
    let mut i: usize = 0;
    while i < bodies.len()
        invariant
            i <= bodies.len(),
            grid.wf(),
            grid.spec_cell_size() == size,
            forall|e: u64| #[trigger]
                entities_in(live).contains(e) == (slot_of(bodies@.take(i as int), e) is Some),
            forall|e: u64| #[trigger]
                entities_in(live).contains(e) ==> grid@.contains_key(e) && grid@[e] == refreshed(
                    bodies@.take(i as int),
                    size,
                )[e],
        decreases bodies.len() - i,
    {
        let body: Body = bodies[i];
        let ghost earlier = grid@;
        let ghost lived = entities_in(live);
        entity_set_insert(&mut live, body.entity);
        grid.insert_or_update(body.entity, &body.position, &body.collider);
        proof {
            let shorter = bodies@.take(i as int);
            let longer = bodies@.take(i + 1);
            assert(longer.drop_last() =~= shorter);
            assert(longer.last() == body);
            assert forall|e: u64| #[trigger]
                entities_in(live).contains(e) == (slot_of(longer, e) is Some) by {
                assert(lived.contains(e) == (slot_of(shorter, e) is Some));
            }
            assert forall|e: u64| #[trigger]
                entities_in(live).contains(e) implies grid@.contains_key(e) && grid@[e]
                == refreshed(longer, size)[e] by {
                if e != body.entity {
                    assert(lived.contains(e));
                    lemma_slot_of(shorter, e);
                    let s = slot_of(shorter, e).unwrap();
                    assert(longer[s] == shorter[s]);
                }
            }
        }
        i = i + 1;
    }
    proof {
        assert(bodies@.take(bodies.len() as int) =~= bodies@);
    }
    let known: Vec<u64> = grid.entities();
    let ghost mid = grid@;
    let mut j: usize = 0;
    while j < known.len()
        invariant
            j <= known.len(),
            grid.wf(),
            grid.spec_cell_size() == size,
            known@.to_set() == mid.dom(),
            forall|e: u64| #[trigger]
                entities_in(live).contains(e) == (slot_of(bodies@, e) is Some),
            forall|e: u64| #[trigger]
                entities_in(live).contains(e) ==> mid.contains_key(e) && mid[e] == target[e],
            forall|e: u64| #[trigger]
                grid@.contains_key(e) == (mid.contains_key(e) && (entities_in(live).contains(e)
                    || !known@.take(j as int).contains(e))),
            forall|e: u64| #[trigger] grid@.contains_key(e) ==> grid@[e] == mid[e],
        decreases known.len() - j,
    {
        let e: u64 = known[j];
        let ghost shorter = known@.take(j as int);
        let ghost longer = known@.take(j + 1);
        let ghost earlier = grid@;
        if !entity_set_contains(&live, e) {
            grid.remove(e);
        }
        proof {
            assert(longer =~= shorter.push(e));
            assert forall|x: u64| #[trigger]
                grid@.contains_key(x) == (mid.contains_key(x) && (entities_in(live).contains(x)
                    || !longer.contains(x))) by {
                assert(earlier.contains_key(x) == (mid.contains_key(x) && (entities_in(
                    live,
                ).contains(x) || !shorter.contains(x))));
                if shorter.contains(x) {
                    let k = choose|k: int| 0 <= k < shorter.len() && shorter[k] == x;
                    assert(longer[k] == x);
                }
                if longer.contains(x) && x != e {
                    let k = choose|k: int| 0 <= k < longer.len() && longer[k] == x;
                    assert(shorter[k] == x);
                }
                if x == e {
                    assert(longer[j as int] == x);
                }
            }
            assert forall|x: u64| #[trigger] grid@.contains_key(x) implies grid@[x] == mid[x] by {
                assert(earlier.contains_key(x));
            }
        }
        j = j + 1;
    }
    proof {
        assert(known@.take(known.len() as int) =~= known@);
        assert forall|e: u64| grid@.contains_key(e) == target.contains_key(e) by {
            assert(entities_in(live).contains(e) == (slot_of(bodies@, e) is Some));
            if mid.contains_key(e) {
                assert(known@.to_set().contains(e));
                assert(known@.contains(e));
            }
        }
        assert forall|e: u64| grid@.contains_key(e) implies grid@[e] == target[e] by {
            assert(entities_in(live).contains(e));
        }
        assert(grid@ =~= target);
    }
}

/// Whether the map gives the entity exactly these cells.
pub open spec fn lists_same_cells(m: Map<u64, Set<Cell>>, e: u64, cells: Set<Cell>) -> bool {
    m.contains_key(e) && m[e] == cells
}

/// Recording an entity a second time where it stands changes nothing. Once
/// an entity has been recorded, the grid gives it exactly the cells that it
/// covers: the case in which `insert_or_update` leaves the whole grid, both
/// maps, as it is.
pub proof fn lemma_recording_twice(m: Map<u64, Set<Cell>>, e: u64, cells: Set<Cell>)
    ensures
        lists_same_cells(m.insert(e, cells), e, cells),
        m.insert(e, cells).insert(e, cells) == m.insert(e, cells),
{
    assert(m.insert(e, cells).insert(e, cells) =~= m.insert(e, cells));
}

/// An entity that the grid does not know, as every entity is once it has
/// been removed, is in no bucket and in nobody's neighbourhood.
pub proof fn lemma_unknown_is_absent(grid: SpatialHashGrid, e: u64)
    requires
        grid.wf(),
        !grid.tracks(e),
    ensures
        forall|c: Cell| !#[trigger] lists(grid.occupants(), c, e),
        forall|n: u64| !#[trigger] grid.sharing(n).contains(e),
        grid.sharing(e) == Set::<u64>::empty(),
{
    assert forall|c: Cell| !#[trigger] lists(grid.occupants(), c, e) by {
        assert(lists(grid@, e, c) == lists(grid.occupants(), c, e));
    }
    assert(grid.sharing(e) =~= Set::<u64>::empty());
}

/// Every entity that the grid knows is in its own neighbourhood.
pub proof fn lemma_known_is_own_neighbor(grid: SpatialHashGrid, e: u64)
    requires
        grid.wf(),
        grid.tracks(e),
    ensures
        grid.sharing(e).contains(e),
{
    let own = choose|c: Cell| lists(grid@, e, c);
    assert(lists(grid@, e, own) && lists(grid@, e, own));
}

} // verus!
