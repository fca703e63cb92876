//! Collision resolution: one pass over a snapshot of all bodies that finds
//! the overlapping pairs, reports each once and pushes dynamic bodies apart.
//!
//! The pass is sequential. Bodies are visited in the order of the snapshot
//! and the neighbours of a body in ascending order of their identifiers; a
//! pair that is examined later sees the positions that earlier pairs of the
//! same pass have left.

use vstd::prelude::*;
use crate::components::{Collider, ColliderType, Position};
use crate::narrow_phase::{advance, overlap, response, retreat, separation};
use crate::snapshot::{lemma_slot_of, slot_of, Body};
use crate::sorting::{ascending, sort_ascending};
use crate::spatial_grid::SpatialHashGrid;
use crate::tables::{
    entity_set_list, pair_set_insert, pair_set_new, pairs_in, slot_entries, slot_map_get,
    slot_map_insert, slot_map_new, PairSet, SlotMap,
};
use crate::vector::Vec2;

verus! {

/// Two entities whose colliders overlapped. The first is the one whose
/// neighbourhood was searched.
#[derive(Clone, Copy, Debug, PartialEq, Eq, Structural)]
pub struct CollisionMessage(pub u64, pub u64);

/// The state of a resolution pass.
pub ghost struct Pass {
    /// For each entry of the snapshot, the position that the pass has moved
    /// it to, if it has moved it.
    pub overrides: Seq<Option<Vec2>>,
    /// The pairs examined so far, each with its lesser entity first.
    pub checked: Set<(u64, u64)>,
    /// The overlaps reported so far.
    pub events: Seq<CollisionMessage>,
}

/// The pair of two entities, the lesser first.
pub open spec fn unordered(a: u64, b: u64) -> (u64, u64) {
    if a < b {
        (a, b)
    } else {
        (b, a)
    }
}

/// The position of an entry as the pass sees it: where the pass has moved
/// it, or else where the snapshot has it.
pub open spec fn place(bodies: Seq<Body>, overrides: Seq<Option<Vec2>>, i: int) -> Vec2 {
    match overrides[i] {
        Some(p) => p,
        None => bodies[i].position.0,
    }
}

/// The moved positions after the overlapping entries `a` and `b` have been
/// pushed apart by `mtv`.
pub open spec fn pushed_apart(
    bodies: Seq<Body>,
    overrides: Seq<Option<Vec2>>,
    a: int,
    b: int,
    mtv: Vec2,
) -> Seq<Option<Vec2>> {
    let kind_a = bodies[a].collider.ctype();
    let kind_b = bodies[b].collider.ctype();
    let first = match retreat(mtv, kind_a, kind_b) {
        Some(d) => overrides.update(a, Some(place(bodies, overrides, a).minus(d))),
        None => overrides,
    };
    match advance(mtv, kind_a, kind_b) {
        Some(d) => first.update(b, Some(place(bodies, overrides, b).plus(d))),
        None => first,
    }
}

/// The pass after entry `a` has met its neighbour `other`.
///
/// Nothing happens where the snapshot does not hold `other`, where `other`
/// is the entity of `a` itself, or where the pair was examined before.
/// Otherwise the pair counts as examined; and where the two overlap, at the
/// positions the pass sees, the overlap is reported and the two are pushed
/// apart.
pub open spec fn meet(bodies: Seq<Body>, pass: Pass, a: int, other: u64) -> Pass {
    let me = bodies[a].entity;
    match slot_of(bodies, other) {
        None => pass,
        Some(b) => if other == me || pass.checked.contains(unordered(me, other)) {
            pass
        } else {
            let checked = pass.checked.insert(unordered(me, other));
            match separation(
                place(bodies, pass.overrides, a),
                bodies[a].collider,
                place(bodies, pass.overrides, b),
                bodies[b].collider,
            ) {
                None => Pass { overrides: pass.overrides, checked, events: pass.events },
                Some(mtv) => Pass {
                    overrides: pushed_apart(bodies, pass.overrides, a, b, mtv),
                    checked,
                    events: pass.events.push(CollisionMessage(me, other)),
                },
            }
        },
    }
}

/// The pass after entry `a` has met the given neighbours, one after another.
pub open spec fn visit(bodies: Seq<Body>, pass: Pass, a: int, neighbors: Seq<u64>) -> Pass
    decreases neighbors.len(),
{
    if neighbors.len() == 0 {
        pass
    } else {
        meet(bodies, visit(bodies, pass, a, neighbors.drop_last()), a, neighbors.last())
    }
}

/// Whether the pass searches the neighbourhood of a body: static bodies and
/// bodies that the grid does not know are passed over.
pub open spec fn searches(grid: SpatialHashGrid, body: Body) -> bool {
    !body.collider.ctype().is_static() && grid.tracks(body.entity)
}

/// A pass that has not begun.
pub open spec fn fresh(bodies: Seq<Body>) -> Pass {
    Pass {
        overrides: Seq::new(bodies.len(), |i: int| None::<Vec2>),
        checked: Set::empty(),
        events: Seq::empty(),
    }
}

/// The pass after the first `upto` entries of the snapshot have been
/// visited, each meeting the entities that share a cell with it, in
/// ascending order.
pub open spec fn sweep(bodies: Seq<Body>, grid: SpatialHashGrid, upto: int) -> Pass
    decreases upto,
{
    if upto <= 0 {
        fresh(bodies)
    } else {
        let before = sweep(bodies, grid, upto - 1);
        let body = bodies[upto - 1];
        if searches(grid, body) {
            visit(bodies, before, upto - 1, ascending(grid.sharing(body.entity)))
        } else {
            before
        }
    }
}

/// The snapshot with every moved entry at its new position.
pub open spec fn settled(bodies: Seq<Body>, overrides: Seq<Option<Vec2>>) -> Seq<Body> {
    Seq::new(
        bodies.len(),
        |i: int|
            Body {
                entity: bodies[i].entity,
                position: Position(place(bodies, overrides, i)),
                collider: bodies[i].collider,
            },
    )
}

/// No two reports name the same two entities, in either order.
pub open spec fn pairs_distinct(events: Seq<CollisionMessage>) -> bool {
    forall|i: int, j: int|
        0 <= i < j < events.len() ==> unordered(events[i].0, events[i].1) != unordered(
            events[j].0,
            events[j].1,
        )
}

/// Every reported pair has been examined, and none is reported twice.
pub open spec fn consistent(pass: Pass) -> bool {
    &&& pairs_distinct(pass.events)
    &&& forall|k: int|
        0 <= k < pass.events.len() ==> pass.checked.contains(
            unordered(#[trigger] pass.events[k].0, pass.events[k].1),
        )
}

proof fn lemma_meet_consistent(bodies: Seq<Body>, pass: Pass, a: int, other: u64)
    requires
        consistent(pass),
    ensures
        consistent(meet(bodies, pass, a, other)),
{
    let after = meet(bodies, pass, a, other);
    if after.events.len() > pass.events.len() {
        let me = bodies[a].entity;
        let last = pass.events.len() as int;
        assert(after.events == pass.events.push(CollisionMessage(me, other)));
        assert forall|i: int, j: int| 0 <= i < j < after.events.len() implies unordered(
            after.events[i].0,
            after.events[i].1,
        ) != unordered(after.events[j].0, after.events[j].1) by {
            if j == last {
                assert(pass.checked.contains(unordered(pass.events[i].0, pass.events[i].1)));
            }
        }
    }
}

proof fn lemma_visit_consistent(bodies: Seq<Body>, pass: Pass, a: int, neighbors: Seq<u64>)
    requires
        consistent(pass),
    ensures
        consistent(visit(bodies, pass, a, neighbors)),
    decreases neighbors.len(),
{
    if neighbors.len() > 0 {
        lemma_visit_consistent(bodies, pass, a, neighbors.drop_last());
        lemma_meet_consistent(
            bodies,
            visit(bodies, pass, a, neighbors.drop_last()),
            a,
            neighbors.last(),
        );
    }
}

/// A pass reports each pair of entities at most once, whichever of the two
/// is visited first.
pub proof fn lemma_one_report_per_pair(bodies: Seq<Body>, grid: SpatialHashGrid, upto: int)
    ensures
        consistent(sweep(bodies, grid, upto)),
        pairs_distinct(sweep(bodies, grid, upto).events),
    decreases upto,
{
    if upto > 0 {
        lemma_one_report_per_pair(bodies, grid, upto - 1);
        let before = sweep(bodies, grid, upto - 1);
        let body = bodies[upto - 1];
        if searches(grid, body) {
            lemma_visit_consistent(bodies, before, upto - 1, ascending(grid.sharing(body.entity)));
        }
    }
}

/// The pass has a place for every entry of the snapshot and has moved none
/// but dynamic bodies.
pub open spec fn moves_dynamic_only(bodies: Seq<Body>, pass: Pass) -> bool {
    &&& pass.overrides.len() == bodies.len()
    &&& forall|i: int|
        0 <= i < bodies.len() && (#[trigger] pass.overrides[i]) is Some
            ==> bodies[i].collider.ctype() is Dynamic
}

proof fn lemma_meet_moves_dynamic_only(bodies: Seq<Body>, pass: Pass, a: int, other: u64)
    requires
        0 <= a < bodies.len(),
        moves_dynamic_only(bodies, pass),
    ensures
        moves_dynamic_only(bodies, meet(bodies, pass, a, other)),
{
    lemma_slot_of(bodies, other);
}

proof fn lemma_visit_moves_dynamic_only(bodies: Seq<Body>, pass: Pass, a: int, neighbors: Seq<u64>)
    requires
        0 <= a < bodies.len(),
        moves_dynamic_only(bodies, pass),
    ensures
        moves_dynamic_only(bodies, visit(bodies, pass, a, neighbors)),
    decreases neighbors.len(),
{
    if neighbors.len() > 0 {
        lemma_visit_moves_dynamic_only(bodies, pass, a, neighbors.drop_last());
        lemma_meet_moves_dynamic_only(
            bodies,
            visit(bodies, pass, a, neighbors.drop_last()),
            a,
            neighbors.last(),
        );
    }
}

/// A pass moves dynamic bodies only: static bodies and sensors end where
/// they began, and every body keeps its entity and its collider.
pub proof fn lemma_only_dynamic_bodies_move(bodies: Seq<Body>, grid: SpatialHashGrid, upto: int)
    requires
        upto <= bodies.len(),
    ensures
        moves_dynamic_only(bodies, sweep(bodies, grid, upto)),
        settled(bodies, sweep(bodies, grid, upto).overrides).len() == bodies.len(),
        forall|i: int|
            0 <= i < bodies.len() ==> {
                let after = #[trigger] settled(bodies, sweep(bodies, grid, upto).overrides)[i];
                &&& after.entity == bodies[i].entity
                &&& after.collider == bodies[i].collider
                &&& !(bodies[i].collider.ctype() is Dynamic) ==> after.position
                    == bodies[i].position
            },
    decreases upto,
{
    if upto > 0 {
        lemma_only_dynamic_bodies_move(bodies, grid, upto - 1);
        let before = sweep(bodies, grid, upto - 1);
        let body = bodies[upto - 1];
        if searches(grid, body) {
            lemma_visit_moves_dynamic_only(
                bodies,
                before,
                upto - 1,
                ascending(grid.sharing(body.entity)),
            );
        }
    }
}

/// The slot map agrees with the snapshot on where each entity is.
spec fn indexes(slots: SlotMap, bodies: Seq<Body>) -> bool {
    forall|e: u64|
        match #[trigger] slot_of(bodies, e) {
            Some(i) => slot_entries(slots).contains_key(e) && slot_entries(slots)[e] == i,
            None => !slot_entries(slots).contains_key(e),
        }
}

fn index_bodies(bodies: &Vec<Body>) -> (slots: SlotMap)
    ensures
        indexes(slots, bodies@),
{
    let mut slots = slot_map_new();
    let mut i: usize = 0;
    while i < bodies.len()
        invariant
            i <= bodies.len(),
            indexes(slots, bodies@.take(i as int)),
        decreases bodies.len() - i,
    {
        let ghost earlier = slot_entries(slots);
        slot_map_insert(&mut slots, bodies[i].entity, i);
        proof {
            let shorter = bodies@.take(i as int);
            let longer = bodies@.take(i + 1);
            assert(longer.drop_last() =~= shorter);
            assert(longer.last() == bodies@[i as int]);
            assert forall|e: u64|
                match #[trigger] slot_of(longer, e) {
                    Some(s) => slot_entries(slots).contains_key(e) && slot_entries(slots)[e] == s,
                    None => !slot_entries(slots).contains_key(e),
                } by {
                assert(slot_of(shorter, e) is Some ==> earlier.contains_key(e));
            }
        }
        i = i + 1;
    }
    proof {
        assert(bodies@.take(bodies.len() as int) =~= bodies@);
    }
    slots
}

/// Entry `a` meets its neighbour `other`.
fn meet_pair(
    bodies: &Vec<Body>,
    slots: &SlotMap,
    overrides: &mut Vec<Option<Vec2>>,
    checked: &mut PairSet,
    events: &mut Vec<CollisionMessage>,
    a: usize,
    other: u64,
)
    requires
        a < bodies.len(),
        old(overrides).len() == bodies.len(),
        indexes(*slots, bodies@),
    ensures
        final(overrides).len() == bodies.len(),
        (Pass {
            overrides: final(overrides)@,
            checked: pairs_in(*final(checked)),
            events: final(events)@,
        }) == meet(
            bodies@,
            Pass { overrides: old(overrides)@, checked: pairs_in(*old(checked)), events: old(events)@ },
            a as int,
            other,
        ),
{
    let me: u64 = bodies[a].entity;
    let ghost before = Pass {
        overrides: overrides@,
        checked: pairs_in(*checked),
        events: events@,
    };
    proof {
        lemma_slot_of(bodies@, other);
    }
    match slot_map_get(slots, other) {
        None => {},
        Some(b) => {
            if other != me {
                let pair: (u64, u64) = if me < other {
                    (me, other)
                } else {
                    (other, me)
                };
                assert(pair == unordered(me, other));
                let fresh_pair: bool = pair_set_insert(checked, pair);
                proof {
                    if !fresh_pair {
                        assert(pairs_in(*checked) =~= before.checked);
                    }
                }
                if fresh_pair {
                    assert(slot_of(bodies@, other) == Some(b as int));
                    let col_a: Collider = bodies[a].collider;
                    let col_b: Collider = bodies[b].collider;
                    let pos_a: Vec2 = match overrides[a] {
                        Some(p) => p,
                        None => bodies[a].position.0,
                    };
                    let pos_b: Vec2 = match overrides[b] {
                        Some(p) => p,
                        None => bodies[b].position.0,
                    };
                    match overlap(pos_a, &col_a, pos_b, &col_b) {
                        None => {},
                        Some(mtv) => {
                            events.push(CollisionMessage(me, other));
                            let (back, forth) = response(mtv, &col_a, &col_b);
                            match back {
                                Some(d) => {
                                    overrides.set(a, Some(pos_a.difference(d)));
                                },
                                None => {},
                            }
                            match forth {
                                Some(d) => {
                                    overrides.set(b, Some(pos_b.sum(d)));
                                },
                                None => {},
                            }
                        },
                    }
                }
            }
        },
    }
}

/// One resolution pass over the snapshot.
///
/// Every body that is not static and that the grid knows meets the entities
/// that share a cell with it. Each pair of entities is examined once; where
/// the two overlap, the pair is reported, and dynamic bodies are pushed out
/// of static ones and apart from each other in proportion to their masses.
/// At the end every moved body has its new position.
pub fn check_collisions_and_resolve(bodies: &mut Vec<Body>, grid: &SpatialHashGrid) -> (events: Vec<
    CollisionMessage,
>)
    requires
        grid.wf(),
    ensures
        events@ == sweep(old(bodies)@, *grid, old(bodies)@.len() as int).events,
        final(bodies)@ == settled(
            old(bodies)@,
            sweep(old(bodies)@, *grid, old(bodies)@.len() as int).overrides,
        ),
        pairs_distinct(events@),
        final(bodies)@.len() == old(bodies)@.len(),
        forall|i: int|
            0 <= i < old(bodies)@.len() ==> {
                &&& (#[trigger] final(bodies)@[i]).entity == old(bodies)@[i].entity
                &&& final(bodies)@[i].collider == old(bodies)@[i].collider
                &&& !(old(bodies)@[i].collider.ctype() is Dynamic) ==> final(bodies)@[i].position
                    == old(bodies)@[i].position
            },
{
    let n: usize = bodies.len();
    let slots = index_bodies(bodies);
    let mut overrides: Vec<Option<Vec2>> = Vec::new();
    let mut filled: usize = 0;
    while filled < n
        invariant
            filled <= n,
            overrides@.len() == filled,
            forall|i: int| 0 <= i < filled ==> overrides@[i] == None::<Vec2>,
        decreases n - filled,
    {
        overrides.push(None);
        filled = filled + 1;
    }
    let mut checked = pair_set_new();
    let mut events: Vec<CollisionMessage> = Vec::new();
    proof {
        assert(overrides@ =~= fresh(bodies@).overrides);
    }
    let mut a: usize = 0;
    while a < n
        invariant
            a <= n,
            n == bodies.len(),
            bodies@ == old(bodies)@,
            grid.wf(),
            indexes(slots, bodies@),
            overrides@.len() == n,
            (Pass { overrides: overrides@, checked: pairs_in(checked), events: events@ }) == sweep(
                bodies@,
                *grid,
                a as int,
            ),
        decreases n - a,
    {
        let body: Body = bodies[a];
        let is_static: bool = match body.collider.ctype() {
            ColliderType::Static => true,
            _ => false,
        };
        if !is_static {
            match grid.iter(body.entity) {
                None => {},
                Some(found) => {
                    let listed: Vec<u64> = entity_set_list(&found);
                    let neighbors: Vec<u64> = sort_ascending(&listed);
                    let ghost start = sweep(bodies@, *grid, a as int);
                    let mut k: usize = 0;
                    while k < neighbors.len()
                        invariant
                            k <= neighbors.len(),
                            a < n,
                            n == bodies.len(),
                            indexes(slots, bodies@),
                            overrides@.len() == n,
                            (Pass {
                                overrides: overrides@,
                                checked: pairs_in(checked),
                                events: events@,
                            }) == visit(bodies@, start, a as int, neighbors@.take(k as int)),
                        decreases neighbors.len() - k,
                    {
                        proof {
                            assert(neighbors@.take(k + 1).drop_last() =~= neighbors@.take(k as int));
                        }
                        meet_pair(
                            bodies,
                            &slots,
                            &mut overrides,
                            &mut checked,
                            &mut events,
                            a,
                            neighbors[k],
                        );
                        k = k + 1;
                    }
                    proof {
                        assert(neighbors@.take(neighbors.len() as int) =~= neighbors@);
                    }
                },
            }
        }
        a = a + 1;
    }
    let ghost last = sweep(old(bodies)@, *grid, n as int);
    let mut i: usize = 0;
    while i < n
        invariant
            i <= n,
            n == bodies.len(),
            overrides@.len() == n,
            overrides@ == last.overrides,
            old(bodies)@.len() == n,
            forall|j: int|
                0 <= j < i ==> bodies@[j] == #[trigger] settled(old(bodies)@, overrides@)[j],
            forall|j: int| i <= j < n ==> bodies@[j] == old(bodies)@[j],
        decreases n - i,
    {
        match overrides[i] {
            Some(p) => {
                let body: Body = bodies[i];
                bodies.set(
                    i,
                    Body { entity: body.entity, position: Position(p), collider: body.collider },
                );
            },
            None => {},
        }
        i = i + 1;
    }
    proof {
        assert(bodies@ =~= settled(old(bodies)@, last.overrides));
        lemma_one_report_per_pair(old(bodies)@, *grid, n as int);
        lemma_only_dynamic_bodies_move(old(bodies)@, *grid, n as int);
        assert forall|i: int| 0 <= i < n implies {
            &&& (#[trigger] bodies@[i]).entity == old(bodies)@[i].entity
            &&& bodies@[i].collider == old(bodies)@[i].collider
            &&& !(old(bodies)@[i].collider.ctype() is Dynamic) ==> bodies@[i].position == old(
                bodies,
            )@[i].position
        } by {
            assert(bodies@[i] == settled(old(bodies)@, last.overrides)[i]);
        }
    }
    events
}

} // verus!
