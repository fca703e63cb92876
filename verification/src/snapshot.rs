//! Snapshots: the live bodies of one tick, as a list.
//!
//! An entity is meant to occur once in a snapshot. Where it occurs more than
//! once, its last entry is the one that counts.

use vstd::prelude::*;
use crate::components::{Collider, Position};

verus! {

/// One entry of a snapshot: an entity with its position and collider.
#[derive(Clone, Copy, Debug)]
pub struct Body {
    pub entity: u64,
    pub position: Position,
    pub collider: Collider,
}

/// Where the snapshot holds the entity: its last entry of that identifier.
pub open spec fn slot_of(bodies: Seq<Body>, e: u64) -> Option<int>
    decreases bodies.len(),
{
    if bodies.len() == 0 {
        None
    } else if bodies.last().entity == e {
        Some(bodies.len() - 1)
    } else {
        slot_of(bodies.drop_last(), e)
    }
}

/// Where the snapshot holds an entity, it holds it there.
pub proof fn lemma_slot_of(bodies: Seq<Body>, e: u64)
    ensures
        match slot_of(bodies, e) {
            Some(i) => 0 <= i < bodies.len() && bodies[i].entity == e,
            None => forall|i: int| 0 <= i < bodies.len() ==> bodies[i].entity != e,
        },
    decreases bodies.len(),
{
    if bodies.len() > 0 && bodies.last().entity != e {
        lemma_slot_of(bodies.drop_last(), e);
        if slot_of(bodies, e) is None {
            assert forall|i: int| 0 <= i < bodies.len() implies bodies[i].entity != e by {
                if i < bodies.len() - 1 {
                    assert(bodies.drop_last()[i] == bodies[i]);
                }
            }
        }
    }
}

} // verus!
